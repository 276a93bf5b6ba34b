//! Enemy path finding on the tile grid: an A* search over the walkable
//! tiles, the reconstruction of the path it found, and the choice of the
//! next waypoint.

use vstd::prelude::*;

verus! {

/// A tile coordinate: `x` is the column, `y` the row.
#[derive(Clone, Copy, PartialEq, Eq, Structural, Hash, Debug)]
pub struct V2 {
    pub x: usize,
    pub y: usize,
}

/// An entry of the open list: a tile and its priority.
#[derive(Clone, Copy, PartialEq, Eq, Structural, Hash, Debug)]
pub struct Node {
    pub position: V2,
    pub cost: usize,
}

} // verus!

verus! {

use crate::map::MAPSIZE;

/// The walls of a search grid are the cells that hold 1; a position is
/// walkable when it lies inside the grid and is not a wall.
pub open spec fn walkable(map: Seq<[i32; MAPSIZE]>, p: V2) -> bool {
    &&& p.x < MAPSIZE
    &&& p.y < map.len()
    &&& map[p.y as int]@[p.x as int] != 1
}

/// Two distinct positions that touch, diagonals included.
pub open spec fn adjacent(p: V2, q: V2) -> bool {
    &&& p != q
    &&& -1 <= p.x - q.x <= 1
    &&& -1 <= p.y - q.y <= 1
}

/// A walk on the grid: each step goes to an adjacent walkable position (the
/// first position need not be walkable).
pub open spec fn is_path(map: Seq<[i32; MAPSIZE]>, path: Seq<V2>) -> bool {
    &&& path.len() >= 1
    &&& forall|i: int|
        0 <= i < path.len() - 1 ==> adjacent(#[trigger] path[i], path[i + 1]) && walkable(
            map,
            path[i + 1],
        )
}

/// Some walk leads from `start` to `target`.
pub open spec fn reachable(map: Seq<[i32; MAPSIZE]>, start: V2, target: V2) -> bool {
    exists|path: Seq<V2>| #[trigger]
        is_path(map, path) && path[0] == start && path[path.len() - 1] == target
}

/// Whether `pos` is a walkable position of `map`.
pub fn is_valid_position(map: &[[i32; MAPSIZE]], pos: V2) -> (r: bool)
    ensures
        r == walkable(map@, pos),
{
    pos.x < MAPSIZE && pos.y < map.len() && map[pos.y][pos.x] != 1
}

/// Manhattan distance between two positions.
pub open spec fn manhattan(a: V2, b: V2) -> int {
    (if a.x >= b.x {
        a.x - b.x
    } else {
        b.x - a.x
    }) + (if a.y >= b.y {
        a.y - b.y
    } else {
        b.y - a.y
    })
}

/// Largest coordinate that the search accepts for its start and target.
pub const COORD_LIMIT: usize = usize::MAX / 16 + 1;

/// Manhattan distance heuristic.
pub fn heuristic(a: V2, b: V2) -> (r: usize)
    requires
        a.x < COORD_LIMIT,
        a.y < COORD_LIMIT,
        b.x < COORD_LIMIT,
        b.y < COORD_LIMIT,
    ensures
        r == manhattan(a, b),
{
    let dx = if a.x >= b.x {
        a.x - b.x
    } else {
        b.x - a.x
    };
    let dy = if a.y >= b.y {
        a.y - b.y
    } else {
        b.y - a.y
    };
    dx + dy
}

/// The positions that have a slot in a table of `n` entries, one per tile,
/// row after row.
pub open spec fn in_table(n: int, p: V2) -> bool {
    p.x < MAPSIZE && p.y < n / MAPSIZE as int
}

/// The slot of a position in such a table.
pub open spec fn cell(p: V2) -> int {
    p.y * MAPSIZE + p.x
}

proof fn lemma_cell(n: int, p: V2)
    requires
        0 <= n,
        in_table(n, p),
    ensures
        0 <= cell(p) < n,
{
    assert((n / 256) * 256 <= n) by (nonlinear_arith)
        requires
            0 <= n,
    ;
}

/// The cost-so-far of a position: its entry in `g`, or 0 when it has none.
pub open spec fn gval(g: Seq<Option<usize>>, p: V2) -> nat {
    if in_table(g.len() as int, p) && g[cell(p)] is Some {
        g[cell(p)].unwrap() as nat
    } else {
        0
    }
}

/// The recorded predecessor of `p`, when it has a lower cost-so-far.
pub open spec fn pred_of(from: Seq<Option<V2>>, g: Seq<Option<usize>>, p: V2) -> Option<V2> {
    if in_table(from.len() as int, p) && from[cell(p)] is Some && gval(g, from[cell(p)].unwrap())
        < gval(g, p) {
        from[cell(p)]
    } else {
        None
    }
}

/// Every recorded predecessor has a lower cost-so-far than its successor.
pub open spec fn ranked(from: Seq<Option<V2>>, g: Seq<Option<usize>>) -> bool {
    forall|p: V2|
        in_table(from.len() as int, p) && (#[trigger] from[cell(p)]) is Some ==> gval(
            g,
            from[cell(p)].unwrap(),
        ) < gval(g, p)
}

/// `p`, its predecessor, that one's predecessor, and so on.
pub open spec fn chain(from: Seq<Option<V2>>, g: Seq<Option<usize>>, p: V2) -> Seq<V2>
    decreases gval(g, p),
{
    match pred_of(from, g, p) {
        Some(q) => seq![p] + chain(from, g, q),
        None => seq![p],
    }
}

/// The predecessor chain that ends at `current`, from its first position to
/// `current`.
pub fn reconstruct_path(from: &Vec<Option<V2>>, g: &Vec<Option<usize>>, current: V2) -> (r: Vec<
    V2,
>)
    requires
        from@.len() == g@.len(),
        ranked(from@, g@),
    ensures
        r@ == chain(from@, g@, current).reverse(),
{
    let n = from.len();
    let mut back: Vec<V2> = Vec::new();
    back.push(current);
    let mut cur = current;
    assert(back@ =~= seq![current]);
    while cur.x < MAPSIZE && cur.y < n / MAPSIZE && from[cur.y * MAPSIZE + cur.x].is_some()
        invariant
            n == from@.len(),
            from@.len() == g@.len(),
            ranked(from@, g@),
            back@.len() >= 1,
            back@.last() == cur,
            chain(from@, g@, current) == back@.drop_last() + chain(from@, g@, cur),
        decreases gval(g@, cur),
    {
        proof {
            lemma_cell(n as int, cur);
        }
        let next = from[cur.y * MAPSIZE + cur.x].unwrap();
        proof {
            assert(from@[cell(cur)] == Some(next));
            assert(pred_of(from@, g@, cur) == Some(next));
            assert(chain(from@, g@, cur) == seq![cur] + chain(from@, g@, next));
            assert(back@.push(next).drop_last() + chain(from@, g@, next) =~= back@.drop_last()
                + chain(from@, g@, cur));
        }
        back.push(next);
        cur = next;
    }
    proof {
        assert(pred_of(from@, g@, cur) is None);
        assert(chain(from@, g@, cur) == seq![cur]);
        assert(chain(from@, g@, current) =~= back@);
    }
    let mut r: Vec<V2> = Vec::new();
    let mut k = back.len();
    while k > 0
        invariant
            k <= back@.len(),
            r@ == back@.subrange(k as int, back@.len() as int).reverse(),
        decreases k,
    {
        k = k - 1;
        r.push(back[k]);
        assert(back@.subrange(k as int, back@.len() as int).reverse() =~= back@.subrange(
            k + 1,
            back@.len() as int,
        ).reverse().push(back@[k as int]));
    }
    assert(back@.subrange(0, back@.len() as int) =~= back@);
    r
}

} // verus!

verus! {

use vstd::multiset::Multiset;
use crate::heap::NodeHeap;

broadcast use vstd::multiset::group_multiset_axioms;

/// Positions that the search has reached: the start, and every position with
/// a cost-so-far.
pub open spec fn reached(g: Seq<Option<usize>>, start: V2, p: V2) -> bool {
    p == start || (in_table(g.len() as int, p) && g[cell(p)] is Some)
}

/// Some entry of the open list is at `p`.
pub open spec fn is_open(h: Multiset<Node>, p: V2) -> bool {
    exists|m: Node| #[trigger] h.count(m) > 0 && m.position == p
}

/// Potential of a cost-so-far slot: its value, or `n + 1` while it is empty.
pub open spec fn pot(n: nat, o: Option<usize>) -> nat {
    match o {
        Some(v) => v as nat,
        None => n + 1,
    }
}

/// Sum of the potentials of a cost-so-far table.
pub open spec fn sum_pot(n: nat, s: Seq<Option<usize>>) -> nat
    decreases s.len(),
{
    if s.len() == 0 {
        0
    } else {
        sum_pot(n, s.drop_last()) + pot(n, s.last())
    }
}

/// Number of filled slots of a cost-so-far table.
pub open spec fn count_some(s: Seq<Option<usize>>) -> nat
    decreases s.len(),
{
    if s.len() == 0 {
        0
    } else {
        count_some(s.drop_last()) + if s.last() is Some {
            1nat
        } else {
            0nat
        }
    }
}

proof fn lemma_sum_pot_update(n: nat, s: Seq<Option<usize>>, i: int, o: Option<usize>)
    requires
        0 <= i < s.len(),
    ensures
        sum_pot(n, s.update(i, o)) + pot(n, s[i]) == sum_pot(n, s) + pot(n, o),
        count_some(s.update(i, o)) + (if s[i] is Some {
            1int
        } else {
            0int
        }) == count_some(s) + (if o is Some {
            1int
        } else {
            0int
        }),
    decreases s.len(),
{
    let t = s.update(i, o);
    if i == s.len() - 1 {
        assert(t.drop_last() =~= s.drop_last());
    } else {
        lemma_sum_pot_update(n, s.drop_last(), i, o);
        assert(t.drop_last() =~= s.drop_last().update(i, o));
    }
}

proof fn lemma_count_some_le(s: Seq<Option<usize>>)
    ensures
        count_some(s) <= s.len(),
    decreases s.len(),
{
    if s.len() > 0 {
        lemma_count_some_le(s.drop_last());
    }
}

/// The bookkeeping of the search, short of the closure property.
pub open spec fn search_inv(
    map: Seq<[i32; MAPSIZE]>,
    start: V2,
    target: V2,
    g: Seq<Option<usize>>,
    from: Seq<Option<V2>>,
    h: Multiset<Node>,
) -> bool {
    &&& g.len() == map.len() * MAPSIZE
    &&& from.len() == g.len()
    &&& start.x < COORD_LIMIT
    &&& start.y < COORD_LIMIT
    &&& in_table(g.len() as int, start) ==> g[cell(start)] == Some(0usize) && from[cell(start)]
        is None
    &&& forall|p: V2|
        in_table(g.len() as int, p) && (#[trigger] g[cell(p)]) is Some && p != start ==> {
            &&& walkable(map, p)
            &&& from[cell(p)] is Some
            &&& reached(g, start, from[cell(p)].unwrap())
            &&& adjacent(from[cell(p)].unwrap(), p)
            &&& gval(g, from[cell(p)].unwrap()) < gval(g, p)
        }
    &&& forall|p: V2|
        in_table(g.len() as int, p) && (#[trigger] from[cell(p)]) is Some ==> g[cell(p)] is Some
            && p != start
    &&& forall|m: Node| #[trigger] h.count(m) > 0 ==> reached(g, start, m.position)
    &&& reached(g, start, target) ==> is_open(h, target)
    &&& forall|p: V2|
        in_table(g.len() as int, p) && (#[trigger] g[cell(p)]) is Some ==> g[cell(p)].unwrap()
            <= count_some(g)
}

/// Every reached position has its neighbours reached, or is still open.
pub open spec fn closed_under_steps(
    map: Seq<[i32; MAPSIZE]>,
    start: V2,
    g: Seq<Option<usize>>,
    h: Multiset<Node>,
    except: Option<V2>,
) -> bool {
    forall|p: V2|
        #[trigger] reached(g, start, p) && except != Some(p) ==> is_open(h, p) || forall|q: V2|
            walkable(map, q) && adjacent(p, q) ==> #[trigger] reached(g, start, q)
}

proof fn lemma_search_ranked(
    map: Seq<[i32; MAPSIZE]>,
    start: V2,
    target: V2,
    g: Seq<Option<usize>>,
    from: Seq<Option<V2>>,
    h: Multiset<Node>,
)
    requires
        search_inv(map, start, target, g, from, h),
    ensures
        ranked(from, g),
{
    assert forall|p: V2| in_table(from.len() as int, p) && (#[trigger] from[cell(p)]) is Some implies gval(
        g,
        from[cell(p)].unwrap(),
    ) < gval(g, p) by {
        assert(g[cell(p)] is Some);
    }
}

/// The predecessor chain of a reached position runs back to the start over
/// walkable steps.
proof fn lemma_chain_walk(
    map: Seq<[i32; MAPSIZE]>,
    start: V2,
    target: V2,
    g: Seq<Option<usize>>,
    from: Seq<Option<V2>>,
    h: Multiset<Node>,
    p: V2,
)
    requires
        search_inv(map, start, target, g, from, h),
        reached(g, start, p),
    ensures
        chain(from, g, p).len() >= 1,
        chain(from, g, p)[0] == p,
        chain(from, g, p).last() == start,
        forall|i: int|
            0 <= i < chain(from, g, p).len() - 1 ==> adjacent(
                chain(from, g, p)[i + 1],
                #[trigger] chain(from, g, p)[i],
            ) && walkable(map, chain(from, g, p)[i]),
    decreases gval(g, p),
{
    let c = chain(from, g, p);
    if in_table(from.len() as int, p) && from[cell(p)] is Some {
        assert(g[cell(p)] is Some && p != start);
        let q = from[cell(p)].unwrap();
        assert(pred_of(from, g, p) == Some(q));
        lemma_chain_walk(map, start, target, g, from, h, q);
        let cq = chain(from, g, q);
        assert(c == seq![p] + cq);
        assert forall|i: int| 0 <= i < c.len() - 1 implies adjacent(c[i + 1], #[trigger] c[i])
            && walkable(map, c[i]) by {
            if i > 0 {
                assert(c[i] == cq[i - 1]);
                assert(c[i + 1] == cq[i]);
            }
        }
    } else {
        assert(pred_of(from, g, p) is None);
        assert(c == seq![p]);
        if p != start {
            assert(in_table(g.len() as int, p) && g[cell(p)] is Some);
            assert(from[cell(p)] is Some);
        }
    }
}

/// With nothing left open and the target never reached, no walk leads to
/// the target.
proof fn lemma_unreachable(
    map: Seq<[i32; MAPSIZE]>,
    start: V2,
    target: V2,
    g: Seq<Option<usize>>,
    h: Multiset<Node>,
)
    requires
        closed_under_steps(map, start, g, h, None),
        forall|p: V2| !is_open(h, p),
        !reached(g, start, target),
    ensures
        !reachable(map, start, target),
{
    if reachable(map, start, target) {
        let path = choose|path: Seq<V2>|
            #[trigger] is_path(map, path) && path[0] == start && path[path.len() - 1] == target;
        lemma_walk_reached(map, start, g, h, path, path.len() - 1);
    }
}

proof fn lemma_walk_reached(
    map: Seq<[i32; MAPSIZE]>,
    start: V2,
    g: Seq<Option<usize>>,
    h: Multiset<Node>,
    path: Seq<V2>,
    i: int,
)
    requires
        closed_under_steps(map, start, g, h, None),
        forall|p: V2| !is_open(h, p),
        is_path(map, path),
        path[0] == start,
        0 <= i < path.len(),
    ensures
        reached(g, start, path[i]),
    decreases i,
{
    if i > 0 {
        lemma_walk_reached(map, start, g, h, path, i - 1);
        assert(adjacent(path[i - 1], path[i]) && walkable(map, path[i]));
        assert(!is_open(h, path[i - 1]));
    }
}

} // verus!

verus! {

/// Which of the eight neighbours of `p` the position `q` is, numbered as the
/// search visits them: column offset first, then row offset.
pub open spec fn dir_index(p: V2, q: V2) -> int {
    (q.x - p.x + 1) * 3 + (q.y - p.y + 1)
}

proof fn lemma_cell_injective(p: V2, q: V2)
    requires
        p.x < MAPSIZE,
        q.x < MAPSIZE,
        cell(p) == cell(q),
    ensures
        p == q,
{
}

proof fn lemma_reverse_walk(map: Seq<[i32; MAPSIZE]>, c: Seq<V2>)
    requires
        c.len() >= 1,
        forall|i: int|
            0 <= i < c.len() - 1 ==> adjacent(c[i + 1], #[trigger] c[i]) && walkable(map, c[i]),
    ensures
        is_path(map, c.reverse()),
        c.reverse()[0] == c.last(),
        c.reverse().last() == c[0],
{
    let r = c.reverse();
    assert forall|i: int| 0 <= i < r.len() - 1 implies adjacent(#[trigger] r[i], r[i + 1])
        && walkable(map, r[i + 1]) by {
        let j = c.len() - 2 - i;
        assert(r[i] == c[j + 1]);
        assert(r[i + 1] == c[j]);
    }
}

proof fn lemma_closure_step(
    map: Seq<[i32; MAPSIZE]>,
    start: V2,
    gb: Seq<Option<usize>>,
    g: Seq<Option<usize>>,
    hb: Multiset<Node>,
    h: Multiset<Node>,
    position: V2,
    nb: V2,
)
    requires
        closed_under_steps(map, start, gb, hb, Some(position)),
        forall|p: V2| #[trigger]
            reached(g, start, p) ==> reached(gb, start, p) || (p == nb && is_open(h, nb)),
        forall|p: V2| reached(gb, start, p) ==> #[trigger] reached(g, start, p),
        forall|m: Node| #[trigger] hb.count(m) > 0 ==> h.count(m) > 0,
    ensures
        closed_under_steps(map, start, g, h, Some(position)),
{
    assert forall|p: V2| #[trigger] reached(g, start, p) && Some(position) != Some(p) implies is_open(
        h,
        p,
    ) || forall|q: V2| walkable(map, q) && adjacent(p, q) ==> #[trigger] reached(g, start, q) by {
        if reached(gb, start, p) {
            if is_open(hb, p) {
                let m = choose|m: Node| #[trigger] hb.count(m) > 0 && m.position == p;
                assert(h.count(m) > 0);
            } else {
                assert forall|q: V2| walkable(map, q) && adjacent(p, q) implies #[trigger] reached(
                    g,
                    start,
                    q,
                ) by {
                    assert(reached(gb, start, q));
                }
            }
        }
    }
}

proof fn lemma_dir_step(position: V2, nb: V2, d: int)
    requires
        0 <= d < 9,
        d != 4,
        nb.x == position.x + d / 3 - 1,
        nb.y == position.y + d % 3 - 1,
    ensures
        forall|q: V2| adjacent(position, q) && #[trigger] dir_index(position, q) == d ==> q == nb,
{
}

proof fn lemma_dir_none(position: V2, d: int)
    requires
        0 <= d < 9,
        d == 4 || position.x + d / 3 < 1 || position.y + d % 3 < 1,
    ensures
        forall|q: V2| adjacent(position, q) ==> #[trigger] dir_index(position, q) != d,
{
}

/// Gives `nb` the cost `gp + 1` through `position` when that is better than
/// what it had, and opens it with priority cost plus heuristic.
fn relax(
    map: &[[i32; MAPSIZE]],
    start: V2,
    target: V2,
    g: &mut Vec<Option<usize>>,
    from: &mut Vec<Option<V2>>,
    open: &mut NodeHeap,
    position: V2,
    gp: usize,
    nb: V2,
)
    requires
        map@.len() <= 0x10000,
        target.x < COORD_LIMIT,
        target.y < COORD_LIMIT,
        search_inv(map@, start, target, old(g)@, old(from)@, old(open).contents()),
        old(open).wf(),
        reached(old(g)@, start, position),
        gp == gval(old(g)@, position),
        walkable(map@, nb),
        adjacent(position, nb),
    ensures
        search_inv(map@, start, target, final(g)@, final(from)@, final(open).contents()),
        final(open).wf(),
        final(g)@.len() == old(g)@.len(),
        reached(final(g)@, start, nb),
        forall|p: V2| #[trigger]
            reached(final(g)@, start, p) ==> reached(old(g)@, start, p) || (p == nb && is_open(
                final(open).contents(),
                nb,
            )),
        forall|p: V2| reached(old(g)@, start, p) ==> #[trigger] reached(final(g)@, start, p),
        forall|m: Node| #[trigger]
            old(open).contents().count(m) > 0 ==> final(open).contents().count(m) > 0,
        gval(final(g)@, position) == gval(old(g)@, position),
        sum_pot(old(g)@.len() as nat, final(g)@) + final(open).contents().len() <= sum_pot(
            old(g)@.len() as nat,
            old(g)@,
        ) + old(open).contents().len(),
{
    let ghost g0 = g@;
    let ghost f0 = from@;
    let ghost h0 = open.contents();
    let ghost n = g@.len();
    assert(n / 256 == map@.len());
    assert(in_table(n as int, nb));
    proof {
        lemma_cell(n as int, nb);
        lemma_count_some_le(g0);
        if in_table(n as int, position) && g0[cell(position)] is Some {
            assert(g0[cell(position)].unwrap() <= count_some(g0));
        }
    }
    let idx = nb.y * MAPSIZE + nb.x;
    assert(idx == cell(nb));
    let t = gp + 1;
    let better = match g[idx] {
        None => true,
        Some(v) => t < v,
    };
    if !better {
        return;
    }
    assert(nb != start);
    from.set(idx, Some(position));
    g.set(idx, Some(t));
    let h = heuristic(nb, target);
    let node = Node { position: nb, cost: t + h };
    open.push(node);
    proof {
        let g1 = g@;
        let f1 = from@;
        let h1 = open.contents();
        lemma_sum_pot_update(n as nat, g0, cell(nb), Some(t));
        lemma_count_some_le(g1);
        assert(h1.count(node) > 0);
        assert(is_open(h1, nb));
        assert forall|p: V2| reached(g0, start, p) implies #[trigger] reached(g1, start, p) by {
            if p != start {
                if cell(p) == cell(nb) {
                    lemma_cell_injective(p, nb);
                }
            }
        }
        assert forall|p: V2| #[trigger] reached(g1, start, p) implies reached(g0, start, p) || (p
            == nb && is_open(h1, nb)) by {
            if p != start && cell(p) == cell(nb) {
                lemma_cell_injective(p, nb);
            }
        }
        if in_table(n as int, position) {
            if cell(position) == cell(nb) {
                lemma_cell_injective(position, nb);
            }
        }
        assert(gval(g1, position) == gval(g0, position));
        assert forall|p: V2| in_table(n as int, p) && g0[cell(p)] is Some implies gval(g1, p) <= gval(
            g0,
            p,
        ) by {
            if cell(p) == cell(nb) {
                lemma_cell_injective(p, nb);
            }
        }
        // the cost-so-far table
        assert forall|p: V2|
            in_table(g1.len() as int, p) && (#[trigger] g1[cell(p)]) is Some && p != start implies {
            &&& walkable(map@, p)
            &&& f1[cell(p)] is Some
            &&& reached(g1, start, f1[cell(p)].unwrap())
            &&& adjacent(f1[cell(p)].unwrap(), p)
            &&& gval(g1, f1[cell(p)].unwrap()) < gval(g1, p)
        } by {
            if cell(p) == cell(nb) {
                lemma_cell_injective(p, nb);
            } else {
                assert(g0[cell(p)] is Some);
                let q = f0[cell(p)].unwrap();
                assert(reached(g0, start, q));
                if in_table(n as int, q) && q != start {
                    assert(gval(g1, q) <= gval(g0, q));
                }
                if q == start && in_table(n as int, start) {
                    assert(g0[cell(start)] is Some);
                    assert(gval(g1, q) <= gval(g0, q));
                }
            }
        }
        assert forall|p: V2| in_table(g1.len() as int, p) && (#[trigger] f1[cell(p)]) is Some implies g1[cell(
        p)] is Some && p != start by {
            if cell(p) == cell(nb) {
                lemma_cell_injective(p, nb);
            } else {
                assert(f0[cell(p)] is Some);
            }
        }
        assert forall|m: Node| #[trigger] h1.count(m) > 0 implies reached(g1, start, m.position) by {
            if m != node {
                assert(h0.count(m) > 0);
                assert(reached(g0, start, m.position));
            }
        }
        if reached(g1, start, target) {
            if target != nb {
                assert(reached(g0, start, target));
                assert(is_open(h0, target));
                let m = choose|m: Node| #[trigger] h0.count(m) > 0 && m.position == target;
                assert(h1.count(m) > 0);
            }
        }
        assert forall|p: V2| in_table(g1.len() as int, p) && (#[trigger] g1[cell(p)]) is Some implies g1[cell(
        p)].unwrap() <= count_some(g1) by {
            if cell(p) != cell(nb) {
                assert(g0[cell(p)] is Some);
                assert(g0[cell(p)].unwrap() <= count_some(g0));
            }
        }
        if in_table(n as int, start) {
            if cell(start) == cell(nb) {
                lemma_cell_injective(start, nb);
            }
        }
    }
}

/// Along a predecessor chain the cost-so-far falls strictly, so no
/// position repeats.
proof fn lemma_chain_distinct(from: Seq<Option<V2>>, g: Seq<Option<usize>>, p: V2)
    requires
        ranked(from, g),
    ensures
        forall|i: int| 0 <= i < chain(from, g, p).len() ==> gval(g, #[trigger] chain(from, g, p)[i])
            <= gval(g, p),
        forall|i: int, j: int|
            0 <= i < j < chain(from, g, p).len() ==> gval(g, #[trigger] chain(from, g, p)[j]) < gval(
                g,
                #[trigger] chain(from, g, p)[i],
            ),
        chain(from, g, p).no_duplicates(),
    decreases gval(g, p),
{
    let c = chain(from, g, p);
    match pred_of(from, g, p) {
        Some(q) => {
            lemma_chain_distinct(from, g, q);
            let cq = chain(from, g, q);
            assert(c == seq![p] + cq);
            assert(gval(g, q) < gval(g, p));
            assert forall|i: int| 0 <= i < c.len() implies gval(g, #[trigger] c[i]) <= gval(g, p) by {
                if i > 0 {
                    assert(c[i] == cq[i - 1]);
                }
            }
            assert forall|i: int, j: int| 0 <= i < j < c.len() implies gval(g, #[trigger] c[j]) < gval(
                g,
                #[trigger] c[i],
            ) by {
                assert(c[j] == cq[j - 1]);
                if i > 0 {
                    assert(c[i] == cq[i - 1]);
                } else {
                    assert(cq[0] == q);
                    assert(gval(g, cq[j - 1]) <= gval(g, q));
                }
            }
            assert forall|i: int, j: int| 0 <= i < c.len() && 0 <= j < c.len() && i != j implies c[i]
                != c[j] by {
                if i < j {
                    assert(gval(g, c[j]) < gval(g, c[i]));
                } else {
                    assert(gval(g, c[i]) < gval(g, c[j]));
                }
            }
        },
        None => {
            assert(c == seq![p]);
        },
    }
}

proof fn lemma_reverse_distinct(c: Seq<V2>)
    requires
        c.no_duplicates(),
    ensures
        c.reverse().no_duplicates(),
{
    let r = c.reverse();
    assert forall|i: int, j: int| 0 <= i < r.len() && 0 <= j < r.len() && i != j implies r[i] != r[j] by {
        assert(r[i] == c[c.len() - 1 - i]);
        assert(r[j] == c[c.len() - 1 - j]);
    }
}

/// Searches the grid for a walk from `start` to `target`, opening the
/// cheapest position first by cost-so-far plus Manhattan distance. Returns
/// the walk found, from `start` to `target`, or an empty vector when no walk
/// exists.
#[verifier::rlimit(60)]
pub fn a_star(map: &[[i32; MAPSIZE]], start: V2, target: V2) -> (r: Vec<V2>)
    requires
        map@.len() <= 0x10000,
        start.x < COORD_LIMIT,
        start.y < COORD_LIMIT,
        target.x < COORD_LIMIT,
        target.y < COORD_LIMIT,
    ensures
        r@.len() == 0 <==> !reachable(map@, start, target),
        r@.len() > 0 ==> is_path(map@, r@) && r@[0] == start && r@.last() == target,
        r@.no_duplicates(),
        start == target ==> r@ == seq![start],
{
    if start == target {
        let r = vec![start];
        assert(is_path(map@, r@));
        return r;
    }
    let rows = map.len();
    let n = rows * MAPSIZE;
    let mut g: Vec<Option<usize>> = Vec::new();
    let mut from: Vec<Option<V2>> = Vec::new();
    let mut k: usize = 0;
    while k < n
        invariant
            k <= n,
            g@.len() == k,
            from@.len() == k,
            forall|i: int| 0 <= i < k ==> #[trigger] g@[i] is None,
            forall|i: int| 0 <= i < k ==> #[trigger] from@[i] is None,
        decreases n - k,
    {
        g.push(None);
        from.push(None);
        k = k + 1;
    }
    assert(n / 256 == rows);
    if start.x < MAPSIZE && start.y < rows {
        proof {
            lemma_cell(n as int, start);
        }
        g.set(start.y * MAPSIZE + start.x, Some(0));
    }
    let mut open = NodeHeap::new();
    let start_node = Node { position: start, cost: 0 };
    open.push(start_node);
    proof {
        let h = open.contents();
        let g1 = g@;
        let f1 = from@;
        assert(h.count(start_node) > 0);
        assert(is_open(h, start));
        assert forall|p: V2| in_table(n as int, p) && (#[trigger] g1[cell(p)]) is Some implies p
            == start by {
            lemma_cell(n as int, p);
            if in_table(n as int, start) {
                lemma_cell(n as int, start);
                if cell(p) == cell(start) {
                    lemma_cell_injective(p, start);
                }
            }
        }
        assert forall|p: V2| in_table(n as int, p) implies (#[trigger] f1[cell(p)]) is None by {
            lemma_cell(n as int, p);
        }
        assert forall|m: Node| #[trigger] h.count(m) > 0 implies m == start_node by {}
        let none_seq = Seq::new(n as nat, |i: int| None::<usize>);
        if in_table(n as int, start) {
            lemma_cell(n as int, start);
            assert(g1 =~= none_seq.update(cell(start), Some(0usize)));
            lemma_sum_pot_update(n as nat, none_seq, cell(start), Some(0usize));
            assert(g1[cell(start)] == Some(0usize));
        }
        assert forall|p: V2| in_table(g1.len() as int, p) && (#[trigger] g1[cell(p)]) is Some implies g1[cell(
        p)].unwrap() <= count_some(g1) by {
            assert(p == start);
        }
        assert(search_inv(map@, start, target, g1, f1, h));
        assert forall|p: V2| #[trigger] reached(g1, start, p) && None::<V2> != Some(p) implies is_open(
            h,
            p,
        ) || forall|q: V2| walkable(map@, q) && adjacent(p, q) ==> #[trigger] reached(g1, start, q) by {
            assert(p == start);
        }
    }
    loop
        invariant
            n == g@.len(),
            rows == map@.len(),
            n == map@.len() * MAPSIZE,
            map@.len() <= 0x10000,
            target.x < COORD_LIMIT,
            target.y < COORD_LIMIT,
            search_inv(map@, start, target, g@, from@, open.contents()),
            open.wf(),
            closed_under_steps(map@, start, g@, open.contents(), None),
        decreases sum_pot(n as nat, g@) + open.contents().len(),
    {
        let ghost m0 = sum_pot(n as nat, g@) + open.contents().len();
        let ghost h0 = open.contents();
        let popped = open.pop();
        let node = match popped {
            None => {
                proof {
                    assert forall|p: V2| !is_open(h0, p) by {
                        if is_open(h0, p) {
                            let m = choose|m: Node| #[trigger] h0.count(m) > 0 && m.position == p;
                            assert(h0.len() > 0);
                        }
                    }
                    lemma_unreachable(map@, start, target, g@, h0);
                }
                return Vec::new();
            },
            Some(nd) => nd,
        };
        let position = node.position;
        assert(reached(g@, start, position));
        if position == target {
            proof {
                lemma_search_ranked(map@, start, target, g@, from@, h0);
                lemma_chain_walk(map@, start, target, g@, from@, h0, target);
                lemma_reverse_walk(map@, chain(from@, g@, target));
            }
            let r = reconstruct_path(&from, &g, target);
            proof {
                lemma_chain_distinct(from@, g@, target);
                lemma_reverse_distinct(chain(from@, g@, target));
            }
            assert(is_path(map@, r@) && r@[0] == start && r@[r@.len() - 1] == target);
            return r;
        }
        proof {
            let h1 = open.contents();
            assert forall|p: V2| #[trigger] reached(g@, start, p) && Some(position) != Some(p) implies is_open(
                h1,
                p,
            ) || forall|q: V2| walkable(map@, q) && adjacent(p, q) ==> #[trigger] reached(
                g@,
                start,
                q,
            ) by {
                if is_open(h0, p) {
                    let m = choose|m: Node| #[trigger] h0.count(m) > 0 && m.position == p;
                    assert(m != node);
                    assert(h1.count(m) > 0);
                }
            }
            if in_table(n as int, position) {
                lemma_cell(n as int, position);
            }
            if reached(g@, start, target) {
                assert(is_open(h0, target));
                let m = choose|m: Node| #[trigger] h0.count(m) > 0 && m.position == target;
                assert(m != node);
                assert(h1.count(m) > 0);
            }
            assert forall|m: Node| #[trigger] h1.count(m) > 0 implies reached(g@, start, m.position) by {
                assert(h0.count(m) > 0);
            }
        }
        assert(n as int / 256 == rows);
        let gp: usize = if position.x < MAPSIZE && position.y < rows {
            match g[position.y * MAPSIZE + position.x] {
                Some(v) => v,
                None => 0,
            }
        } else {
            0
        };
        let mut d: usize = 0;
        while d < 9
            invariant
                0 <= d <= 9,
                n == g@.len(),
                n == map@.len() * MAPSIZE,
                map@.len() <= 0x10000,
                target.x < COORD_LIMIT,
                target.y < COORD_LIMIT,
                search_inv(map@, start, target, g@, from@, open.contents()),
                open.wf(),
                reached(g@, start, position),
                position != target,
                gp == gval(g@, position),
                closed_under_steps(map@, start, g@, open.contents(), Some(position)),
                forall|q: V2|
                    walkable(map@, q) && adjacent(position, q) && dir_index(position, q) < d
                        ==> #[trigger] reached(g@, start, q),
                sum_pot(n as nat, g@) + open.contents().len() < m0,
            decreases 9 - d,
        {
            if d != 4 {
                let dx = d / 3;
                let dy = d % 3;
                if position.x + dx >= 1 && position.y + dy >= 1 {
                    let nb = V2 { x: position.x + dx - 1, y: position.y + dy - 1 };
                    proof {
                        lemma_dir_step(position, nb, d as int);
                    }
                    if is_valid_position(map, nb) {
                        let ghost gb = g@;
                        let ghost hb = open.contents();
                        relax(map, start, target, &mut g, &mut from, &mut open, position, gp, nb);
                        proof {
                            lemma_closure_step(map@, start, gb, g@, hb, open.contents(), position, nb);
                            assert forall|q: V2|
                                walkable(map@, q) && adjacent(position, q) && dir_index(position, q)
                                    < d + 1 implies #[trigger] reached(g@, start, q) by {
                                if dir_index(position, q) < d {
                                    assert(reached(gb, start, q));
                                }
                            }
                        }
                    }
                } else {
                    proof {
                        lemma_dir_none(position, d as int);
                    }
                }
            } else {
                proof {
                    lemma_dir_none(position, d as int);
                }
            }
            d = d + 1;
        }
        proof {
            assert forall|p: V2| #[trigger] reached(g@, start, p) && None::<V2> != Some(p) implies is_open(
                open.contents(),
                p,
            ) || forall|q: V2| walkable(map@, q) && adjacent(p, q) ==> #[trigger] reached(
                g@,
                start,
                q,
            ) by {
                if p == position {
                    assert forall|q: V2| walkable(map@, q) && adjacent(p, q) implies #[trigger] reached(
                        g@,
                        start,
                        q,
                    ) by {
                        assert(dir_index(position, q) < 9);
                    }
                }
            }
        }
    }
}

} // verus!

verus! {

use crate::map::Biome;

/// The direction class of a unit step from `p` to `q`, standing for the
/// slope `dy / dx` that it has as a float: its sign (0, 1 or -1) for a
/// step with a horizontal part, and 2 or -2 (the infinities) for a vertical
/// step.
pub open spec fn slope_class(p: V2, q: V2) -> int {
    let dx = q.x - p.x;
    let dy = q.y - p.y;
    if dx == 0 {
        if dy > 0 {
            2
        } else {
            -2
        }
    } else if dy == 0 {
        0
    } else if (dx > 0) == (dy > 0) {
        1
    } else {
        -1
    }
}

/// The path bends at its `i`-th position.
pub open spec fn bends_at(path: Seq<V2>, i: int) -> bool {
    slope_class(path[i - 1], path[i]) != slope_class(path[i], path[i + 1])
}

/// The bending positions among the positions 1 to `k - 1` of the path.
pub open spec fn bends_before(path: Seq<V2>, k: int) -> Seq<V2>
    decreases k,
{
    if k <= 1 {
        Seq::empty()
    } else {
        bends_before(path, k - 1) + if bends_at(path, k - 1) {
            seq![path[k - 1]]
        } else {
            Seq::empty()
        }
    }
}

/// The pivot points of a path: the positions where it changes direction,
/// then its last position; a path of fewer than three positions is its own
/// pivot list.
pub open spec fn pivots(path: Seq<V2>) -> Seq<V2> {
    if path.len() < 3 {
        path
    } else {
        bends_before(path, path.len() - 1).push(path.last())
    }
}

/// Every step of the sequence goes to an adjacent position.
pub open spec fn unit_steps(path: Seq<V2>) -> bool {
    forall|i: int| 0 <= i < path.len() - 1 ==> adjacent(#[trigger] path[i], path[i + 1])
}

fn slope_of(p: V2, q: V2) -> (r: i8)
    requires
        adjacent(p, q),
    ensures
        r == slope_class(p, q),
{
    if q.x == p.x {
        if q.y > p.y {
            2
        } else {
            -2
        }
    } else {
        let dx: i8 = if q.x > p.x {
            1
        } else {
            -1
        };
        let dy: i8 = if q.y > p.y {
            1
        } else if q.y < p.y {
            -1
        } else {
            0
        };
        if dy == 0 {
            0
        } else if dx == dy {
            1
        } else {
            -1
        }
    }
}

/// The positions of a walk where its direction changes, followed by its
/// last position. Directions are compared as the float slopes `dy / dx` of
/// the steps would be, which for unit steps is what `slope_class` gives.
pub fn find_pivot_points(path: Vec<V2>) -> (r: Vec<V2>)
    requires
        unit_steps(path@),
    ensures
        r@ == pivots(path@),
{
    let len = path.len();
    if len < 3 {
        return path;
    }
    let mut pivots_found: Vec<V2> = Vec::new();
    let mut i: usize = 1;
    while i < len - 1
        invariant
            len == path@.len(),
            len >= 3,
            unit_steps(path@),
            1 <= i <= len - 1,
            pivots_found@ == bends_before(path@, i as int),
        decreases len - 1 - i,
    {
        assert(adjacent(path@[i - 1], path@[i as int]));
        assert(adjacent(path@[i as int], path@[i + 1]));
        let prev_slope = slope_of(path[i - 1], path[i]);
        let next_slope = slope_of(path[i], path[i + 1]);
        if prev_slope != next_slope {
            pivots_found.push(path[i]);
        }
        proof {
            assert(bends_before(path@, i + 1) == bends_before(path@, i as int) + if bends_at(
                path@,
                i as int,
            ) {
                seq![path@[i as int]]
            } else {
                Seq::empty()
            });
            if !bends_at(path@, i as int) {
                assert(bends_before(path@, i + 1) =~= bends_before(path@, i as int));
            }
        }
        i = i + 1;
    }
    pivots_found.push(path[len - 1]);
    pivots_found
}

/// `u` is the search grid of the biome map: 1 on walls, 0 elsewhere.
pub open spec fn wall_grid(map: [[Biome; MAPSIZE]; MAPSIZE], u: Seq<[i32; MAPSIZE]>) -> bool {
    &&& u.len() == MAPSIZE
    &&& forall|x: int, y: int|
        0 <= x < MAPSIZE && 0 <= y < MAPSIZE ==> #[trigger] u[x]@[y] == if map@[x]@[y]
            == Biome::Wall {
            1i32
        } else {
            0i32
        }
}

/// The waypoint that a walk leads to next: its second pivot point, or the
/// target itself when the walk has fewer than two.
pub open spec fn next_waypoint(path: Seq<V2>, target: V2) -> V2 {
    if pivots(path).len() > 1 {
        pivots(path)[1]
    } else {
        target
    }
}

/// The next tile an enemy at `start` heads for on its way to `target`: the
/// first bend (or the end) of the repeat-free walk that the search finds
/// over the non-wall tiles, or `target` itself when no walk exists or when
/// `start` is `target`.
pub fn find_next(map: &[[Biome; MAPSIZE]; MAPSIZE], start: V2, target: V2) -> (r: V2)
    requires
        start.x < COORD_LIMIT,
        start.y < COORD_LIMIT,
        target.x < COORD_LIMIT,
        target.y < COORD_LIMIT,
    ensures
        exists|u: Seq<[i32; MAPSIZE]>, path: Seq<V2>|
            #![trigger wall_grid(*map, u), next_waypoint(path, target)]
            {
                &&& wall_grid(*map, u)
                &&& (path.len() == 0 <==> !reachable(u, start, target))
                &&& path.len() > 0 ==> is_path(u, path) && path[0] == start && path.last()
                    == target
                &&& path.no_duplicates()
                &&& r == next_waypoint(path, target)
            },
        start == target ==> r == target,
{
    let mut u_map = [[0i32; MAPSIZE]; MAPSIZE];
    let mut x: usize = 0;
    while x < MAPSIZE
        invariant
            0 <= x <= MAPSIZE,
            u_map@.len() == MAPSIZE,
            forall|i: int, y: int|
                0 <= i < x && 0 <= y < MAPSIZE ==> #[trigger] u_map@[i]@[y] == if map@[i]@[y]
                    == Biome::Wall {
                    1i32
                } else {
                    0i32
                },
        decreases MAPSIZE - x,
    {
        let mut row = [0i32; MAPSIZE];
        let mut y: usize = 0;
        while y < MAPSIZE
            invariant
                0 <= x < MAPSIZE,
                0 <= y <= MAPSIZE,
                row@.len() == MAPSIZE,
                forall|j: int|
                    0 <= j < y ==> #[trigger] row@[j] == if map@[x as int]@[j] == Biome::Wall {
                        1i32
                    } else {
                        0i32
                    },
            decreases MAPSIZE - y,
        {
            row[y] = match map[x][y] {
                Biome::Wall => 1,
                _ => 0,
            };
            y = y + 1;
        }
        u_map[x] = row;
        x = x + 1;
    }
    let grid = u_map.as_slice();
    assert(wall_grid(*map, grid@));
    let path = a_star(grid, start, target);
    let ghost path_seq = path@;
    proof {
        if path@.len() > 0 {
            assert(is_path(grid@, path@));
            assert forall|i: int| 0 <= i < path@.len() - 1 implies adjacent(
                #[trigger] path@[i],
                path@[i + 1],
            ) by {
                assert(adjacent(path@[i], path@[i + 1]) && walkable(grid@, path@[i + 1]));
            }
        }
    }
    let pivots_found = find_pivot_points(path);
    let go_to = if pivots_found.len() > 1 {
        pivots_found[1]
    } else {
        target
    };
    assert(go_to == next_waypoint(path_seq, target));
    proof {
        if start == target {
            assert(path_seq =~= seq![start]);
            assert(pivots(path_seq) == path_seq);
        }
    }
    go_to
}

} // verus!
