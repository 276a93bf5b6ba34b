//! The tile map: biomes, dimensions, and the grid operations of map
//! generation and of looking tiles up.

use vstd::prelude::*;
use crate::rng::{
    chacha8_first_below, chacha8_first_u64, chacha8_gen_first_below, chacha8_gen_first_u64,
    chacha8_shuffle_coords, chacha8_shuffled,
};

verus! {

/// Side of the square map, in tiles.
pub const MAPSIZE: usize = 256;
/// Side of a tile, in pixels.
pub const TILESIZE: usize = 16;
/// Width of the paths, in tiles.
pub const PATHWIDTH: usize = 5;
/// Size of a camp, in tiles.
pub const CAMPSIZE: usize = 17;
/// Upper bound (exclusive) on the number of egg shapes drawn around a camp.
pub const MAXEGGS: usize = 5;
/// Default number of camps.
pub const NUMCAMPS: usize = 10;
/// Number of extra nodes added to the path graph.
pub const EXTRANODES: usize = 20;
/// Number of extra edges added to the path graph.
pub const EXTRAPATHS: usize = 2;

/// The kind of terrain of a tile.
#[derive(Clone, Copy, PartialEq, Eq, Structural, Debug)]
pub enum Biome {
    Free,
    Wall,
    Ground,
    Camp,
    Path,
}

} // verus!

verus! {

/// The biome at (`row`, `col`); everything off the map counts as wall.
pub open spec fn biome_at(map: [[Biome; MAPSIZE]; MAPSIZE], row: int, col: int) -> Biome {
    if 0 <= row < MAPSIZE && 0 <= col < MAPSIZE {
        map@[row]@[col]
    } else {
        Biome::Wall
    }
}

/// The biome at (`row`, `col`), or `Wall` off the map.
pub fn get_biome_from_map(row: isize, col: isize, map: &[[Biome; MAPSIZE]; MAPSIZE]) -> (r: Biome)
    ensures
        r == biome_at(*map, row as int, col as int),
{
    if row < 0 || col < 0 || row >= MAPSIZE as isize || col >= MAPSIZE as isize {
        Biome::Wall
    } else {
        map[row as usize][col as usize]
    }
}

/// The 3x3 block of biomes centred on the tile (`row`, `col`), walls off the map.
pub fn get_surrounding_tiles(row: isize, col: isize, map: &[[Biome; MAPSIZE]; MAPSIZE]) -> (r: [[Biome;
    3]; 3])
    requires
        isize::MIN < row <= isize::MAX - 2,
        isize::MIN < col <= isize::MAX - 2,
    ensures
        forall|i: int, j: int|
            0 <= i < 3 && 0 <= j < 3 ==> #[trigger] r@[i]@[j] == biome_at(
                *map,
                row + i - 1,
                col + j - 1,
            ),
{
    let mut ret = [[Biome::Wall; 3]; 3];
    let mut i: usize = 0;
    while i < 3
        invariant
            0 <= i <= 3,
            ret@.len() == 3,
            isize::MIN < row <= isize::MAX - 2,
            isize::MIN < col <= isize::MAX - 2,
            forall|a: int, b: int|
                0 <= a < i && 0 <= b < 3 ==> #[trigger] ret@[a]@[b] == biome_at(
                    *map,
                    row + a - 1,
                    col + b - 1,
                ),
        decreases 3 - i,
    {
        let mut line = [Biome::Wall; 3];
        let mut j: usize = 0;
        while j < 3
            invariant
                0 <= i < 3,
                0 <= j <= 3,
                line@.len() == 3,
                isize::MIN < row <= isize::MAX - 2,
                isize::MIN < col <= isize::MAX - 2,
                forall|b: int|
                    0 <= b < j ==> #[trigger] line@[b] == biome_at(
                        *map,
                        row + i - 1,
                        col + b - 1,
                    ),
            decreases 3 - j,
        {
            line[j] = get_biome_from_map(row + i as isize - 1, col + j as isize - 1, map);
            j = j + 1;
        }
        ret[i] = line;
        i = i + 1;
    }
    ret
}

/// The tile at (`row`, `col`), with each coordinate clamped onto the map.
pub fn get_tile_at_pos(row: usize, col: usize, map: &[[Biome; MAPSIZE]; MAPSIZE]) -> (r: Biome)
    ensures
        r == map@[if row < MAPSIZE {
            row as int
        } else {
            MAPSIZE - 1
        }]@[if col < MAPSIZE {
            col as int
        } else {
            MAPSIZE - 1
        }],
{
    let r = if row < MAPSIZE {
        row
    } else {
        MAPSIZE - 1
    };
    let c = if col < MAPSIZE {
        col
    } else {
        MAPSIZE - 1
    };
    map[r][c]
}

/// How a ground tile is coloured.
#[derive(Clone, Copy, PartialEq, Eq, Structural, Debug)]
pub enum TileColor {
    /// The plain ground colour.
    Ground,
    /// The average of the ground and path colours, for ground next to a path.
    GroundPathBlend,
}

/// The colour of the ground tile at `map[x][y]`: blended with the path colour
/// when one of the four tiles that share an edge with it is a path.
pub fn tile_blend_color(x: usize, y: usize, map: &[[Biome; MAPSIZE]; MAPSIZE]) -> (r: TileColor)
    requires
        1 <= x < MAPSIZE - 1,
        1 <= y < MAPSIZE - 1,
    ensures
        r == if map@[x as int]@[y - 1] == Biome::Path || map@[x as int]@[y + 1] == Biome::Path
            || map@[x - 1]@[y as int] == Biome::Path || map@[x + 1]@[y as int] == Biome::Path {
            TileColor::GroundPathBlend
        } else {
            TileColor::Ground
        },
{
    let around = [(x, y - 1), (x, y + 1), (x - 1, y), (x + 1, y)];
    let mut k: usize = 0;
    while k < 4
        invariant
            0 <= k <= 4,
            around@ == seq![(x, (y - 1) as usize), (x, (y + 1) as usize), ((x - 1) as usize, y), ((x + 1) as usize, y)],
            forall|j: int| 0 <= j < k ==> #[trigger] map@[around@[j].0 as int]@[around@[j].1 as int] != Biome::Path,
            1 <= x < MAPSIZE - 1,
            1 <= y < MAPSIZE - 1,
        decreases 4 - k,
    {
        let (tx, ty) = around[k];
        if map[tx][ty] == Biome::Path {
            return TileColor::GroundPathBlend;
        }
        k = k + 1;
    }
    proof {
        assert(map@[around@[0].0 as int]@[around@[0].1 as int] != Biome::Path);
        assert(map@[around@[1].0 as int]@[around@[1].1 as int] != Biome::Path);
        assert(map@[around@[2].0 as int]@[around@[2].1 as int] != Biome::Path);
        assert(map@[around@[3].0 as int]@[around@[3].1 as int] != Biome::Path);
    }
    TileColor::Ground
}

} // verus!

verus! {

/// Squared distance between two tile positions.
pub open spec fn dist2(a: (usize, usize), b: (usize, usize)) -> int {
    (a.0 - b.0) * (a.0 - b.0) + (a.1 - b.1) * (a.1 - b.1)
}

/// `c` is more than 10 tiles away from every position of `kept`.
pub open spec fn far_from_all(c: (usize, usize), kept: Seq<(usize, usize)>) -> bool {
    forall|i: int| 0 <= i < kept.len() ==> dist2(c, #[trigger] kept[i]) > 100
}

/// The positions that survive thinning: each in turn is kept when it is
/// more than 10 tiles away from all those kept before it.
pub open spec fn thinned(s: Seq<(usize, usize)>) -> Seq<(usize, usize)>
    decreases s.len(),
{
    if s.len() == 0 {
        Seq::empty()
    } else {
        let kept = thinned(s.drop_last());
        if far_from_all(s.last(), kept) {
            kept.push(s.last())
        } else {
            kept
        }
    }
}

/// Removes the positions that lie within 10 tiles of a position kept before
/// them, keeping the order of the others.
pub fn simplify_coordinates(coordinates: &mut Vec<(usize, usize)>)
    ensures
        final(coordinates)@ == thinned(old(coordinates)@),
{
    let mut simplified: Vec<(usize, usize)> = Vec::new();
    let mut i: usize = 0;
    let n = coordinates.len();
    while i < n
        invariant
            n == coordinates@.len(),
            0 <= i <= n,
            simplified@ == thinned(coordinates@.take(i as int)),
        decreases n - i,
    {
        let c = coordinates[i];
        let mut far = true;
        let mut k: usize = 0;
        while k < simplified.len()
            invariant
                0 <= k <= simplified@.len(),
                far == forall|j: int| 0 <= j < k ==> dist2(c, #[trigger] simplified@[j]) > 100,
            decreases simplified@.len() - k,
        {
            let s = simplified[k];
            let dx: usize = if c.0 >= s.0 {
                c.0 - s.0
            } else {
                s.0 - c.0
            };
            let dy: usize = if c.1 >= s.1 {
                c.1 - s.1
            } else {
                s.1 - c.1
            };
            proof {
                lemma_gap_square(dx as int, dy as int, c.0 - s.0, c.1 - s.1);
            }
            if dx <= 10 && dy <= 10 {
                assert(dx * dx <= 100 && dy * dy <= 100) by (nonlinear_arith)
                    requires
                        dx <= 10,
                        dy <= 10,
                ;
                if dx * dx + dy * dy <= 100 {
                    far = false;
                }
            }
            k = k + 1;
        }
        proof {
            assert(coordinates@.take(i + 1).drop_last() =~= coordinates@.take(i as int));
            assert(coordinates@.take(i + 1).last() == c);
        }
        if far {
            simplified.push(c);
        }
        i = i + 1;
    }
    assert(coordinates@.take(n as int) =~= coordinates@);
    *coordinates = simplified;
}

/// The squared distance from the gaps along each axis: a gap above 10 alone
/// puts two positions more than 10 tiles apart.
proof fn lemma_gap_square(dx: int, dy: int, ex: int, ey: int)
    requires
        dx == ex || dx == -ex,
        dy == ey || dy == -ey,
        dx >= 0,
        dy >= 0,
    ensures
        ex * ex + ey * ey == dx * dx + dy * dy,
        dx > 10 || dy > 10 ==> ex * ex + ey * ey > 100,
{
    assert(ex * ex == dx * dx) by (nonlinear_arith)
        requires
            dx == ex || dx == -ex,
    ;
    assert(ey * ey == dy * dy) by (nonlinear_arith)
        requires
            dy == ey || dy == -ey,
    ;
    assert(dx > 10 ==> dx * dx > 100) by (nonlinear_arith);
    assert(dy > 10 ==> dy * dy > 100) by (nonlinear_arith);
    assert(dx * dx >= 0 && dy * dy >= 0) by (nonlinear_arith);
}

/// The first `num_camps` of `s`, or all of it when it is shorter.
pub open spec fn first_camps(s: Seq<(usize, usize)>, num_camps: u8) -> Seq<(usize, usize)> {
    if s.len() > num_camps {
        s.take(num_camps as int)
    } else {
        s
    }
}

/// The first `num_camps` of `shuffled`, or all of it when it is shorter.
pub fn truncate_camps(shuffled: &mut Vec<(usize, usize)>, num_camps: u8)
    ensures
        final(shuffled)@ == first_camps(old(shuffled)@, num_camps),
{
    if shuffled.len() > num_camps as usize {
        shuffled.truncate(num_camps as usize);
    }
}

/// The camp sites among the candidate tiles: the candidates are thinned,
/// shuffled with a generator seeded by the map seed, and the first
/// `num_camps` are kept. The shuffled order is fixed by the seed and the
/// thinned candidates, and holds each of them once.
pub fn select_camp_nodes(nodes: &mut Vec<(usize, usize)>, seed: u64, num_camps: u8)
    ensures
        final(nodes)@ == first_camps(chacha8_shuffled(seed, thinned(old(nodes)@)), num_camps),
        chacha8_shuffled(seed, thinned(old(nodes)@)).to_multiset() == thinned(
            old(nodes)@,
        ).to_multiset(),
{
    simplify_coordinates(nodes);
    chacha8_shuffle_coords(seed, nodes);
    truncate_camps(nodes, num_camps);
}

/// Extra graph nodes: `EXTRANODES` tile positions. Each coordinate is the
/// first draw below `MAPSIZE` of a generator freshly seeded by the map seed,
/// so every coordinate of every node is that one value `v`, taken once here:
/// every node is `(v, v)`.
pub fn extra_nodes(seed: u64) -> (r: Vec<(usize, usize)>)
    ensures
        r@.len() == EXTRANODES,
        r@[0].0 == chacha8_first_below(seed, MAPSIZE as u64),
        r@[0].0 < MAPSIZE,
        forall|k: int| 0 <= k < EXTRANODES ==> #[trigger] r@[k] == (r@[0].0, r@[0].0),
{
    let v = chacha8_gen_first_below(seed, MAPSIZE as u64) as usize;
    let mut r: Vec<(usize, usize)> = Vec::new();
    let mut k: usize = 0;
    while k < EXTRANODES
        invariant
            k <= EXTRANODES,
            v < MAPSIZE,
            v == chacha8_first_below(seed, MAPSIZE as u64),
            r@.len() == k,
            forall|j: int| 0 <= j < k ==> #[trigger] r@[j] == (v, v),
        decreases EXTRANODES - k,
    {
        r.push((v, v));
        k = k + 1;
    }
    r
}

/// The index of the graph node at each end of an extra path: the first draw
/// below `num_nodes` of a generator freshly seeded by the map seed.
pub fn extra_path_end(seed: u64, num_nodes: usize) -> (r: usize)
    requires
        0 < num_nodes,
    ensures
        r == chacha8_first_below(seed, num_nodes as u64),
        r < num_nodes,
{
    chacha8_gen_first_below(seed, num_nodes as u64) as usize
}

/// The seed of the Perlin noise of the map: the first `u64` of a generator
/// seeded by the map seed.
pub fn perlin_seed(seed: u64) -> (r: u64)
    ensures
        r == chacha8_first_u64(seed),
{
    chacha8_gen_first_u64(seed)
}

/// The positions that thinning keeps are pairwise more than 10 tiles apart.
pub proof fn law_thinned_spread(s: Seq<(usize, usize)>)
    ensures
        forall|i: int, j: int|
            0 <= i < j < thinned(s).len() ==> dist2(
                #[trigger] thinned(s)[i],
                #[trigger] thinned(s)[j],
            ) > 100,
    decreases s.len(),
{
    if s.len() > 0 {
        law_thinned_spread(s.drop_last());
        let kept = thinned(s.drop_last());
        if far_from_all(s.last(), kept) {
            let t = kept.push(s.last());
            assert forall|i: int, j: int| 0 <= i < j < t.len() implies dist2(
                #[trigger] t[i],
                #[trigger] t[j],
            ) > 100 by {
                if j == t.len() - 1 {
                    assert(dist2(s.last(), kept[i]) > 100);
                    assert(dist2(t[i], t[j]) == dist2(s.last(), kept[i])) by (nonlinear_arith)
                        requires
                            t[i] == kept[i],
                            t[j] == s.last(),
                    ;
                } else {
                    assert(t[i] == kept[i] && t[j] == kept[j]);
                }
            }
        }
    }
}

/// Every position that thinning drops lies within 10 tiles of one it keeps.
pub proof fn law_thinned_covers(s: Seq<(usize, usize)>)
    ensures
        forall|i: int|
            0 <= i < s.len() ==> #[trigger] thinned(s).contains(s[i]) || exists|j: int|
                0 <= j < thinned(s).len() && dist2(s[i], #[trigger] thinned(s)[j]) <= 100,
    decreases s.len(),
{
    if s.len() > 0 {
        let p = s.drop_last();
        law_thinned_covers(p);
        let kept = thinned(p);
        let t = thinned(s);
        assert forall|i: int| 0 <= i < s.len() implies #[trigger] t.contains(s[i]) || exists|j: int|
            0 <= j < t.len() && dist2(s[i], #[trigger] t[j]) <= 100 by {
            if i < s.len() - 1 {
                assert(s[i] == p[i]);
                if kept.contains(p[i]) {
                    let k = choose|k: int| 0 <= k < kept.len() && kept[k] == p[i];
                    assert(t[k] == kept[k]);
                } else {
                    let j = choose|j: int| 0 <= j < kept.len() && dist2(p[i], #[trigger] kept[j]) <= 100;
                    assert(t[j] == kept[j]);
                }
            } else {
                if far_from_all(s.last(), kept) {
                    assert(t[t.len() - 1] == s[i]);
                } else {
                    let j = choose|j: int| 0 <= j < kept.len() && !(dist2(s.last(), #[trigger] kept[j]) > 100);
                    assert(t[j] == kept[j]);
                }
            }
        }
    }
}

} // verus!

verus! {

/// Radius of the clear circle of a camp, in tiles.
pub const CAMP_RADIUS: usize = 8;

/// The tile (`r`, `c`) lies within the clear circle of a camp centred on
/// (`cr`, `cc`).
pub open spec fn in_camp_circle(r: int, c: int, cr: int, cc: int) -> bool {
    (r - cr) * (r - cr) + (c - cc) * (c - cc) <= (CAMP_RADIUS * CAMP_RADIUS) as int
}

/// Turns into camp every tile within the camp radius of (`center_row`,
/// `center_col`), leaving every other tile as it was.
pub fn carve_camp_circle(
    map: &mut [[Biome; MAPSIZE]; MAPSIZE],
    center_row: usize,
    center_col: usize,
)
    requires
        center_row < 0x4000_0000,
        center_col < 0x4000_0000,
    ensures
        forall|r: int, c: int|
            0 <= r < MAPSIZE && 0 <= c < MAPSIZE ==> #[trigger] final(map)@[r]@[c] == if in_camp_circle(
                r,
                c,
                center_row as int,
                center_col as int,
            ) {
                Biome::Camp
            } else {
                old(map)@[r]@[c]
            },
{
    let ghost m0 = *map;
    let mut r: usize = 0;
    while r < MAPSIZE
        invariant
            0 <= r <= MAPSIZE,
            center_row < 0x4000_0000,
            center_col < 0x4000_0000,
            forall|a: int, c: int|
                0 <= a < MAPSIZE && 0 <= c < MAPSIZE ==> #[trigger] map@[a]@[c] == if a < r
                    && in_camp_circle(a, c, center_row as int, center_col as int) {
                    Biome::Camp
                } else {
                    m0@[a]@[c]
                },
        decreases MAPSIZE - r,
    {
        let mut line = map[r];
        let dr: u64 = if r >= center_row {
            (r - center_row) as u64
        } else {
            (center_row - r) as u64
        };
        let mut c: usize = 0;
        while c < MAPSIZE
            invariant
                0 <= r < MAPSIZE,
                0 <= c <= MAPSIZE,
                center_col < 0x4000_0000,
                dr == r - center_row || dr == center_row - r,
                dr < 0x4000_0000,
                forall|b: int|
                    0 <= b < MAPSIZE ==> #[trigger] line@[b] == if b < c && in_camp_circle(
                        r as int,
                        b,
                        center_row as int,
                        center_col as int,
                    ) {
                        Biome::Camp
                    } else {
                        m0@[r as int]@[b]
                    },
            decreases MAPSIZE - c,
        {
            let dc: u64 = if c >= center_col {
                (c - center_col) as u64
            } else {
                (center_col - c) as u64
            };
            assert(dr * dr <= 0x1000_0000_0000_0000) by (nonlinear_arith)
                requires
                    dr < 0x4000_0000,
            ;
            assert(dc * dc <= 0x1000_0000_0000_0000) by (nonlinear_arith)
                requires
                    dc < 0x4000_0000,
            ;
            let inside = dr * dr + dc * dc <= (CAMP_RADIUS * CAMP_RADIUS) as u64;
            assert(inside == in_camp_circle(r as int, c as int, center_row as int, center_col as int))
                by (nonlinear_arith)
                requires
                    inside == (dr * dr + dc * dc <= 64),
                    dr == r - center_row || dr == center_row - r,
                    dc == c - center_col || dc == center_col - c,
            ;
            if inside {
                line[c] = Biome::Camp;
            }
            c = c + 1;
        }
        map[r] = line;
        r = r + 1;
    }
}

/// The tile (`r`, `c`) lies on the border of the map.
pub open spec fn on_border(r: int, c: int) -> bool {
    r == 0 || r == MAPSIZE - 1 || c == 0 || c == MAPSIZE - 1
}

/// Turns the outermost ring of tiles into walls.
pub fn add_outer_walls(map: &mut [[Biome; MAPSIZE]; MAPSIZE])
    ensures
        forall|r: int, c: int|
            0 <= r < MAPSIZE && 0 <= c < MAPSIZE ==> #[trigger] final(map)@[r]@[c] == if on_border(
                r,
                c,
            ) {
                Biome::Wall
            } else {
                old(map)@[r]@[c]
            },
{
    let ghost m0 = *map;
    let mut r: usize = 0;
    while r < MAPSIZE
        invariant
            0 <= r <= MAPSIZE,
            forall|a: int, c: int|
                0 <= a < MAPSIZE && 0 <= c < MAPSIZE ==> #[trigger] map@[a]@[c] == if a < r
                    && on_border(a, c) {
                    Biome::Wall
                } else {
                    m0@[a]@[c]
                },
        decreases MAPSIZE - r,
    {
        let mut line = map[r];
        let mut c: usize = 0;
        while c < MAPSIZE
            invariant
                0 <= r < MAPSIZE,
                0 <= c <= MAPSIZE,
                forall|b: int|
                    0 <= b < MAPSIZE ==> #[trigger] line@[b] == if b < c && on_border(
                        r as int,
                        b,
                    ) {
                        Biome::Wall
                    } else {
                        m0@[r as int]@[b]
                    },
            decreases MAPSIZE - c,
        {
            if r == 0 || r == MAPSIZE - 1 || c == 0 || c == MAPSIZE - 1 {
                line[c] = Biome::Wall;
            }
            c = c + 1;
        }
        map[r] = line;
        r = r + 1;
    }
}

} // verus!

verus! {

use crate::text::{parse_u64, parse_u8, parse_unsigned};

/// Of the fields `s`, the value of the last one that reads as a number no
/// larger than `max`, or `default` when none does.
pub open spec fn last_parsed(s: Seq<Seq<char>>, max: nat, default: nat) -> nat
    decreases s.len(),
{
    if s.len() == 0 {
        default
    } else {
        match parse_unsigned(s.last(), max) {
            Some(v) => v,
            None => last_parsed(s.drop_last(), max, default),
        }
    }
}

/// The texts of the fields.
pub open spec fn views(inputs: Seq<String>) -> Seq<Seq<char>> {
    inputs.map_values(|x: String| x@)
}

/// The map seed entered in the seed fields: the last one that reads as a
/// `u64`, or 0.
pub fn set_seed(inputs: &Vec<String>) -> (r: u64)
    ensures
        r == last_parsed(views(inputs@), u64::MAX as nat, 0),
{
    let mut seed: u64 = 0;
    let mut i: usize = 0;
    while i < inputs.len()
        invariant
            0 <= i <= inputs@.len(),
            seed == last_parsed(views(inputs@.take(i as int)), u64::MAX as nat, 0),
        decreases inputs@.len() - i,
    {
        proof {
            assert(views(inputs@.take(i + 1)).drop_last() =~= views(inputs@.take(i as int)));
            assert(views(inputs@.take(i + 1)).last() == inputs@[i as int]@);
        }
        if let Some(parsed_num) = parse_u64(inputs[i].as_str()) {
            seed = parsed_num;
        }
        i = i + 1;
    }
    assert(inputs@.take(inputs@.len() as int) =~= inputs@);
    seed
}

/// The number of camps entered in the camp-count fields: the last one that
/// reads as a `u8`, or 10.
pub fn set_num_camps(inputs: &Vec<String>) -> (r: u8)
    ensures
        r == last_parsed(views(inputs@), u8::MAX as nat, 10),
{
    let mut num: u8 = 10;
    let mut i: usize = 0;
    while i < inputs.len()
        invariant
            0 <= i <= inputs@.len(),
            num == last_parsed(views(inputs@.take(i as int)), u8::MAX as nat, 10),
        decreases inputs@.len() - i,
    {
        proof {
            assert(views(inputs@.take(i + 1)).drop_last() =~= views(inputs@.take(i as int)));
            assert(views(inputs@.take(i + 1)).last() == inputs@[i as int]@);
        }
        if let Some(parsed_num) = parse_u8(inputs[i].as_str()) {
            num = parsed_num;
        }
        i = i + 1;
    }
    assert(inputs@.take(inputs@.len() as int) =~= inputs@);
    num
}

} // verus!
