//! A binary min-heap of search nodes, ordered by cost: the open list of the
//! grid path search.

use vstd::prelude::*;
use vstd::multiset::Multiset;
use crate::enemy::Node;

verus! {

broadcast use {vstd::seq_lib::group_to_multiset_ensures, vstd::multiset::group_multiset_axioms};

/// The parent of slot `i` of the heap array.
pub open spec fn parent(i: int) -> int {
    (i - 1) / 2
}

/// Every node costs no less than its parent.
pub open spec fn heap_ordered(s: Seq<Node>) -> bool {
    forall|j: int| 0 < j < s.len() ==> (#[trigger] s[parent(j)]).cost <= s[j].cost
}

proof fn lemma_root_min(s: Seq<Node>, i: int)
    requires
        heap_ordered(s),
        0 <= i < s.len(),
    ensures
        s[0].cost <= s[i].cost,
    decreases i,
{
    if i > 0 {
        assert(s[parent(i)].cost <= s[i].cost);
        lemma_root_min(s, parent(i));
    }
}

proof fn lemma_swap_multiset(s: Seq<Node>, a: int, b: int)
    requires
        0 <= a < s.len(),
        0 <= b < s.len(),
    ensures
        s.update(a, s[b]).update(b, s[a]).to_multiset() == s.to_multiset(),
{
    let s1 = s.update(a, s[b]);
    assert(s1.to_multiset() == s.to_multiset().insert(s[b]).remove(s[a]));
    assert(s1.update(b, s[a]).to_multiset() == s1.to_multiset().insert(s[a]).remove(s1[b]));
    if a == b {
        assert(s1 =~= s);
        assert(s1.update(b, s[a]) =~= s);
    } else {
        assert(s1[b] == s[b]);
        assert(s1.update(b, s[a]).to_multiset() =~= s.to_multiset());
    }
}

/// A priority queue of search nodes that hands out a cheapest one first.
pub struct NodeHeap {
    v: Vec<Node>,
}

impl NodeHeap {
    /// The nodes in the queue.
    pub closed spec fn contents(&self) -> Multiset<Node> {
        self.v@.to_multiset()
    }

    /// The queue is kept in heap order.
    pub closed spec fn wf(&self) -> bool {
        heap_ordered(self.v@)
    }

    pub fn new() -> (h: NodeHeap)
        ensures
            h.wf(),
            h.contents() =~= Multiset::empty(),
    {
        let h = NodeHeap { v: Vec::new() };
        assert(h.v@ =~= Seq::<Node>::empty());
        h
    }

    pub fn len(&self) -> (r: usize)
        ensures
            r == self.contents().len(),
    {
        self.v.len()
    }

    /// Adds a node.
    pub fn push(&mut self, n: Node)
        requires
            old(self).wf(),
        ensures
            final(self).wf(),
            final(self).contents() == old(self).contents().insert(n),
    {
        let ghost ms = self.v@.to_multiset().insert(n);
        self.v.push(n);
        let mut i = self.v.len() - 1;
        while i > 0 && self.v[(i - 1) / 2].cost > self.v[i].cost
            invariant
                0 <= i < self.v@.len(),
                self.v@.to_multiset() == ms,
                forall|j: int|
                    0 < j < self.v@.len() && j != i ==> (#[trigger] self.v@[parent(j)]).cost
                        <= self.v@[j].cost,
                i > 0 ==> forall|c: int|
                    0 < c < self.v@.len() && parent(c) == i ==> self.v@[parent(i as int)].cost
                        <= (#[trigger] self.v@[c]).cost,
            decreases i,
        {
            let p = (i - 1) / 2;
            let ghost s = self.v@;
            let a = self.v[p];
            let b = self.v[i];
            self.v.set(p, b);
            self.v.set(i, a);
            proof {
                lemma_swap_multiset(s, p as int, i as int);
                assert(self.v@ == s.update(p as int, s[i as int]).update(i as int, s[p as int]));
                assert forall|j: int| 0 < j < self.v@.len() && j != p implies (
                #[trigger] self.v@[parent(j)]).cost <= self.v@[j].cost by {
                    if j == i {
                    } else if parent(j) == i {
                        assert(s[parent(i as int)].cost <= s[j].cost);
                    } else if parent(j) == p {
                        assert(s[parent(j)].cost <= s[j].cost);
                    } else {
                        assert(s[parent(j)].cost <= s[j].cost);
                    }
                }
                if p > 0 {
                    assert(s[parent(p as int)].cost <= s[p as int].cost);
                    assert forall|c: int| 0 < c < self.v@.len() && parent(c) == p implies self.v@[parent(
                    p as int)].cost <= (#[trigger] self.v@[c]).cost by {
                        if c != i {
                            assert(s[parent(c)].cost <= s[c].cost);
                        }
                    }
                }
            }
            i = p;
        }
    }

    /// Removes and returns a cheapest node; `None` when the queue is empty.
    pub fn pop(&mut self) -> (r: Option<Node>)
        requires
            old(self).wf(),
        ensures
            final(self).wf(),
            r is None <==> old(self).contents().len() == 0,
            r is None ==> final(self).contents() == old(self).contents(),
            r matches Some(n) ==> {
                &&& old(self).contents().count(n) > 0
                &&& final(self).contents() == old(self).contents().remove(n)
                &&& forall|m: Node| #[trigger]
                    old(self).contents().count(m) > 0 ==> n.cost <= m.cost
            },
    {
        let ghost s0 = self.v@;
        if self.v.len() == 0 {
            return None;
        }
        proof {
            assert forall|m: Node| #[trigger] s0.to_multiset().count(m) > 0 implies s0[0].cost
                <= m.cost by {
                assert(s0.contains(m));
                let k = choose|k: int| 0 <= k < s0.len() && s0[k] == m;
                lemma_root_min(s0, k);
            }
            assert(s0.to_multiset().count(s0[0]) > 0) by {
                assert(s0.contains(s0[0]));
            }
        }
        let last = self.v.pop().unwrap();
        let ghost s1 = self.v@;
        assert(s0 =~= s1.push(last));
        if self.v.len() == 0 {
            assert(s0.to_multiset() == s1.to_multiset().insert(last));
            assert(s1.to_multiset() =~= Multiset::empty());
            return Some(last);
        }
        let top = self.v[0];
        self.v.set(0, last);
        let ghost ms = s0.to_multiset().remove(top);
        proof {
            assert(s0.to_multiset() == s1.to_multiset().insert(last));
            assert(self.v@.to_multiset() == s1.to_multiset().insert(last).remove(s1[0]));
            assert(self.v@.to_multiset() =~= ms);
        }
        let n = self.v.len();
        let mut i: usize = 0;
        loop
            invariant
                n == self.v@.len(),
                n > 0,
                0 <= i < n,
                self.v@.to_multiset() == ms,
                forall|j: int|
                    0 < j < n && parent(j) != i ==> (#[trigger] self.v@[parent(j)]).cost
                        <= self.v@[j].cost,
                i > 0 ==> forall|c: int|
                    0 < c < n && parent(c) == i ==> self.v@[parent(i as int)].cost
                        <= (#[trigger] self.v@[c]).cost,
            ensures
                heap_ordered(self.v@),
                self.v@.to_multiset() == ms,
            decreases n - i,
        {
            if i >= n / 2 {
                proof {
                    assert forall|j: int| 0 < j < n implies (#[trigger] self.v@[parent(j)]).cost
                        <= self.v@[j].cost by {
                        assert(parent(j) != i);
                    }
                }
                break;
            }
            let l = 2 * i + 1;
            let r = l + 1;
            let m = if r < n && self.v[r].cost < self.v[l].cost {
                r
            } else {
                l
            };
            if self.v[m].cost >= self.v[i].cost {
                proof {
                    assert forall|j: int| 0 < j < n implies (#[trigger] self.v@[parent(j)]).cost
                        <= self.v@[j].cost by {
                        if parent(j) == i {
                            assert(j == l || j == r);
                        }
                    }
                }
                break;
            }
            let ghost s = self.v@;
            let a = self.v[i];
            let b = self.v[m];
            self.v.set(i, b);
            self.v.set(m, a);
            proof {
                lemma_swap_multiset(s, i as int, m as int);
                assert(self.v@ == s.update(i as int, s[m as int]).update(m as int, s[i as int]));
                assert(parent(l as int) == i);
                assert(parent(r as int) == i);
                assert forall|j: int| 0 < j < n && parent(j) != m implies (#[trigger] self.v@[parent(
                j)]).cost <= self.v@[j].cost by {
                    if parent(j) == i {
                        assert(j == l || j == r);
                    } else if j == i {
                        assert(s[parent(i as int)].cost <= s[m as int].cost);
                    } else {
                        assert(s[parent(j)].cost <= s[j].cost);
                    }
                }
                assert forall|c: int| 0 < c < n && parent(c) == m implies self.v@[parent(
                m as int)].cost <= (#[trigger] self.v@[c]).cost by {
                    assert(s[parent(c)].cost <= s[c].cost);
                }
            }
            i = m;
        }
        Some(top)
    }
}

} // verus!
