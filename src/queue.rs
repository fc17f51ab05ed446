//! The search frontier: entries ordered by cost plus heuristic, lowest first.
use vstd::prelude::*;
use vstd::multiset::Multiset;

verus! {

broadcast use vstd::seq_lib::group_to_multiset_ensures;

/// A frontier entry: a node index, the cost to reach it and the estimate of
/// what remains to the goal.
#[derive(Debug, Clone, Copy, PartialEq, Eq, Structural)]
pub struct RouterNode {
    pub index: usize,
    pub cost: u32,
    pub heuristic: u32,
}

pub open spec fn priority_of(n: RouterNode) -> int {
    n.cost + n.heuristic
}

impl RouterNode {
    pub fn new(index: usize, cost: u32, heuristic: u32) -> (r: Self)
        ensures
            r == (RouterNode { index, cost, heuristic }),
    {
        Self { index, cost, heuristic }
    }

    pub fn priority(&self) -> (r: u64)
        ensures
            r == priority_of(*self),
    {
        self.cost as u64 + self.heuristic as u64
    }
}

/// Position of the parent of position `i` in a binary heap.
pub open spec fn parent(i: int) -> int {
    (i - 1) / 2
}

/// Every entry but the first has no lower priority than its parent.
pub open spec fn heap_ordered(s: Seq<RouterNode>) -> bool {
    forall|i: int| 0 < i < s.len() ==> priority_of(s[parent(i)]) <= priority_of(#[trigger] s[i])
}

/// Ordered everywhere but below position `hole`, whose own children are no
/// lower than `hole`'s parent.
spec fn ordered_but(s: Seq<RouterNode>, hole: int) -> bool {
    &&& forall|i: int|
        0 < i < s.len() && parent(i) != hole ==> priority_of(s[parent(i)]) <= priority_of(
            #[trigger] s[i],
        )
    &&& hole > 0 ==> forall|c: int|
        0 < c < s.len() && parent(c) == hole ==> priority_of(s[parent(hole)]) <= priority_of(
            #[trigger] s[c],
        )
}

/// Ordered everywhere but above position `hole`, whose children are no lower
/// than `hole`'s parent.
spec fn ordered_above(s: Seq<RouterNode>, hole: int) -> bool {
    &&& forall|i: int|
        0 < i < s.len() && i != hole ==> priority_of(s[parent(i)]) <= priority_of(#[trigger] s[i])
    &&& hole > 0 ==> forall|c: int|
        0 < c < s.len() && parent(c) == hole ==> priority_of(s[parent(hole)]) <= priority_of(
            #[trigger] s[c],
        )
}

proof fn lemma_first_is_lowest(s: Seq<RouterNode>, i: int)
    requires
        heap_ordered(s),
        0 <= i < s.len(),
    ensures
        priority_of(s[0]) <= priority_of(s[i]),
    decreases i,
{
    if i > 0 {
        lemma_first_is_lowest(s, parent(i));
    }
}

/// A min-priority queue of frontier entries, kept as a binary heap.
pub struct MinQueue {
    items: Vec<RouterNode>,
}

impl View for MinQueue {
    type V = Multiset<RouterNode>;

    closed spec fn view(&self) -> Multiset<RouterNode> {
        self.items@.to_multiset()
    }
}

impl MinQueue {
    /// The entries form a heap.
    pub closed spec fn wf(&self) -> bool {
        heap_ordered(self.items@)
    }

    pub fn new() -> (r: Self)
        ensures
            r.wf(),
            r@ == Multiset::<RouterNode>::empty(),
    {
        let r = Self { items: Vec::new() };
        assert(r.items@.to_multiset() =~= Multiset::empty());
        r
    }

    pub fn with_capacity(capacity: usize) -> (r: Self)
        ensures
            r.wf(),
            r@ == Multiset::<RouterNode>::empty(),
    {
        let r = Self { items: Vec::with_capacity(capacity) };
        assert(r.items@.to_multiset() =~= Multiset::empty());
        r
    }

    pub fn len(&self) -> (r: usize)
        ensures
            r == self@.len(),
    {
        self.items.len()
    }

    pub fn is_empty(&self) -> (r: bool)
        ensures
            r == (self@.len() == 0),
    {
        self.items.len() == 0
    }

    fn swap(&mut self, i: usize, j: usize)
        requires
            i < old(self).items@.len(),
            j < old(self).items@.len(),
        ensures
            final(self).items@ == old(self).items@.update(i as int, old(self).items@[j as int]).update(
                j as int,
                old(self).items@[i as int],
            ),
            final(self)@ == old(self)@,
    {
        let a = self.items[i];
        let b = self.items[j];
        let ghost s = self.items@;
        self.items.set(i, b);
        self.items.set(j, a);
        proof {
            let t = s.update(i as int, b);
            assert(t.to_multiset() == s.to_multiset().insert(b).remove(a));
            assert(t.update(j as int, a).to_multiset() == t.to_multiset().insert(a).remove(t[j as int]));
            if i == j {
                assert(t.update(j as int, a) =~= s);
            } else {
                assert(t[j as int] == b);
            }
            assert(s.to_multiset().insert(b).remove(a).insert(a).remove(b) =~= s.to_multiset());
        }
    }

    pub fn push(&mut self, node: RouterNode)
        requires
            old(self).wf(),
        ensures
            final(self).wf(),
            final(self)@ == old(self)@.insert(node),
    {
        self.items.push(node);
        let mut i = self.items.len() - 1;
        proof {
            assert(ordered_above(self.items@, i as int));
        }
        while i > 0
            invariant
                0 <= i < self.items@.len(),
                self@ == old(self)@.insert(node),
                ordered_above(self.items@, i as int),
            decreases i,
        {
            let p = (i - 1) / 2;
            if self.items[i].priority() >= self.items[p].priority() {
                proof {
                    assert(heap_ordered(self.items@));
                }
                return;
            }
            let ghost s = self.items@;
            self.swap(i, p);
            proof {
                let t = self.items@;
                assert forall|j: int| 0 < j < t.len() && j != p implies priority_of(t[parent(j)])
                    <= priority_of(#[trigger] t[j]) by {
                    if j == i {
                    } else if parent(j) == i {
                        assert(s[parent(i as int)] == s[p as int]);
                    } else if parent(j) == p {
                    } else if j == p {
                    }
                }
                if p > 0 {
                    assert forall|c: int| 0 < c < t.len() && parent(c) == p implies priority_of(
                        t[parent(p as int)],
                    ) <= priority_of(#[trigger] t[c]) by {
                        assert(priority_of(s[parent(p as int)]) <= priority_of(s[p as int]));
                        if c != i {
                            assert(priority_of(s[p as int]) <= priority_of(s[c]));
                        }
                    }
                }
            }
            i = p;
        }
        proof {
            assert(heap_ordered(self.items@));
        }
    }

    /// Moves the first entry down until the entries form a heap again.
    fn sift_down(&mut self)
        requires
            ordered_but(old(self).items@, 0),
        ensures
            final(self).wf(),
            final(self)@ == old(self)@,
    {
        let n = self.items.len();
        let mut i: usize = 0;
        while i < n / 2
            invariant
                n == self.items@.len(),
                i < n || n == 0,
                self@ == old(self)@,
                ordered_but(self.items@, i as int),
            decreases n - i,
        {
            let l = 2 * i + 1;
            let r = 2 * i + 2;
            let c = if r < n && self.items[r].priority() < self.items[l].priority() {
                r
            } else {
                l
            };
            if self.items[i].priority() <= self.items[c].priority() {
                proof {
                    assert forall|j: int| 0 < j < self.items@.len() implies priority_of(
                        self.items@[parent(j)],
                    ) <= priority_of(#[trigger] self.items@[j]) by {
                        if parent(j) == i {
                            assert(j == l || j == r);
                        }
                    }
                }
                return;
            }
            let ghost s = self.items@;
            self.swap(i, c);
            proof {
                let t = self.items@;
                assert forall|j: int| 0 < j < t.len() && parent(j) != c implies priority_of(
                    t[parent(j)],
                ) <= priority_of(#[trigger] t[j]) by {
                    if j == c {
                    } else if parent(j) == i {
                        assert(j == l || j == r);
                    } else if j == i {
                        assert(priority_of(s[parent(i as int)]) <= priority_of(s[c as int]));
                    }
                }
                assert forall|g: int| 0 < g < t.len() && parent(g) == c implies priority_of(
                    t[parent(c as int)],
                ) <= priority_of(#[trigger] t[g]) by {
                    assert(priority_of(s[c as int]) <= priority_of(s[g]));
                }
            }
            i = c;
        }
        proof {
            assert forall|j: int| 0 < j < self.items@.len() implies priority_of(
                self.items@[parent(j)],
            ) <= priority_of(#[trigger] self.items@[j]) by {
                if parent(j) == i {
                    assert(2 * i + 1 <= j);
                }
            }
        }
    }

    /// Removes and returns an entry of lowest priority; `None` when empty.
    pub fn pop(&mut self) -> (r: Option<RouterNode>)
        requires
            old(self).wf(),
        ensures
            final(self).wf(),
            old(self)@.len() == 0 ==> r.is_none() && final(self)@ == old(self)@,
            old(self)@.len() > 0 ==> r.is_some() && old(self)@.contains(r.unwrap()) && final(self)@
                == old(self)@.remove(r.unwrap()) && forall|x: RouterNode|
                old(self)@.contains(x) ==> priority_of(r.unwrap()) <= priority_of(x),
    {
        let ghost s0 = self.items@;
        proof {
            assert forall|x: RouterNode| s0.to_multiset().contains(x) implies priority_of(s0[0])
                <= priority_of(x) by {
                assert(s0.contains(x));
                let k = choose|k: int| 0 <= k < s0.len() && s0[k] == x;
                lemma_first_is_lowest(s0, k);
            }
        }
        let last = match self.items.pop() {
            Some(last) => last,
            None => {
                return None;
            },
        };
        proof {
            assert(s0 =~= self.items@.push(last));
        }
        if self.items.len() == 0 {
            proof {
                assert(s0[0] == last);
            }
            return Some(last);
        }
        let top = self.items[0];
        proof {
            assert(s0[0] == top);
        }
        let ghost s1 = self.items@;
        self.items.set(0, last);
        proof {
            assert(self.items@.to_multiset() == s1.to_multiset().insert(last).remove(top));
            assert(s0.to_multiset() == s1.to_multiset().insert(last));
        }
        proof {
            assert forall|j: int| 0 < j < self.items@.len() && parent(j) != 0 implies priority_of(
                self.items@[parent(j)],
            ) <= priority_of(#[trigger] self.items@[j]) by {
                assert(self.items@[j] == s0[j]);
                assert(self.items@[parent(j)] == s0[parent(j)]);
            }
        }
        self.sift_down();
        Some(top)
    }
}

} // verus!
