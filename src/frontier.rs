//! The open list of the A* search: a binary min-heap of `(score, cell)`
//! entries ordered by score.
use vstd::prelude::*;
use vstd::multiset::Multiset;

verus! {

broadcast use vstd::seq_lib::group_to_multiset_ensures;

/// Every entry's score is at least its parent's.
pub open spec fn heap_ordered(s: Seq<(u128, usize)>) -> bool {
    forall|c: int| 0 < c < s.len() ==> s[(c - 1) / 2].0 <= #[trigger] s[c].0
}

proof fn lemma_root_least(s: Seq<(u128, usize)>, i: int)
    requires
        heap_ordered(s),
        0 <= i < s.len(),
    ensures
        s[0].0 <= s[i].0,
    decreases i,
{
    if i > 0 {
        lemma_root_least(s, (i - 1) / 2);
    }
}

pub struct Frontier {
    data: Vec<(u128, usize)>,
}

impl View for Frontier {
    type V = Multiset<(u128, usize)>;

    closed spec fn view(&self) -> Multiset<(u128, usize)> {
        self.data@.to_multiset()
    }
}

impl Frontier {
    pub closed spec fn wf(&self) -> bool {
        heap_ordered(self.data@)
    }

    pub fn new() -> (f: Frontier)
        ensures
            f.wf(),
            f@ == Multiset::<(u128, usize)>::empty(),
    {
        let f = Frontier { data: Vec::new() };
        assert(f.data@ =~= Seq::<(u128, usize)>::empty());
        assert(f@ =~= Multiset::<(u128, usize)>::empty());
        f
    }

    pub fn len(&self) -> (n: usize)
        ensures
            n == self@.len(),
    {
        self.data.len()
    }

    fn swap(&mut self, a: usize, b: usize)
        requires
            a < old(self).data@.len(),
            b < old(self).data@.len(),
        ensures
            final(self).data@ == old(self).data@.update(a as int, old(self).data@[b as int]).update(
                b as int,
                old(self).data@[a as int],
            ),
            final(self)@ == old(self)@,
    {
        let x = self.data[a];
        let y = self.data[b];
        let ghost s0 = self.data@;
        self.data.set(a, y);
        let ghost s1 = self.data@;
        self.data.set(b, x);
        proof {
            assert(s1.to_multiset() == s0.to_multiset().insert(y).remove(x));
            assert(self.data@.to_multiset() == s1.to_multiset().insert(x).remove(s1[b as int]));
            if a == b {
                assert(self.data@ =~= s0);
            } else {
                assert(s1[b as int] == y);
            }
            assert(self.data@.to_multiset() =~= s0.to_multiset());
        }
    }

    /// Adds an entry.
    pub fn push(&mut self, e: (u128, usize))
        requires
            old(self).wf(),
        ensures
            final(self).wf(),
            final(self)@ == old(self)@.insert(e),
    {
        let ghost target = self@.insert(e);
        self.data.push(e);
        let mut i = self.data.len() - 1;
        while i > 0 && self.data[(i - 1) / 2].0 > self.data[i].0
            invariant
                i < self.data@.len(),
                self@ == target,
                forall|c: int| 0 < c < self.data@.len() && c != i ==> self.data@[(c - 1) / 2].0 <= #[trigger] self.data@[c].0,
                i > 0 ==> forall|c: int|
                    0 < c < self.data@.len() && (c - 1) / 2 == i ==> self.data@[(i - 1) / 2].0 <= #[trigger] self.data@[c].0,
            decreases i,
        {
            let p = (i - 1) / 2;
            self.swap(p, i);
            i = p;
        }
        assert(heap_ordered(self.data@));
    }

    /// The child of `i` with the smaller score.
    fn smaller_child(&self, i: usize) -> (m: usize)
        requires
            2 * i + 1 < self.data@.len(),
        ensures
            m == 2 * i + 1 || m == 2 * i + 2,
            m < self.data@.len(),
            self.data@[m as int].0 <= self.data@[2 * i + 1].0,
            2 * i + 2 < self.data@.len() ==> self.data@[m as int].0 <= self.data@[2 * i + 2].0,
    {
        let n = self.data.len();
        let l = 2 * i + 1;
        if l + 1 < n && self.data[l + 1].0 < self.data[l].0 {
            l + 1
        } else {
            l
        }
    }

    /// Moves the root entry down until every entry is at least its parent.
    fn sift_down(&mut self)
        requires
            old(self).data@.len() > 0,
            forall|c: int| 0 < c < old(self).data@.len() && (c - 1) / 2 != 0 ==> old(self).data@[(c - 1) / 2].0 <= #[trigger] old(self).data@[c].0,
        ensures
            final(self).wf(),
            final(self)@ == old(self)@,
    {
        let n = self.data.len();
        let mut i: usize = 0;
        while i < n / 2 && self.data[i].0 > self.data[self.smaller_child(i)].0
            invariant
                n == self.data@.len(),
                i < n,
                self@ == old(self)@,
                forall|c: int| 0 < c < n && (c - 1) / 2 != i ==> self.data@[(c - 1) / 2].0 <= #[trigger] self.data@[c].0,
                i > 0 ==> forall|c: int|
                    0 < c < n && (c - 1) / 2 == i ==> self.data@[(i - 1) / 2].0 <= #[trigger] self.data@[c].0,
            decreases n - i,
        {
            let m = self.smaller_child(i);
            self.swap(i, m);
            i = m;
        }
        proof {
            assert forall|c: int| 0 < c < n implies self.data@[(c - 1) / 2].0 <= #[trigger] self.data@[c].0 by {
                if (c - 1) / 2 == i {
                    assert(c == 2 * i + 1 || c == 2 * i + 2);
                }
            }
        }
    }

    /// Removes and returns an entry of least score.
    pub fn pop_min(&mut self) -> (e: (u128, usize))
        requires
            old(self).wf(),
            old(self)@.len() > 0,
        ensures
            final(self).wf(),
            old(self)@.count(e) > 0,
            final(self)@ == old(self)@.remove(e),
            forall|x: (u128, usize)| old(self)@.count(x) > 0 ==> e.0 <= x.0,
    {
        let ghost s0 = self.data@;
        proof {
            assert forall|x: (u128, usize)| s0.to_multiset().count(x) > 0 implies s0[0].0 <= x.0 by {
                assert(s0.contains(x));
                let k = choose|k: int| 0 <= k < s0.len() && s0[k] == x;
                lemma_root_least(s0, k);
            }
            assert(s0.contains(s0[0]));
        }
        let top = self.data[0];
        let last = match self.data.pop() {
            Some(x) => x,
            None => top,
        };
        proof {
            assert(s0 =~= self.data@.push(last));
        }
        if self.data.len() > 0 {
            let ghost s1 = self.data@;
            self.data.set(0, last);
            proof {
                assert(s0.to_multiset() == s1.to_multiset().insert(last));
                assert(self.data@.to_multiset() == s1.to_multiset().insert(last).remove(s1[0]));
                assert(s1[0] == top);
                assert(self.data@.to_multiset() =~= s0.to_multiset().remove(top));
                assert forall|c: int| 0 < c < self.data@.len() && (c - 1) / 2 != 0 implies self.data@[(c - 1) / 2].0 <= #[trigger] self.data@[c].0 by {
                    assert(self.data@[c] == s0[c]);
                    assert(self.data@[(c - 1) / 2] == s0[(c - 1) / 2]);
                }
            }
            self.sift_down();
        } else {
            assert(self.data@.to_multiset() =~= s0.to_multiset().remove(top));
        }
        top
    }
}

} // verus!
