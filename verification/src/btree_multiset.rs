//! A multiset of integers kept as a sorted vector: every operation keeps
//! the contents ordered, so membership and counting are binary searches.

use vstd::prelude::*;

verus! {

use crate::binary_search::{sorted_i64, BinarySearch};

/// A multiset over `i64`, stored in sorted order.
pub struct BTreeMultiSet {
    data: Vec<i64>,
}

impl View for BTreeMultiSet {
    type V = Seq<i64>;

    closed spec fn view(&self) -> Seq<i64> {
        self.data@
    }
}

impl BTreeMultiSet {
    /// The contents are sorted.
    pub open spec fn wf(&self) -> bool {
        sorted_i64(self@)
    }

    /// Does the multiset hold `x`?
    pub open spec fn spec_contains(&self, x: i64) -> bool {
        exists|i: int| 0 <= i < self@.len() && self@[i] == x
    }

    /// An empty multiset.
    pub fn new() -> (r: BTreeMultiSet)
        ensures
            r.wf(),
            r@.len() == 0,
    {
        BTreeMultiSet { data: Vec::new() }
    }

    /// Adds one occurrence of `value`.
    pub fn insert(&mut self, value: i64)
        requires
            old(self).wf(),
            old(self)@.len() < usize::MAX,
        ensures
            final(self).wf(),
            final(self)@.len() == old(self)@.len() + 1,
            final(self).spec_contains(value),
            exists|j: int|
                0 <= j <= old(self)@.len() && final(self)@ == old(self)@.insert(j, value),
    {
        let idx = match self.data.as_slice().lower_bound(&value) {
            Some(i) => i,
            None => self.data.len(),
        };
        self.data.insert(idx, value);
        proof {
            let s0 = old(self)@;
            let s1 = self@;
            assert(s1[idx as int] == value);
            assert forall|i: int, j: int| 0 <= i <= j < s1.len() implies s1[i] <= s1[j] by {
                if i < idx && j == idx {
                    assert(s1[i] == s0[i]);
                } else if i == idx && j > idx {
                    assert(s1[j] == s0[j - 1]);
                } else if i < idx && j > idx {
                    assert(s1[i] == s0[i] && s1[j] == s0[j - 1]);
                } else if i > idx && j > idx {
                    assert(s1[i] == s0[i - 1] && s1[j] == s0[j - 1]);
                } else if i < idx && j < idx {
                    assert(s1[i] == s0[i] && s1[j] == s0[j]);
                }
            }
        }
    }

    /// Empties the multiset.
    pub fn clear(&mut self)
        ensures
            final(self).wf(),
            final(self)@.len() == 0,
    {
        self.data.clear();
    }

    /// The number of stored occurrences, duplicates included.
    pub fn len(&self) -> (r: usize)
        ensures
            r == self@.len(),
    {
        self.data.len()
    }

    /// The number of distinct values.
    pub fn unique_len(&self) -> (r: usize)
        requires
            self.wf(),
        ensures
            r <= self@.len(),
            self@.len() > 0 ==> r >= 1,
    {
        if self.data.len() == 0 {
            return 0;
        }
        let mut distinct: usize = 1;
        let mut i: usize = 1;
        while i < self.data.len()
            invariant
                1 <= self.data.len(),
                1 <= i <= self.data.len(),
                1 <= distinct <= i,
            decreases self.data.len() - i,
        {
            if self.data[i] != self.data[i - 1] {
                distinct = distinct + 1;
            }
            i = i + 1;
        }
        distinct
    }

    /// Is the multiset empty?
    pub fn is_empty(&self) -> (r: bool)
        ensures
            r == (self@.len() == 0),
    {
        self.data.is_empty()
    }

    /// The stored value equal to `value`, if any.
    pub fn get(&self, value: i64) -> (r: Option<i64>)
        requires
            self.wf(),
        ensures
            r matches Some(v) ==> v == value && self.spec_contains(value),
            r is None ==> !self.spec_contains(value),
    {
        match self.data.as_slice().lower_bound(&value) {
            None => {
                proof {
                    assert forall|i: int| 0 <= i < self@.len() implies self@[i] != value by {
                        assert(self@[i] < value);
                    }
                }
                None
            },
            Some(i) => {
                if self.data[i] == value {
                    Some(value)
                } else {
                    proof {
                        assert forall|j: int| 0 <= j < self@.len() implies self@[j] != value by {
                            if j < i {
                                assert(self@[j] < value);
                            } else {
                                assert(self@[i as int] <= self@[j]);
                            }
                        }
                    }
                    None
                }
            },
        }
    }

    /// Does the multiset hold `value`?
    pub fn contains(&self, value: i64) -> (r: bool)
        requires
            self.wf(),
        ensures
            r == self.spec_contains(value),
    {
        let g = self.get(value);
        g.is_some()
    }

    /// How many occurrences of `value` are stored.
    pub fn count(&self, value: i64) -> (r: usize)
        requires
            self.wf(),
        ensures
            r <= self@.len(),
            (r > 0) == self.spec_contains(value),
    {
        let lo = match self.data.as_slice().lower_bound(&value) {
            Some(i) => i,
            None => self.data.len(),
        };
        let hi = match self.data.as_slice().upper_bound(&value) {
            Some(i) => i,
            None => self.data.len(),
        };
        proof {
            if lo < hi {
                assert(self@[lo as int] >= value && self@[lo as int] <= value);
            }
            if self.spec_contains(value) {
                let w = choose|i: int| 0 <= i < self@.len() && self@[i] == value;
                assert(lo <= w);
                assert(w < hi);
            }
        }
        if hi > lo {
            hi - lo
        } else {
            0
        }
    }

    /// Removes one occurrence of `value`; `true` when one was there.
    pub fn remove(&mut self, value: i64) -> (r: bool)
        requires
            old(self).wf(),
        ensures
            final(self).wf(),
            r == old(self).spec_contains(value),
            r ==> final(self)@.len() == old(self)@.len() - 1,
            r ==> exists|j: int|
                0 <= j < old(self)@.len() && old(self)@[j] == value
                    && final(self)@ == old(self)@.remove(j),
            !r ==> final(self)@ == old(self)@,
    {
        let idx = match self.data.as_slice().lower_bound(&value) {
            Some(i) => i,
            None => {
                proof {
                    assert forall|i: int| 0 <= i < self@.len() implies self@[i] != value by {
                        assert(self@[i] < value);
                    }
                }
                return false;
            },
        };
        if self.data[idx] != value {
            proof {
                assert forall|j: int| 0 <= j < self@.len() implies self@[j] != value by {
                    if j < idx {
                        assert(self@[j] < value);
                    } else {
                        assert(self@[idx as int] <= self@[j]);
                    }
                }
            }
            return false;
        }
        self.data.remove(idx);
        proof {
            let s0 = old(self)@;
            let s1 = self@;
            assert forall|i: int, j: int| 0 <= i <= j < s1.len() implies s1[i] <= s1[j] by {
                let i0 = if i < idx {
                    i
                } else {
                    i + 1
                };
                let j0 = if j < idx {
                    j
                } else {
                    j + 1
                };
                assert(s1[i] == s0[i0] && s1[j] == s0[j0]);
            }
        }
        true
    }

    /// Removes every occurrence of `value`; `true` when any was there.
    pub fn remove_all(&mut self, value: i64) -> (r: bool)
        requires
            old(self).wf(),
        ensures
            final(self).wf(),
            !final(self).spec_contains(value),
            r == old(self).spec_contains(value),
    {
        let mut removed = false;
        loop
            invariant
                self.wf(),
                removed || self@ == old(self)@,
                removed ==> old(self).spec_contains(value),
            ensures
                !self.spec_contains(value),
                removed == old(self).spec_contains(value),
            decreases self@.len() + 1,
        {
            let hit = self.remove(value);
            if !hit {
                break ;
            }
            removed = true;
        }
        removed
    }

    /// The smallest stored value.
    pub fn first(&self) -> (r: Option<i64>)
        requires
            self.wf(),
        ensures
            self@.len() == 0 ==> r is None,
            self@.len() > 0 ==> r == Some(self@[0]),
    {
        if self.data.len() == 0 {
            None
        } else {
            Some(self.data[0])
        }
    }

    /// Removes and returns the smallest stored value.
    pub fn pop_first(&mut self) -> (r: Option<i64>)
        requires
            old(self).wf(),
        ensures
            final(self).wf(),
            old(self)@.len() == 0 ==> r is None && final(self)@ == old(self)@,
            old(self)@.len() > 0 ==> r == Some(old(self)@[0]) && final(self)@ == old(
                self,
            )@.subrange(1, old(self)@.len() as int),
    {
        if self.data.len() == 0 {
            None
        } else {
            let v = self.data.remove(0);
            proof {
                assert(self@ =~= old(self)@.subrange(1, old(self)@.len() as int));
            }
            Some(v)
        }
    }

    /// Removes and returns the largest stored value.
    pub fn pop_last(&mut self) -> (r: Option<i64>)
        requires
            old(self).wf(),
        ensures
            final(self).wf(),
            old(self)@.len() == 0 ==> r is None && final(self)@ == old(self)@,
            old(self)@.len() > 0 ==> r == Some(old(self)@.last()) && final(self)@ == old(
                self,
            )@.drop_last(),
    {
        let r = self.data.pop();
        proof {
            if old(self)@.len() > 0 {
                assert(self@ =~= old(self)@.drop_last());
            }
        }
        r
    }

    /// The largest stored value.
    pub fn last(&self) -> (r: Option<i64>)
        requires
            self.wf(),
        ensures
            self@.len() == 0 ==> r is None,
            self@.len() > 0 ==> r == Some(self@.last()),
    {
        if self.data.len() == 0 {
            None
        } else {
            Some(self.data[self.data.len() - 1])
        }
    }

    /// The contents, smallest first.
    pub fn iter(&self) -> (r: Vec<i64>)
        ensures
            r@ == self@,
    {
        let mut out: Vec<i64> = Vec::new();
        let mut i: usize = 0;
        while i < self.data.len()
            invariant
                i <= self.data.len(),
                out@ == self@.subrange(0, i as int),
            decreases self.data.len() - i,
        {
            out.push(self.data[i]);
            proof {
                assert(out@ =~= self@.subrange(0, i + 1));
            }
            i = i + 1;
        }
        proof {
            assert(self@.subrange(0, self@.len() as int) =~= self@);
        }
        out
    }

    /// The values in `[lo, hi)`, smallest first.
    pub fn range(&self, lo: i64, hi: i64) -> (r: Vec<i64>)
        requires
            self.wf(),
        ensures
            forall|i: int| 0 <= i < r@.len() ==> lo <= #[trigger] r@[i] < hi,
    {
        let mut out: Vec<i64> = Vec::new();
        let mut i: usize = 0;
        while i < self.data.len()
            invariant
                i <= self.data.len(),
                forall|j: int| 0 <= j < out@.len() ==> lo <= #[trigger] out@[j] < hi,
            decreases self.data.len() - i,
        {
            let v = self.data[i];
            if lo <= v && v < hi {
                out.push(v);
            }
            i = i + 1;
        }
        out
    }
}

} // verus!
