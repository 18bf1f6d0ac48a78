//! A multiset that answers median queries: the lower half and upper half
//! live in two ordered multisets kept balanced within one element, with
//! every lower element at most every upper element.

use vstd::prelude::*;

verus! {

use crate::btree_multiset::BTreeMultiSet;
use crate::binary_search::sorted_i64;

/// A multiset split into a lower and an upper half around the median.
pub struct MedianMultiSet {
    lower: BTreeMultiSet,
    upper: BTreeMultiSet,
}

impl MedianMultiSet {
    /// Both halves are ordered, every lower element is at most every
    /// upper element, and the lower half holds the median: it is never
    /// smaller than the upper, and at most one element bigger.
    pub closed spec fn wf(&self) -> bool {
        &&& self.lower.wf()
        &&& self.upper.wf()
        &&& self.upper@.len() <= self.lower@.len() <= self.upper@.len() + 1
        &&& self.lower@.len() + self.upper@.len() <= 0x4000_0000
        &&& forall|a: int, b: int|
            0 <= a < self.lower@.len() && 0 <= b < self.upper@.len() ==> self.lower@[a]
                <= self.upper@[b]
    }

    /// The number of stored elements.
    pub closed spec fn spec_len(&self) -> nat {
        (self.lower@.len() + self.upper@.len()) as nat
    }

    /// The stored elements in nondecreasing order: the lower half (its
    /// maximum last) followed by the upper half (its minimum first).
    pub closed spec fn spec_view(&self) -> Seq<i64> {
        self.lower@ + self.upper@
    }

    /// The stored view really is sorted, and its length is the size.
    pub proof fn lemma_view_sorted(&self)
        requires
            self.wf(),
        ensures
            sorted_i64(self.spec_view()),
            self.spec_view().len() == self.spec_len(),
    {
        let s = self.spec_view();
        let ll = self.lower@.len() as int;
        assert forall|i: int, j: int| 0 <= i <= j < s.len() implies s[i] <= s[j] by {
            if j < ll {
                assert(s[i] == self.lower@[i] && s[j] == self.lower@[j]);
            } else if i >= ll {
                assert(s[i] == self.upper@[i - ll] && s[j] == self.upper@[j - ll]);
            } else {
                assert(s[i] == self.lower@[i] && s[j] == self.upper@[j - ll]);
            }
        }
    }

    /// An empty set.
    pub fn new() -> (r: MedianMultiSet)
        ensures
            r.wf(),
            r.spec_len() == 0,
            r.spec_view().len() == 0,
    {
        MedianMultiSet { lower: BTreeMultiSet::new(), upper: BTreeMultiSet::new() }
    }

    /// Adds a value: the stored multiset gains one occurrence of it.
    pub fn insert(&mut self, value: i64)
        requires
            old(self).wf(),
            old(self).spec_len() < 0x4000_0000,
        ensures
            final(self).wf(),
            final(self).spec_len() == old(self).spec_len() + 1,
            final(self).spec_view().to_multiset() == old(self).spec_view().to_multiset().insert(
                value,
            ),
    {
        let ghost l0 = self.lower@;
        let ghost u0 = self.upper@;
        self.lower.insert(value);
        proof {
            let l1 = self.lower@;
            // Every lower element except possibly the new maximum is
            // still at most every upper element.
            let j = choose|j: int| 0 <= j <= l0.len() && l1 == l0.insert(j, value);
            assert forall|a: int, b: int|
                0 <= a < l1.len() - 1 && 0 <= b < u0.len() implies l1[a] <= u0[b] by {
                if a != j {
                    let a0: int = if a < j {
                        a
                    } else {
                        a - 1
                    };
                    assert(l1[a] == l0[a0]);
                } else {
                    assert(l1[l1.len() - 1] == l0[l1.len() - 2]);
                    assert(l1[a] <= l1[l1.len() - 1]);
                }
            }
            broadcast use vstd::seq_lib::group_to_multiset_ensures;

            vstd::seq_lib::lemma_multiset_commutative(l0, u0);
            vstd::seq_lib::lemma_multiset_commutative(l1, u0);
            assert(l1.to_multiset() == l0.to_multiset().insert(value));
            assert((l1 + u0).to_multiset() =~= (l0 + u0).to_multiset().insert(value)) by {
                broadcast use vstd::multiset::group_multiset_axioms;

            }
        }
        self.rebalance();
    }

    /// Removes one occurrence of a value; `true` exactly when one was
    /// stored, and then the stored multiset loses one occurrence of it.
    pub fn remove(&mut self, value: i64) -> (r: bool)
        requires
            old(self).wf(),
        ensures
            final(self).wf(),
            r == old(self).spec_view().to_multiset().contains(value),
            r ==> final(self).spec_len() == old(self).spec_len() - 1,
            r ==> final(self).spec_view().to_multiset() == old(
                self,
            ).spec_view().to_multiset().remove(value),
            !r ==> final(self).spec_len() == old(self).spec_len(),
            !r ==> final(self).spec_view().to_multiset() == old(self).spec_view().to_multiset(),
    {
        let ghost l0 = self.lower@;
        let ghost u0 = self.upper@;
        proof {
            broadcast use vstd::seq_lib::group_to_multiset_ensures;

            vstd::seq_lib::lemma_multiset_commutative(l0, u0);
        }
        let mut removed = self.upper.remove(value);
        proof {
            if removed {
                let j = choose|j: int|
                    0 <= j < u0.len() && u0[j] == value && self.upper@ == u0.remove(j);
                broadcast use vstd::seq_lib::group_to_multiset_ensures;

                vstd::seq_lib::lemma_multiset_commutative(l0, self.upper@);
                assert((l0 + self.upper@).to_multiset() =~= (l0 + u0).to_multiset().remove(
                    value,
                )) by {
                    broadcast use vstd::multiset::group_multiset_axioms;

                    assert(u0.to_multiset().count(value) > 0) by {
                        assert(u0.contains(value));
                    }
                }
            }
        }
        if !removed {
            removed = self.lower.remove(value);
            proof {
                if removed {
                    let j = choose|j: int|
                        0 <= j < l0.len() && l0[j] == value && self.lower@ == l0.remove(j);
                    broadcast use vstd::seq_lib::group_to_multiset_ensures;

                    vstd::seq_lib::lemma_multiset_commutative(self.lower@, u0);
                    assert((self.lower@ + u0).to_multiset() =~= (l0 + u0).to_multiset().remove(
                        value,
                    )) by {
                        broadcast use vstd::multiset::group_multiset_axioms;

                        assert(l0.to_multiset().count(value) > 0) by {
                            assert(l0.contains(value));
                        }
                    }
                }
            }
        }
        proof {
            broadcast use vstd::seq_lib::group_to_multiset_ensures;

            broadcast use vstd::multiset::group_multiset_axioms;

            if !removed {
                assert(!l0.contains(value) && !u0.contains(value));
                assert(!(l0 + u0).contains(value));
                assert(!(l0 + u0).to_multiset().contains(value));
            } else {
                assert((l0 + u0).to_multiset().count(value) > 0) by {
                    vstd::seq_lib::lemma_multiset_commutative(l0, u0);
                }
            }
        }
        self.rebalance();
        removed
    }

    /// Does the set hold `value`?
    pub fn contains(&self, value: i64) -> (r: bool)
        requires
            self.wf(),
        ensures
            r == self.spec_view().contains(value),
    {
        let in_lower = self.lower.contains(value);
        let in_upper = self.upper.contains(value);
        proof {
            let s = self.spec_view();
            let ll = self.lower@.len() as int;
            if in_lower {
                let i = choose|i: int| 0 <= i < self.lower@.len() && self.lower@[i] == value;
                assert(s[i] == value);
            } else if in_upper {
                let i = choose|i: int| 0 <= i < self.upper@.len() && self.upper@[i] == value;
                assert(s[ll + i] == value);
            } else {
                if s.contains(value) {
                    let i = choose|i: int| 0 <= i < s.len() && s[i] == value;
                    if i < ll {
                        assert(self.lower@[i] == value);
                    } else {
                        assert(self.upper@[i - ll] == value);
                    }
                }
            }
        }
        in_lower || in_upper
    }

    /// Empties the set.
    pub fn clear(&mut self)
        ensures
            final(self).wf(),
            final(self).spec_len() == 0,
    {
        self.lower.clear();
        self.upper.clear();
    }

    /// The median of the sorted view.  With an odd count the first slot
    /// holds the middle element and the second is `None`; with an even
    /// count both middle elements come back; an empty set yields two
    /// `None`s.
    pub fn median(&self) -> (r: (Option<i64>, Option<i64>))
        requires
            self.wf(),
        ensures
            self.spec_len() == 0 ==> r.0 is None && r.1 is None,
            self.spec_len() > 0 ==> r.0 is Some,
            self.spec_len() > 0 ==> (self.spec_len() % 2 == 0 <==> r.1 is Some),
            self.spec_len() > 0 && self.spec_len() % 2 == 1 ==> r.0 == Some(
                self.spec_view()[(self.spec_len() - 1) as int / 2],
            ),
            self.spec_len() > 0 && self.spec_len() % 2 == 0 ==> r.0 == Some(
                self.spec_view()[self.spec_len() as int / 2 - 1],
            ) && r.1 == Some(self.spec_view()[self.spec_len() as int / 2]),
    {
        if self.lower.is_empty() && self.upper.is_empty() {
            return (None, None);
        }
        if self.lower.len() == self.upper.len() + 1 {
            proof {
                assert(self.spec_view()[(self.spec_len() - 1) as int / 2] == self.lower@.last());
            }
            (self.lower.last(), None)
        } else {
            proof {
                assert(self.spec_view()[self.spec_len() as int / 2 - 1] == self.lower@.last());
                assert(self.spec_view()[self.spec_len() as int / 2] == self.upper@[0]);
            }
            (self.lower.last(), self.upper.first())
        }
    }

    /// Is the set empty?
    pub fn is_empty(&self) -> (r: bool)
        requires
            self.wf(),
        ensures
            r == (self.spec_len() == 0),
    {
        self.len() == 0
    }

    /// The number of stored elements.
    pub fn len(&self) -> (r: usize)
        requires
            self.wf(),
        ensures
            r == self.spec_len(),
    {
        self.lower.len() + self.upper.len()
    }

    /// Restores the halves without changing the contents: the lower one
    /// keeps the median and never trails the upper one, and every lower
    /// element stays at most every upper element.
    fn rebalance(&mut self)
        requires
            old(self).lower.wf(),
            old(self).upper.wf(),
            old(self).lower@.len() <= old(self).upper@.len() + 2,
            old(self).lower@.len() + old(self).upper@.len() <= 0x4000_0000,
            forall|a: int, b: int|
                0 <= a < old(self).lower@.len() - 1 && 0 <= b < old(self).upper@.len() ==> old(
                    self,
                ).lower@[a] <= old(self).upper@[b],
        ensures
            final(self).wf(),
            final(self).spec_len() == old(self).spec_len(),
            final(self).spec_view().to_multiset() == old(self).spec_view().to_multiset(),
    {
        let ghost l0 = self.lower@;
        let ghost u0 = self.upper@;
        let ghost ms0 = (l0 + u0).to_multiset();
        proof {
            assert(old(self).upper@.len() < usize::MAX);
            broadcast use vstd::seq_lib::group_to_multiset_ensures;

            vstd::seq_lib::lemma_multiset_commutative(l0, u0);
        }
        // Move the lower maximum up, then top the lower half back up
        // until it is at least as large as the upper.
        match self.lower.pop_last() {
            Some(last) => {
                self.upper.insert(last);
                proof {
                    let l1 = self.lower@;
                    let u1 = self.upper@;
                    let j = choose|j: int| 0 <= j <= u0.len() && u1 == u0.insert(j, last);
                    assert forall|a: int, b: int|
                        0 <= a < l1.len() && 0 <= b < u1.len() implies l1[a] <= u1[b] by {
                        assert(l1[a] == l0[a]);
                        if b != j {
                            let b0: int = if b < j {
                                b
                            } else {
                                b - 1
                            };
                            assert(u1[b] == u0[b0]);
                        } else {
                            assert(l0[a] <= l0[l0.len() - 1]);
                        }
                    }
                    broadcast use vstd::seq_lib::group_to_multiset_ensures;

                    assert(l1 =~= l0.remove(l0.len() - 1));
                    assert(l1.to_multiset() == l0.to_multiset().remove(last));
                    assert(u1.to_multiset() == u0.to_multiset().insert(last));
                    assert(l1.to_multiset().add(u1.to_multiset()) =~= l0.to_multiset().add(
                        u0.to_multiset(),
                    )) by {
                        broadcast use vstd::multiset::group_multiset_axioms;

                        assert(l0.to_multiset().count(last) > 0) by {
                            assert(l0.contains(last));
                        }
                    }
                }
            },
            None => {},
        }
        while self.lower.len() < self.upper.len()
            invariant
                self.lower.wf(),
                self.upper.wf(),
                self.lower@.len() <= self.upper@.len() + 1,
                self.lower@.len() + self.upper@.len() == l0.len() + u0.len(),
                l0.len() + u0.len() <= 0x4000_0000,
                forall|a: int, b: int|
                    0 <= a < self.lower@.len() && 0 <= b < self.upper@.len()
                        ==> self.lower@[a] <= self.upper@[b],
                self.lower@.to_multiset().add(self.upper@.to_multiset()) == ms0,
            decreases self.upper@.len(),
        {
            let ghost lb = self.lower@;
            let ghost ub = self.upper@;
            match self.upper.pop_first() {
                Some(v) => {
                    self.lower.insert(v);
                    proof {
                        let l1 = self.lower@;
                        let u1 = self.upper@;
                        let j = choose|j: int| 0 <= j <= lb.len() && l1 == lb.insert(j, v);
                        assert forall|a: int, b: int|
                            0 <= a < l1.len() && 0 <= b < u1.len() implies l1[a] <= u1[b] by {
                            assert(u1[b] == ub[b + 1]);
                            assert(ub[0] <= ub[b + 1]);
                            if a != j {
                                let a0: int = if a < j {
                                    a
                                } else {
                                    a - 1
                                };
                                assert(l1[a] == lb[a0]);
                            }
                        }
                        broadcast use vstd::seq_lib::group_to_multiset_ensures;

                        assert(u1 =~= ub.remove(0));
                        assert(u1.to_multiset() == ub.to_multiset().remove(v));
                        assert(l1.to_multiset() == lb.to_multiset().insert(v));
                        assert(l1.to_multiset().add(u1.to_multiset()) =~= lb.to_multiset().add(
                            ub.to_multiset(),
                        )) by {
                            broadcast use vstd::multiset::group_multiset_axioms;

                            assert(ub.to_multiset().count(v) > 0) by {
                                assert(ub.contains(v));
                            }
                        }
                    }
                },
                None => {},
            }
        }
        proof {
            broadcast use vstd::seq_lib::group_to_multiset_ensures;

            vstd::seq_lib::lemma_multiset_commutative(self.lower@, self.upper@);
        }
    }
}

} // verus!
