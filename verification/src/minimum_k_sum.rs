//! A bag that tracks the sum of its `k` smallest elements, over an
//! ordered multiset.

use vstd::prelude::*;

verus! {

use crate::btree_multiset::BTreeMultiSet;

/// The wrapping sum of a sequence's prefix of length `n`.
pub open spec fn wsum_prefix(s: Seq<i64>, n: int) -> i64
    decreases n,
{
    if n <= 0 {
        0
    } else {
        vstd::wrapping::i64_specs::wrapping_add(wsum_prefix(s, n - 1), s[n - 1])
    }
}

/// A bag of integers answering "the sum of my `k` smallest members", kept
/// as one ordered multiset and summed on demand.
pub struct MinimumKSum {
    items: BTreeMultiSet,
    k: usize,
}

impl MinimumKSum {
    /// The stored items are ordered.
    pub closed spec fn wf(&self) -> bool {
        self.items.wf()
    }

    /// The stored items, in order.
    pub closed spec fn spec_items(&self) -> Seq<i64> {
        self.items@
    }

    /// The current `k`.
    pub closed spec fn spec_k(&self) -> nat {
        self.k as nat
    }

    /// The stored items are sorted, so the summed prefix really is the
    /// `k` smallest, counting multiplicity.
    pub proof fn lemma_items_sorted(&self)
        requires
            self.wf(),
        ensures
            crate::binary_search::sorted_i64(self.spec_items()),
    {
    }

    /// An empty bag tracking the `k` smallest.
    pub fn new(k: usize) -> (r: MinimumKSum)
        ensures
            r.wf(),
            r.spec_items().len() == 0,
            r.spec_k() == k,
    {
        MinimumKSum { items: BTreeMultiSet::new(), k }
    }

    /// The wrapping sum of the `k` smallest elements (all of them when
    /// fewer than `k` are stored).
    pub fn sum(&self) -> (r: i64)
        requires
            self.wf(),
        ensures
            r == wsum_prefix(
                self.spec_items(),
                if self.spec_k() <= self.spec_items().len() {
                    self.spec_k() as int
                } else {
                    self.spec_items().len() as int
                },
            ),
    {
        let all = self.items.iter();
        let upto = if self.k <= all.len() {
            self.k
        } else {
            all.len()
        };
        let mut acc: i64 = 0;
        let mut i: usize = 0;
        while i < upto
            invariant
                i <= upto,
                upto <= all.len(),
                all@ == self.spec_items(),
                acc == wsum_prefix(self.spec_items(), i as int),
            decreases upto - i,
        {
            acc = acc.wrapping_add(all[i]);
            i = i + 1;
        }
        acc
    }

    /// Adds `x` to the bag.
    pub fn push(&mut self, x: i64)
        requires
            old(self).wf(),
            old(self).spec_items().len() < usize::MAX,
        ensures
            final(self).wf(),
            final(self).spec_items().len() == old(self).spec_items().len() + 1,
            final(self).spec_k() == old(self).spec_k(),
            exists|j: int|
                0 <= j <= old(self).spec_items().len()
                    && final(self).spec_items() == old(self).spec_items().insert(j, x),
    {
        self.items.insert(x);
    }

    /// Removes one occurrence of `x`; `x` should be in the bag, and the
    /// call reports whether it was.
    pub fn erase(&mut self, x: i64) -> (r: bool)
        requires
            old(self).wf(),
        ensures
            final(self).wf(),
            final(self).spec_k() == old(self).spec_k(),
            r ==> exists|j: int|
                0 <= j < old(self).spec_items().len() && old(self).spec_items()[j] == x
                    && final(self).spec_items() == old(self).spec_items().remove(j),
            !r ==> final(self).spec_items() == old(self).spec_items(),
    {
        let hit = self.items.remove(x);
        proof {
            if hit {
                let j = choose|j: int|
                    0 <= j < old(self).items@.len() && old(self).items@[j] == x && self.items@
                        == old(self).items@.remove(j);
                assert(0 <= j < old(self).spec_items().len() && old(self).spec_items()[j] == x
                    && self.spec_items() == old(self).spec_items().remove(j));
            }
        }
        hit
    }

    /// Changes `k`.
    pub fn set_k(&mut self, k: usize)
        requires
            old(self).wf(),
        ensures
            final(self).wf(),
            final(self).spec_k() == k,
            final(self).spec_items() == old(self).spec_items(),
    {
        self.k = k;
    }

    /// The current `k`.
    pub fn k(&self) -> (r: usize)
        ensures
            r == self.spec_k(),
    {
        self.k
    }

    /// The number of stored elements.
    pub fn size(&self) -> (r: usize)
        ensures
            r == self.spec_items().len(),
    {
        self.items.len()
    }

    /// Is the bag empty?
    pub fn is_empty(&self) -> (r: bool)
        ensures
            r == (self.spec_items().len() == 0),
    {
        self.size() == 0
    }
}

} // verus!
