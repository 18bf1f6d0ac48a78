//! `SegmentTreePURQ` stands for Segment Tree Point Update Range Query:
//! interval maximum, interval minimum, interval sum and the like, over a
//! monoid chosen by the caller.
//!
//! Carried by the lazy tree with the no-op update map, so the range-query
//! contracts come from one verified core.

use vstd::prelude::*;

verus! {

use crate::lazy_segment_tree::{fold_of, LazySegMentTree, Monoid, NoUpdate};

/// A point-update / range-query segment tree over the monoid `M`.
pub struct SegmentTreePURQ<M: Monoid> {
    inner: LazySegMentTree<NoUpdate<M>>,
}

impl<M: Monoid> View for SegmentTreePURQ<M> {
    type V = Seq<M::S>;

    closed spec fn view(&self) -> Seq<M::S> {
        self.inner@
    }
}

impl<M: Monoid> SegmentTreePURQ<M> {
    /// The tree's invariant.
    pub closed spec fn wf(&self) -> bool {
        self.inner.wf()
    }

    /// The number of leaves.
    pub closed spec fn spec_len(&self) -> nat {
        self.inner.spec_len()
    }

    /// A tree of `n` leaves, all the identity element.
    pub fn new(n: usize) -> (t: Self)
        requires
            n <= usize::MAX / 4,
        ensures
            t.wf(),
            t.spec_len() == n,
            t@ == Seq::new(n as nat, |i: int| M::e()),
    {
        SegmentTreePURQ { inner: LazySegMentTree::new(n) }
    }

    /// Updates the value of the index `k` to `value`.
    pub fn update(&mut self, k: usize, value: M::S)
        requires
            old(self).wf(),
            k < old(self).spec_len(),
        ensures
            final(self).wf(),
            final(self)@ == old(self)@.update(k as int, value),
            final(self).spec_len() == old(self).spec_len(),
    {
        self.inner.set(k, value);
    }

    /// Gets the fold of the interval `[left, right)`, in index order.
    pub fn get(&mut self, left: usize, right: usize) -> (res: M::S)
        requires
            old(self).wf(),
            left < right,
            right <= old(self).spec_len(),
        ensures
            final(self).wf(),
            final(self)@ == old(self)@,
            final(self).spec_len() == old(self).spec_len(),
            res == fold_of::<M>(old(self)@.subrange(left as int, right as int)),
    {
        self.inner.prod(left, right)
    }
}

} // verus!
