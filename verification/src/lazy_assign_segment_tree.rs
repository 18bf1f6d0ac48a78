//! A segment tree with range *assignment* and range folds: `update(l, r, f)`
//! overwrites a whole interval, `prod(l, r)` folds one.
//!
//! Carried by the lazy tree with an assignment map monoid (for instance
//! [`crate::lazy_segment_tree::AssignPair`] for sums with counts, or
//! [`crate::lazy_segment_tree::AssignMax`] for maxima), so the contracts
//! come from one verified core.

use vstd::prelude::*;

verus! {

use crate::lazy_segment_tree::{fold_of, LazySegMentTree, MapMonoid, Monoid};

/// A range-assign / range-fold segment tree over the map monoid `F`.
pub struct LazyAssignSegmentTree<F: MapMonoid> {
    inner: LazySegMentTree<F>,
}

impl<F: MapMonoid> View for LazyAssignSegmentTree<F> {
    type V = Seq<<F::M as Monoid>::S>;

    closed spec fn view(&self) -> Seq<<F::M as Monoid>::S> {
        self.inner@
    }
}

impl<F: MapMonoid> LazyAssignSegmentTree<F> {
    /// The tree's invariant.
    pub closed spec fn wf(&self) -> bool {
        self.inner.wf()
    }

    /// The number of leaves.
    pub closed spec fn spec_len(&self) -> nat {
        self.inner.spec_len()
    }

    /// A tree seeded from `values`.
    pub fn new(values: Vec<<F::M as Monoid>::S>) -> (t: Self)
        requires
            values.len() >= 1,
            values.len() <= usize::MAX / 4,
        ensures
            t.wf(),
            t@ == values@,
            t.spec_len() == values.len(),
    {
        LazyAssignSegmentTree { inner: LazySegMentTree::from_vec(values) }
    }

    /// The fold of the leaves in `[l, r)`, in index order.
    pub fn prod(&mut self, l: usize, r: usize) -> (res: <F::M as Monoid>::S)
        requires
            old(self).wf(),
            l < r,
            r <= old(self).spec_len(),
        ensures
            final(self).wf(),
            final(self)@ == old(self)@,
            final(self).spec_len() == old(self).spec_len(),
            res == fold_of::<F::M>(old(self)@.subrange(l as int, r as int)),
    {
        self.inner.prod(l, r)
    }

    /// Replaces every leaf of `[l, r)` through the map `v` (an assignment
    /// under the intended instances).
    pub fn update(&mut self, l: usize, r: usize, v: F::F)
        requires
            old(self).wf(),
            l < r,
            r <= old(self).spec_len(),
        ensures
            final(self).wf(),
            final(self).spec_len() == old(self).spec_len(),
            final(self)@.len() == old(self)@.len(),
            forall|i: int|
                0 <= i < old(self)@.len() ==> final(self)@[i] == if l <= i < r {
                    F::map_spec(v, old(self)@[i])
                } else {
                    old(self)@[i]
                },
    {
        self.inner.apply_range(l, r, &v);
    }
}

} // verus!
