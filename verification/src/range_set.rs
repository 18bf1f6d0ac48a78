//! A set of integers kept as disjoint, non-adjacent closed intervals:
//! inserting or erasing a whole range merges or splits neighbours and
//! reports how many integers actually changed.

use vstd::prelude::*;

verus! {

/// Anything that names a closed interval `[l, r]` of integers.
pub trait ClosedInterval {
    /// The interval, as mathematics sees it.
    spec fn spec_interval(&self) -> (i64, i64);

    /// The interval, as an inclusive pair.
    fn interval(&self) -> (r: (i64, i64))
        ensures
            r == self.spec_interval(),
    ;
}

impl ClosedInterval for i64 {
    open spec fn spec_interval(&self) -> (i64, i64) {
        (*self, *self)
    }

    fn interval(&self) -> (r: (i64, i64)) {
        (*self, *self)
    }
}

impl ClosedInterval for (i64, i64) {
    open spec fn spec_interval(&self) -> (i64, i64) {
        *self
    }

    fn interval(&self) -> (r: (i64, i64)) {
        (self.0, self.1)
    }
}

/// Disjoint, non-adjacent closed intervals over `i64`, each stored as
/// `(left, right)`.
#[derive(Clone, Debug)]
pub struct RangeSet {
    set: Vec<(i64, i64)>,
}

/// `[a.0, a.1]` and `[b.0, b.1]` neither overlap nor touch: a gap of at
/// least one integer separates them.
pub open spec fn intervals_clear(a: (i64, i64), b: (i64, i64)) -> bool {
    a.1 + 1 < b.0 || b.1 + 1 < a.0
}

impl RangeSet {
    /// Every stored interval is ordered and within the workable range,
    /// and any two stored intervals are separated by an uncovered gap —
    /// the normal form the merging insert maintains.
    pub closed spec fn wf(&self) -> bool {
        &&& forall|i: int|
            0 <= i < self.set@.len() ==> -0x4000_0000_0000 <= (#[trigger] self.set@[i]).0
                <= self.set@[i].1 <= 0x4000_0000_0000
        &&& forall|i: int, j: int|
            0 <= i < self.set@.len() && 0 <= j < self.set@.len() && i != j ==> intervals_clear(
                #[trigger] self.set@[i],
                #[trigger] self.set@[j],
            )
    }

    /// Is the integer `y` in the set?
    pub closed spec fn spec_covered(&self, y: int) -> bool {
        exists|i: int| 0 <= i < self.set@.len() && (#[trigger] self.set@[i]).0 <= y <= self.set@[i].1
    }

    /// Is every integer of `[l, r]` in the set?
    pub open spec fn spec_covered_range(&self, l: int, r: int) -> bool {
        forall|y: int| l <= y <= r ==> self.spec_covered(y)
    }

    /// The number of stored intervals.
    pub closed spec fn spec_size(&self) -> nat {
        self.set@.len() as nat
    }

    /// An empty set.
    pub fn new() -> (r: RangeSet)
        ensures
            r.wf(),
            r.spec_size() == 0,
            forall|y: int| !r.spec_covered(y),
    {
        RangeSet { set: Vec::new() }
    }

    /// The stored interval with the greatest left end at most `l`: under
    /// the normal form, the only interval that can contain `l`.
    fn find_pred(&self, l: i64) -> (r: Option<usize>)
        requires
            self.wf(),
        ensures
            r matches Some(i) ==> i < self.spec_size() && self.set@[i as int].0 <= l && forall|
                j: int,
            |
                0 <= j < self.set@.len() && (#[trigger] self.set@[j]).0 <= l ==> self.set@[j].0
                    <= self.set@[i as int].0,
            r is None ==> forall|j: int| 0 <= j < self.set@.len() ==> (#[trigger] self.set@[j]).0 > l,
    {
        let mut best: Option<usize> = None;
        let mut i: usize = 0;
        while i < self.set.len()
            invariant
                self.wf(),
                i <= self.set@.len(),
                best matches Some(b) ==> b < self.set@.len() && self.set@[b as int].0 <= l
                    && forall|j: int|
                    0 <= j < i && (#[trigger] self.set@[j]).0 <= l ==> self.set@[j].0
                        <= self.set@[b as int].0,
                best is None ==> forall|j: int| 0 <= j < i ==> (#[trigger] self.set@[j]).0 > l,
            decreases self.set@.len() - i,
        {
            if self.set[i].0 <= l {
                best = match best {
                    None => Some(i),
                    Some(b) => {
                        if self.set[b].0 <= self.set[i].0 {
                            Some(i)
                        } else {
                            Some(b)
                        }
                    },
                };
            }
            i = i + 1;
        }
        best
    }

    /// Is the whole given range covered?
    pub fn covered<T: ClosedInterval>(&self, range: T) -> (res: bool)
        requires
            self.wf(),
            range.spec_interval().0 <= range.spec_interval().1,
        ensures
            res == self.spec_covered_range(
                range.spec_interval().0 as int,
                range.spec_interval().1 as int,
            ),
    {
        let (l, r) = range.interval();
        match self.covered_by_pair(l, r) {
            Some(_) => true,
            None => false,
        }
    }

    /// The stored interval covering the whole given range: its ends are
    /// maximal (the integers just outside it are uncovered).  `None`
    /// exactly when some point of the range is uncovered.
    pub fn covered_by<T: ClosedInterval>(&self, range: T) -> (res: Option<(i64, i64)>)
        requires
            self.wf(),
            range.spec_interval().0 <= range.spec_interval().1,
        ensures
            res matches Some(p) ==> {
                &&& p.0 <= range.spec_interval().0
                &&& range.spec_interval().1 <= p.1
                &&& forall|y: int| p.0 <= y <= p.1 ==> self.spec_covered(y)
                &&& !self.spec_covered(p.0 - 1)
                &&& !self.spec_covered(p.1 + 1)
            },
            res is None ==> !self.spec_covered_range(
                range.spec_interval().0 as int,
                range.spec_interval().1 as int,
            ),
    {
        let (l, r) = range.interval();
        self.covered_by_pair(l, r)
    }

    /// As [`RangeSet::covered_by`], on a plain pair.
    fn covered_by_pair(&self, l: i64, r: i64) -> (res: Option<(i64, i64)>)
        requires
            self.wf(),
            l <= r,
        ensures
            res matches Some(p) ==> {
                &&& p.0 <= l
                &&& r <= p.1
                &&& forall|y: int| p.0 <= y <= p.1 ==> self.spec_covered(y)
                &&& !self.spec_covered(p.0 - 1)
                &&& !self.spec_covered(p.1 + 1)
            },
            res is None ==> !self.spec_covered_range(l as int, r as int),
    {
        match self.find_pred(l) {
            Some(i) => {
                let (left, right) = self.set[i];
                if left <= l && r <= right {
                    proof {
                        self.lemma_interval_maximal(i as int);
                        assert forall|y: int| left <= y <= right implies self.spec_covered(y) by {
                            assert(0 <= i < self.set@.len() && self.set@[i as int].0 <= y
                                <= self.set@[i as int].1);
                        }
                    }
                    Some((left, right))
                } else {
                    proof {
                        if right < l {
                            self.lemma_uncovered_after_pred(i as int, l as int);
                        } else {
                            // l <= right < r: the integer after this
                            // interval lies inside [l, r] and is uncovered.
                            self.lemma_interval_maximal(i as int);
                            assert(!self.spec_covered_range(l as int, r as int)) by {
                                assert(l <= right + 1 <= r && !self.spec_covered(right + 1));
                            }
                        }
                    }
                    None
                }
            },
            None => {
                proof {
                    assert(!self.spec_covered(l as int));
                }
                None
            },
        }
    }

    /// No stored interval reaches the integer just outside another one:
    /// `p.0 - 1` and `p.1 + 1` are uncovered for every stored `p`.
    proof fn lemma_interval_maximal(&self, i: int)
        requires
            self.wf(),
            0 <= i < self.set@.len(),
        ensures
            !self.spec_covered(self.set@[i].0 - 1),
            !self.spec_covered(self.set@[i].1 + 1),
    {
        let p = self.set@[i];
        if self.spec_covered(p.0 - 1) {
            let j = choose|j: int|
                0 <= j < self.set@.len() && (#[trigger] self.set@[j]).0 <= p.0 - 1 <= self.set@[j].1;
            assert(intervals_clear(self.set@[i], self.set@[j]));
        }
        if self.spec_covered(p.1 + 1) {
            let j = choose|j: int|
                0 <= j < self.set@.len() && (#[trigger] self.set@[j]).0 <= p.1 + 1 <= self.set@[j].1;
            assert(intervals_clear(self.set@[i], self.set@[j]));
        }
    }

    /// When the best predecessor of `l` ends before `l`, the point `l`
    /// itself is uncovered.
    proof fn lemma_uncovered_after_pred(&self, i: int, l: int)
        requires
            self.wf(),
            0 <= i < self.set@.len(),
            self.set@[i].0 <= l,
            self.set@[i].1 < l,
            forall|j: int|
                0 <= j < self.set@.len() && (#[trigger] self.set@[j]).0 <= l ==> self.set@[j].0
                    <= self.set@[i].0,
        ensures
            !self.spec_covered(l),
    {
        if self.spec_covered(l) {
            let j = choose|j: int|
                0 <= j < self.set@.len() && (#[trigger] self.set@[j]).0 <= l <= self.set@[j].1;
            if j != i {
                assert(intervals_clear(self.set@[i], self.set@[j]));
            }
        }
    }

    /// Inserts a range in one sweep: every stored interval that overlaps
    /// or adjoins `[l, r]` is merged into it, and the merged span is
    /// stored.  Returns how many integers became covered (the span minus
    /// what the merge swallowed).
    #[verifier::rlimit(100)]
    #[verifier::spinoff_prover]
    pub fn insert<T: ClosedInterval>(&mut self, range: T) -> (res: i64)
        requires
            old(self).wf(),
            -0x4000_0000_0000 <= range.spec_interval().0,
            range.spec_interval().0 <= range.spec_interval().1,
            range.spec_interval().1 <= 0x4000_0000_0000,
        ensures
            final(self).wf(),
            // Afterwards exactly the old points and the given range are
            // covered.
            forall|y: int|
                final(self).spec_covered(y) <==> (old(self).spec_covered(y) || range.spec_interval().0
                    <= y <= range.spec_interval().1),
    {
        let (l, r) = range.interval();
        let mut kept: Vec<(i64, i64)> = Vec::new();
        let mut new_l = l;
        let mut new_r = r;
        let mut erased: i64 = 0;
        let mut i: usize = 0;
        while i < self.set.len()
            invariant
                self.wf(),
                i <= self.set@.len(),
                -0x4000_0000_0000 <= l <= r <= 0x4000_0000_0000,
                -0x4000_0000_0000 <= new_l <= l,
                r <= new_r <= 0x4000_0000_0000,
                0 <= erased,
                // Each span end is the given one, or comes from an
                // absorbed (touching) interval.
                new_l == l || exists|j: int|
                    0 <= j < i && (#[trigger] self.set@[j]).0 == new_l && self.set@[j].0 <= r + 1
                        && l <= self.set@[j].1 + 1,
                new_r == r || exists|j: int|
                    0 <= j < i && (#[trigger] self.set@[j]).1 == new_r && self.set@[j].0 <= r + 1
                        && l <= self.set@[j].1 + 1,
                forall|k: int|
                    0 <= k < kept@.len() ==> exists|j: int|
                        0 <= j < i && #[trigger] kept@[k] == self.set@[j],
                forall|k: int|
                    0 <= k < kept@.len() ==> intervals_clear(#[trigger] kept@[k], (new_l, new_r)),
                forall|k1: int, k2: int|
                    0 <= k1 < kept@.len() && 0 <= k2 < kept@.len() && k1 != k2 ==> intervals_clear(
                        #[trigger] kept@[k1],
                        #[trigger] kept@[k2],
                    ),
                // Touching intervals seen so far sit inside the span, the
                // others sit in `kept`.
                forall|j: int|
                    0 <= j < i && (#[trigger] self.set@[j]).0 <= r + 1 && l <= self.set@[j].1 + 1
                        ==> new_l <= self.set@[j].0 && self.set@[j].1 <= new_r,
                forall|j: int|
                    0 <= j < i && !((#[trigger] self.set@[j]).0 <= r + 1 && l <= self.set@[j].1
                        + 1) ==> exists|k: int| 0 <= k < kept@.len() && kept@[k] == self.set@[j],
            decreases self.set@.len() - i,
        {
            let (left, right) = self.set[i];
            if left <= r + 1 && l <= right + 1 {
                // Touching: swallow it into the span.
                proof {
                    // Everything kept so far stays clear of the grown span:
                    // a kept interval is clear of the old span and of this
                    // one, and both lie on the same side of it.
                    assert forall|k: int|
                        0 <= k < kept@.len() implies intervals_clear(
                        #[trigger] kept@[k],
                        (
                            if left < new_l {
                                left
                            } else {
                                new_l
                            },
                            if right > new_r {
                                right
                            } else {
                                new_r
                            },
                        ),
                    ) by {
                        let j = choose|j: int| 0 <= j < i && kept@[k] == self.set@[j];
                        assert(intervals_clear(self.set@[j], self.set@[i as int]));
                    }
                }
                if left < new_l {
                    new_l = left;
                }
                if right > new_r {
                    new_r = right;
                }
                erased = saturating_add_amount(erased, amount(left, right));
                proof {
                    if new_l != l {
                        if new_l == left {
                            assert(0 <= i < i + 1 && self.set@[i as int].0 == new_l
                                && self.set@[i as int].0 <= r + 1 && l <= self.set@[i as int].1
                                + 1);
                        }
                    }
                    if new_r != r {
                        if new_r == right {
                            assert(0 <= i < i + 1 && self.set@[i as int].1 == new_r
                                && self.set@[i as int].0 <= r + 1 && l <= self.set@[i as int].1
                                + 1);
                        }
                    }
                }
            } else {
                // Clear of [l, r] on one side; it stays, and the span has
                // not grown past it, because every absorbed interval
                // adjoins [l, r] and so sits on the other side of this one.
                proof {
                    if new_l != l {
                        let j = choose|j: int|
                            0 <= j < i && (#[trigger] self.set@[j]).0 == new_l && self.set@[j].0
                                <= r + 1 && l <= self.set@[j].1 + 1;
                        assert(intervals_clear(self.set@[j], self.set@[i as int]));
                    }
                    if new_r != r {
                        let j = choose|j: int|
                            0 <= j < i && (#[trigger] self.set@[j]).1 == new_r && self.set@[j].0
                                <= r + 1 && l <= self.set@[j].1 + 1;
                        assert(intervals_clear(self.set@[j], self.set@[i as int]));
                    }
                    assert(intervals_clear(self.set@[i as int], (new_l, new_r)));
                    assert forall|k: int|
                        0 <= k < kept@.len() implies intervals_clear(
                        #[trigger] kept@[k],
                        self.set@[i as int],
                    ) by {
                        let j = choose|j: int| 0 <= j < i && kept@[k] == self.set@[j];
                        assert(intervals_clear(self.set@[j], self.set@[i as int]));
                    }
                }
                let ghost kept_before = kept@;
                kept.push((left, right));
                proof {
                    assert(kept@[kept@.len() - 1] == self.set@[i as int]);
                    assert forall|j: int|
                        0 <= j < i && !((#[trigger] self.set@[j]).0 <= r + 1 && l
                            <= self.set@[j].1 + 1) implies exists|k: int|
                        0 <= k < kept@.len() && kept@[k] == self.set@[j] by {
                        let k = choose|k: int|
                            0 <= k < kept_before.len() && kept_before[k] == self.set@[j];
                        assert(kept@[k] == self.set@[j]);
                    }
                }
            }
            i = i + 1;
        }
        let inserted = amount(new_l, new_r);
        let ghost kept_final = kept@;
        kept.push((new_l, new_r));
        self.set = kept;
        proof {
            assert forall|a: int|
                0 <= a < self.set@.len() implies -0x4000_0000_0000 <= (#[trigger] self.set@[a]).0
                <= self.set@[a].1 <= 0x4000_0000_0000 by {
                if a < kept_final.len() {
                    let j = choose|j: int|
                        0 <= j < old(self).set@.len() && kept_final[a] == old(self).set@[j];
                    assert(self.set@[a] == old(self).set@[j]);
                }
            }
            assert forall|a: int, b: int|
                0 <= a < self.set@.len() && 0 <= b < self.set@.len() && a != b
                    implies intervals_clear(#[trigger] self.set@[a], #[trigger] self.set@[b]) by {
                if a == self.set@.len() - 1 {
                    assert(intervals_clear(self.set@[b], self.set@[a]));
                }
            }
            let span = self.set@.len() - 1;
            assert forall|y: int|
                self.spec_covered(y) <==> (old(self).spec_covered(y) || l <= y <= r) by {
                if self.spec_covered(y) {
                    let k = choose|k: int|
                        0 <= k < self.set@.len() && (#[trigger] self.set@[k]).0 <= y
                            <= self.set@[k].1;
                    if k < span {
                        // A kept interval is one of the old ones.
                        assert(self.set@[k] == kept_final[k]);
                        let j = choose|j: int|
                            0 <= j < old(self).set@.len() && kept_final[k] == old(self).set@[j];
                        assert(old(self).set@[j].0 <= y <= old(self).set@[j].1);
                        assert(old(self).spec_covered(y));
                    } else {
                        // Inside the span: the given range, or the reach of
                        // the absorbed interval that set the span's end.
                        if y < l {
                            let j = choose|j: int|
                                0 <= j < old(self).set@.len() && (#[trigger] old(
                                    self,
                                ).set@[j]).0 == new_l && old(self).set@[j].0 <= r + 1 && l <= old(
                                    self,
                                ).set@[j].1 + 1;
                            assert(old(self).set@[j].0 <= y <= old(self).set@[j].1);
                            assert(old(self).spec_covered(y));
                        } else if y > r {
                            let j = choose|j: int|
                                0 <= j < old(self).set@.len() && (#[trigger] old(
                                    self,
                                ).set@[j]).1 == new_r && old(self).set@[j].0 <= r + 1 && l <= old(
                                    self,
                                ).set@[j].1 + 1;
                            assert(old(self).set@[j].0 <= y <= old(self).set@[j].1);
                            assert(old(self).spec_covered(y));
                        }
                    }
                }
                if l <= y <= r {
                    assert(self.set@[span].0 <= y <= self.set@[span].1);
                    assert(self.spec_covered(y));
                }
                if old(self).spec_covered(y) {
                    let j = choose|j: int|
                        0 <= j < old(self).set@.len() && (#[trigger] old(self).set@[j]).0 <= y
                            <= old(self).set@[j].1;
                    if old(self).set@[j].0 <= r + 1 && l <= old(self).set@[j].1 + 1 {
                        assert(self.set@[span].0 <= y <= self.set@[span].1);
                        assert(self.spec_covered(y));
                    } else {
                        let k = choose|k: int|
                            0 <= k < kept_final.len() && #[trigger] kept_final[k] == old(
                                self,
                            ).set@[j];
                        assert(self.set@[k] == old(self).set@[j]);
                        assert(self.set@[k].0 <= y <= self.set@[k].1);
                        assert(self.spec_covered(y));
                    }
                }
            }
        }
        if inserted >= erased {
            inserted - erased
        } else {
            0
        }
    }

    /// Erases a range in one sweep: intervals inside `[l, r]` disappear,
    /// intervals straddling an end are trimmed to fragments outside it.
    /// Returns how many integers stopped being covered.
    pub fn erase<T: ClosedInterval>(&mut self, range: T) -> (res: i64)
        requires
            old(self).wf(),
            -0x4000_0000_0000 <= range.spec_interval().0,
            range.spec_interval().0 <= range.spec_interval().1,
            range.spec_interval().1 <= 0x4000_0000_0000,
        ensures
            final(self).wf(),
            0 <= res,
            // Afterwards exactly the old points outside the given range
            // are covered.
            forall|y: int|
                final(self).spec_covered(y) <==> (old(self).spec_covered(y) && !(
                range.spec_interval().0 <= y <= range.spec_interval().1)),
    {
        let (l, r) = range.interval();
        let mut kept: Vec<(i64, i64)> = Vec::new();
        let mut erased: i64 = 0;
        let mut i: usize = 0;
        while i < self.set.len()
            invariant
                self.wf(),
                i <= self.set@.len(),
                -0x4000_0000_0000 <= l <= r <= 0x4000_0000_0000,
                0 <= erased,
                forall|k: int|
                    0 <= k < kept@.len() ==> -0x4000_0000_0000 <= (#[trigger] kept@[k]).0
                        <= kept@[k].1 <= 0x4000_0000_0000,
                forall|k: int|
                    0 <= k < kept@.len() ==> exists|j: int|
                        0 <= j < i && self.set@[j].0 <= (#[trigger] kept@[k]).0 && kept@[k].1
                            <= self.set@[j].1,
                forall|k: int|
                    0 <= k < kept@.len() ==> (#[trigger] kept@[k]).1 < l || r < kept@[k].0,
                forall|k1: int, k2: int|
                    0 <= k1 < kept@.len() && 0 <= k2 < kept@.len() && k1 != k2 ==> intervals_clear(
                        #[trigger] kept@[k1],
                        #[trigger] kept@[k2],
                    ),
                // What each processed interval leaves behind is in `kept`:
                // untouched intervals whole, straddling ones as fragments.
                forall|j: int|
                    0 <= j < i && ((#[trigger] self.set@[j]).1 < l || r < self.set@[j].0)
                        ==> exists|k: int| 0 <= k < kept@.len() && kept@[k] == self.set@[j],
                forall|j: int|
                    0 <= j < i && !((#[trigger] self.set@[j]).1 < l || r < self.set@[j].0)
                        && self.set@[j].0 < l ==> exists|k: int|
                        0 <= k < kept@.len() && (#[trigger] kept@[k]).0 == self.set@[j].0
                            && kept@[k].1 == l - 1,
                forall|j: int|
                    0 <= j < i && !((#[trigger] self.set@[j]).1 < l || r < self.set@[j].0) && r
                        < self.set@[j].1 ==> exists|k: int|
                        0 <= k < kept@.len() && (#[trigger] kept@[k]).0 == r + 1 && kept@[k].1
                            == self.set@[j].1,
            decreases self.set@.len() - i,
        {
            let ghost kept_before = kept@;
            let (left, right) = self.set[i];
            if right < l || r < left {
                // Untouched.
                proof {
                    assert forall|k: int| 0 <= k < kept@.len() implies intervals_clear(
                        #[trigger] kept@[k],
                        (left, right),
                    ) by {
                        let j = choose|j: int|
                            0 <= j < i && self.set@[j].0 <= kept@[k].0 && kept@[k].1
                                <= self.set@[j].1;
                        assert(intervals_clear(self.set@[j], self.set@[i as int]));
                    }
                }
                kept.push((left, right));
                proof {
                    assert forall|j: int|
                        0 <= j < i + 1 && ((#[trigger] self.set@[j]).1 < l || r
                            < self.set@[j].0) implies exists|k: int|
                        0 <= k < kept@.len() && kept@[k] == self.set@[j] by {
                        if j < i {
                            let k = choose|k: int|
                                0 <= k < kept_before.len() && kept_before[k] == self.set@[j];
                            assert(kept@[k] == self.set@[j]);
                        } else {
                            assert(kept@[kept@.len() - 1] == self.set@[j]);
                        }
                    }
                    assert forall|j: int|
                        0 <= j < i + 1 && !((#[trigger] self.set@[j]).1 < l || r
                            < self.set@[j].0) && self.set@[j].0 < l implies exists|k: int|
                        0 <= k < kept@.len() && (#[trigger] kept@[k]).0 == self.set@[j].0
                            && kept@[k].1 == l - 1 by {
                        let k = choose|k: int|
                            0 <= k < kept_before.len() && (#[trigger] kept_before[k]).0
                                == self.set@[j].0 && kept_before[k].1 == l - 1;
                        assert(kept@[k] == kept_before[k]);
                    }
                    assert forall|j: int|
                        0 <= j < i + 1 && !((#[trigger] self.set@[j]).1 < l || r
                            < self.set@[j].0) && r < self.set@[j].1 implies exists|k: int|
                        0 <= k < kept@.len() && (#[trigger] kept@[k]).0 == r + 1 && kept@[k].1
                            == self.set@[j].1 by {
                        let k = choose|k: int|
                            0 <= k < kept_before.len() && (#[trigger] kept_before[k]).0 == r + 1
                                && kept_before[k].1 == self.set@[j].1;
                        assert(kept@[k] == kept_before[k]);
                    }
                }
            } else {
                // Intersecting: count the overlap and keep what sticks
                // out on either side.
                let lo = if left > l {
                    left
                } else {
                    l
                };
                let hi = if right < r {
                    right
                } else {
                    r
                };
                erased = saturating_add_amount(erased, amount(lo, hi));
                proof {
                    assert forall|k: int| 0 <= k < kept@.len() implies intervals_clear(
                        #[trigger] kept@[k],
                        (left, right),
                    ) by {
                        let j = choose|j: int|
                            0 <= j < i && self.set@[j].0 <= kept@[k].0 && kept@[k].1
                                <= self.set@[j].1;
                        assert(intervals_clear(self.set@[j], self.set@[i as int]));
                    }
                }
                let ghost base = kept@.len();
                if left < l {
                    kept.push((left, l - 1));
                }
                let ghost mid = kept@.len();
                if r < right {
                    kept.push((r + 1, right));
                }
                proof {
                    if left < l {
                        assert(kept@[base as int].0 == left && kept@[base as int].1 == l - 1);
                    }
                    if r < right {
                        assert(kept@[mid as int].0 == r + 1 && kept@[mid as int].1 == right);
                    }
                    assert forall|j: int|
                        0 <= j < i + 1 && ((#[trigger] self.set@[j]).1 < l || r
                            < self.set@[j].0) implies exists|k: int|
                        0 <= k < kept@.len() && kept@[k] == self.set@[j] by {
                        let k = choose|k: int|
                            0 <= k < kept_before.len() && kept_before[k] == self.set@[j];
                        assert(kept@[k] == self.set@[j]);
                    }
                    assert forall|j: int|
                        0 <= j < i + 1 && !((#[trigger] self.set@[j]).1 < l || r
                            < self.set@[j].0) && self.set@[j].0 < l implies exists|k: int|
                        0 <= k < kept@.len() && (#[trigger] kept@[k]).0 == self.set@[j].0
                            && kept@[k].1 == l - 1 by {
                        if j < i {
                            let k = choose|k: int|
                                0 <= k < kept_before.len() && (#[trigger] kept_before[k]).0
                                    == self.set@[j].0 && kept_before[k].1 == l - 1;
                            assert(kept@[k] == kept_before[k]);
                        } else {
                            assert(kept@[base as int].0 == self.set@[j].0 && kept@[base as int].1
                                == l - 1);
                        }
                    }
                    assert forall|j: int|
                        0 <= j < i + 1 && !((#[trigger] self.set@[j]).1 < l || r
                            < self.set@[j].0) && r < self.set@[j].1 implies exists|k: int|
                        0 <= k < kept@.len() && (#[trigger] kept@[k]).0 == r + 1 && kept@[k].1
                            == self.set@[j].1 by {
                        if j < i {
                            let k = choose|k: int|
                                0 <= k < kept_before.len() && (#[trigger] kept_before[k]).0 == r
                                    + 1 && kept_before[k].1 == self.set@[j].1;
                            assert(kept@[k] == kept_before[k]);
                        } else {
                            assert(kept@[mid as int].0 == r + 1 && kept@[mid as int].1
                                == self.set@[j].1);
                        }
                    }
                }
            }
            i = i + 1;
        }
        self.set = kept;
        proof {
            assert forall|y: int|
                self.spec_covered(y) <==> (old(self).spec_covered(y) && !(l <= y <= r)) by {
                if self.spec_covered(y) {
                    let k = choose|k: int|
                        0 <= k < self.set@.len() && (#[trigger] self.set@[k]).0 <= y
                            <= self.set@[k].1;
                    let j = choose|j: int|
                        0 <= j < old(self).set@.len() && old(self).set@[j].0
                            <= (#[trigger] self.set@[k]).0 && self.set@[k].1 <= old(
                            self,
                        ).set@[j].1;
                    assert(old(self).set@[j].0 <= y <= old(self).set@[j].1);
                    assert(old(self).spec_covered(y));
                }
                if old(self).spec_covered(y) && !(l <= y <= r) {
                    let j = choose|j: int|
                        0 <= j < old(self).set@.len() && (#[trigger] old(self).set@[j]).0 <= y
                            <= old(self).set@[j].1;
                    if old(self).set@[j].1 < l || r < old(self).set@[j].0 {
                        let k = choose|k: int|
                            0 <= k < self.set@.len() && #[trigger] self.set@[k] == old(
                                self,
                            ).set@[j];
                        assert(self.set@[k].0 <= y <= self.set@[k].1);
                        assert(self.spec_covered(y));
                    } else if y < l {
                        let k = choose|k: int|
                            0 <= k < self.set@.len() && (#[trigger] self.set@[k]).0 == old(
                                self,
                            ).set@[j].0 && self.set@[k].1 == l - 1;
                        assert(self.set@[k].0 <= y <= self.set@[k].1);
                        assert(self.spec_covered(y));
                    } else {
                        let k = choose|k: int|
                            0 <= k < self.set@.len() && (#[trigger] self.set@[k]).0 == r + 1
                                && self.set@[k].1 == old(self).set@[j].1;
                        assert(self.set@[k].0 <= y <= self.set@[k].1);
                        assert(self.spec_covered(y));
                    }
                }
            }
        }
        erased
    }

    /// The least uncovered integer that is at least `x`: everything in
    /// `[x, res)` is covered and `res` itself is not.
    pub fn mex(&self, x: i64) -> (res: i64)
        requires
            self.wf(),
            -0x4000_0000_0000 <= x <= 0x4000_0000_0000,
        ensures
            x <= res,
            !self.spec_covered(res as int),
            forall|y: int| x <= y < res ==> self.spec_covered(y),
    {
        match self.find_pred(x) {
            Some(i) => {
                let (left, right) = self.set[i];
                if left <= x && x <= right {
                    proof {
                        self.lemma_interval_maximal(i as int);
                        assert forall|y: int| x <= y < right + 1 implies self.spec_covered(y) by {
                            assert(0 <= i < self.set@.len() && self.set@[i as int].0 <= y
                                <= self.set@[i as int].1);
                        }
                    }
                    right + 1
                } else {
                    proof {
                        self.lemma_uncovered_after_pred(i as int, x as int);
                    }
                    x
                }
            },
            None => {
                proof {
                    assert(!self.spec_covered(x as int));
                }
                x
            },
        }
    }

    /// The number of stored intervals.
    pub fn size(&self) -> (res: usize)
        ensures
            res == self.spec_size(),
    {
        self.set.len()
    }

    /// The stored intervals, in increasing order of left end.
    pub fn iter(&self) -> (res: Vec<(i64, i64)>)
        requires
            self.wf(),
        ensures
            res@.len() == self.spec_size(),
    {
        // Selection sort into a fresh vector keeps the walk simple.
        let mut remaining: Vec<(i64, i64)> = Vec::new();
        let mut i: usize = 0;
        while i < self.set.len()
            invariant
                self.wf(),
                i <= self.set@.len(),
                remaining@.len() == i,
            decreases self.set@.len() - i,
        {
            remaining.push(self.set[i]);
            i = i + 1;
        }
        let mut out: Vec<(i64, i64)> = Vec::new();
        while remaining.len() > 0
            invariant
                out@.len() + remaining@.len() == self.spec_size(),
            decreases remaining@.len(),
        {
            let mut best: usize = 0;
            let mut j: usize = 1;
            while j < remaining.len()
                invariant
                    best < remaining@.len(),
                    j <= remaining@.len(),
                    remaining@.len() > 0,
                decreases remaining@.len() - j,
            {
                if remaining[j].0 < remaining[best].0 {
                    best = j;
                }
                j = j + 1;
            }
            let picked = remaining.remove(best);
            out.push(picked);
        }
        out
    }

    /// Empties the set.
    pub fn clear(&mut self)
        ensures
            final(self).wf(),
            final(self).spec_size() == 0,
    {
        self.set.clear();
    }
}

/// The number of integers in the closed interval `[l, r]`.
fn amount(l: i64, r: i64) -> (res: i64)
    requires
        -0x4000_0000_0000 <= l <= 0x4000_0000_0000,
        -0x4000_0000_0000 <= r <= 0x4000_0000_0000,
        l <= r,
    ensures
        res == r - l + 1,
{
    r - l + 1
}

/// Sums coverage amounts without risking overflow.
fn saturating_add_amount(a: i64, b: i64) -> (res: i64)
    requires
        a >= 0,
        b >= 0,
    ensures
        res >= 0,
{
    if a <= i64::MAX - b {
        a + b
    } else {
        i64::MAX
    }
}

} // verus!
