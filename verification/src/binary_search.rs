//! Lower and upper bounds on sorted slices.

use vstd::prelude::*;

verus! {

/// A slice sorted in non-decreasing order.
pub open spec fn sorted_i64(s: Seq<i64>) -> bool {
    forall|i: int, j: int| 0 <= i <= j < s.len() ==> s[i] <= s[j]
}

/// Binary searches over a sorted container.
pub trait BinarySearch<T> {
    /// The container's contents, in order.
    spec fn contents(&self) -> Seq<T>;

    /// The first index whose element is `>= x`, or `None` when every
    /// element is smaller.
    fn lower_bound(&self, x: &T) -> (r: Option<usize>)
        requires
            self.lower_req(),
        ensures
            self.lower_post(*x, r),
    ;

    spec fn lower_req(&self) -> bool;

    spec fn lower_post(&self, x: T, r: Option<usize>) -> bool;

    /// The first index whose element is `> x`, or `None` when every
    /// element is at most `x`.
    fn upper_bound(&self, x: &T) -> (r: Option<usize>)
        requires
            self.lower_req(),
        ensures
            self.upper_post(*x, r),
    ;

    spec fn upper_post(&self, x: T, r: Option<usize>) -> bool;
}

impl BinarySearch<i64> for [i64] {
    open spec fn contents(&self) -> Seq<i64> {
        self@
    }

    open spec fn lower_req(&self) -> bool {
        sorted_i64(self@)
    }

    open spec fn lower_post(&self, x: i64, r: Option<usize>) -> bool {
        match r {
            Option::None => forall|i: int| 0 <= i < self@.len() ==> self@[i] < x,
            Option::Some(p) => {
                &&& p < self@.len()
                &&& self@[p as int] >= x
                &&& forall|i: int| 0 <= i < p ==> self@[i] < x
            },
        }
    }

    open spec fn upper_post(&self, x: i64, r: Option<usize>) -> bool {
        match r {
            Option::None => forall|i: int| 0 <= i < self@.len() ==> self@[i] <= x,
            Option::Some(p) => {
                &&& p < self@.len()
                &&& self@[p as int] > x
                &&& forall|i: int| 0 <= i < p ==> self@[i] <= x
            },
        }
    }

    fn lower_bound(&self, x: &i64) -> (r: Option<usize>) {
        let mut left: usize = 0;
        let mut right: usize = self.len();
        let mut result: Option<usize> = None;
        while left < right
            invariant
                left <= right <= self@.len(),
                sorted_i64(self@),
                forall|i: int| 0 <= i < left ==> self@[i] < *x,
                forall|i: int| right <= i < self@.len() ==> self@[i] >= *x,
                result == if right == self@.len() {
                    Option::<usize>::None
                } else {
                    Option::<usize>::Some(right)
                },
            decreases right - left,
        {
            let med = left + (right - left) / 2;
            if self[med] < *x {
                left = med + 1;
            } else {
                result = Some(med);
                right = med;
            }
        }
        result
    }

    fn upper_bound(&self, x: &i64) -> (r: Option<usize>) {
        let mut left: usize = 0;
        let mut right: usize = self.len();
        let mut result: Option<usize> = None;
        while left < right
            invariant
                left <= right <= self@.len(),
                sorted_i64(self@),
                forall|i: int| 0 <= i < left ==> self@[i] <= *x,
                forall|i: int| right <= i < self@.len() ==> self@[i] > *x,
                result == if right == self@.len() {
                    Option::<usize>::None
                } else {
                    Option::<usize>::Some(right)
                },
            decreases right - left,
        {
            let med = left + (right - left) / 2;
            if self[med] <= *x {
                left = med + 1;
            } else {
                result = Some(med);
                right = med;
            }
        }
        result
    }
}

} // verus!
