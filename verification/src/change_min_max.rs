//! `chmin` / `chmax`: overwrite a slot when a candidate improves on it,
//! and report whether anything changed.

use vstd::prelude::*;

verus! {

/// Change a slot to the smaller (`chmin`) or larger (`chmax`) of itself
/// and a candidate value, reporting whether the slot changed.
pub trait ChangeMinMax<T>: Sized {
    /// Change `self` to the minimum of the two values if `value < self`.
    /// Returns whether `self` changed.
    fn chmin(&mut self, value: T) -> bool;

    /// Change `self` to the maximum of the two values if `value > self`.
    /// Returns whether `self` changed.
    fn chmax(&mut self, value: T) -> bool;
}

impl ChangeMinMax<i64> for i64 {
    fn chmin(&mut self, value: i64) -> (r: bool)
        ensures
            r == (value < *old(self)),
            *final(self) == if value < *old(self) {
                value
            } else {
                *old(self)
            },
    {
        if value < *self {
            *self = value;
            true
        } else {
            false
        }
    }

    fn chmax(&mut self, value: i64) -> (r: bool)
        ensures
            r == (value > *old(self)),
            *final(self) == if value > *old(self) {
                value
            } else {
                *old(self)
            },
    {
        if value > *self {
            *self = value;
            true
        } else {
            false
        }
    }
}

impl ChangeMinMax<u64> for u64 {
    fn chmin(&mut self, value: u64) -> (r: bool)
        ensures
            r == (value < *old(self)),
            *final(self) == if value < *old(self) {
                value
            } else {
                *old(self)
            },
    {
        if value < *self {
            *self = value;
            true
        } else {
            false
        }
    }

    fn chmax(&mut self, value: u64) -> (r: bool)
        ensures
            r == (value > *old(self)),
            *final(self) == if value > *old(self) {
                value
            } else {
                *old(self)
            },
    {
        if value > *self {
            *self = value;
            true
        } else {
            false
        }
    }
}

impl ChangeMinMax<i32> for i32 {
    fn chmin(&mut self, value: i32) -> (r: bool)
        ensures
            r == (value < *old(self)),
            *final(self) == if value < *old(self) {
                value
            } else {
                *old(self)
            },
    {
        if value < *self {
            *self = value;
            true
        } else {
            false
        }
    }

    fn chmax(&mut self, value: i32) -> (r: bool)
        ensures
            r == (value > *old(self)),
            *final(self) == if value > *old(self) {
                value
            } else {
                *old(self)
            },
    {
        if value > *self {
            *self = value;
            true
        } else {
            false
        }
    }
}

impl ChangeMinMax<usize> for usize {
    fn chmin(&mut self, value: usize) -> (r: bool)
        ensures
            r == (value < *old(self)),
            *final(self) == if value < *old(self) {
                value
            } else {
                *old(self)
            },
    {
        if value < *self {
            *self = value;
            true
        } else {
            false
        }
    }

    fn chmax(&mut self, value: usize) -> (r: bool)
        ensures
            r == (value > *old(self)),
            *final(self) == if value > *old(self) {
                value
            } else {
                *old(self)
            },
    {
        if value > *self {
            *self = value;
            true
        } else {
            false
        }
    }
}

} // verus!
