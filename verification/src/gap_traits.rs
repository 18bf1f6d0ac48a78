//! Small conveniences bridging older toolchains: turning a `bool` into an
//! `Option`.

use vstd::prelude::*;

verus! {

/// Turns a `bool` into an `Option`, as the standard library does on
/// newer toolchains.
pub trait BoolToOption: Sized {
    /// `Some(t)` when the receiver holds, `None` otherwise.
    fn then_some<T>(self, t: T) -> (r: Option<T>)
        ensures
            self.spec_holds() ==> r == Some(t),
            !self.spec_holds() ==> r is None,
    ;

    /// Whether the receiver counts as true.
    spec fn spec_holds(self) -> bool;
}

impl BoolToOption for bool {
    open spec fn spec_holds(self) -> bool {
        self
    }

    fn then_some<T>(self, t: T) -> (r: Option<T>) {
        if self {
            Some(t)
        } else {
            None
        }
    }
}

} // verus!
