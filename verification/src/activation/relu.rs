//! The rectifier.
use vstd::prelude::*;

verus! {

/// Whether `y` is what a rectifier gives at `x`: `on` where `gt` says that
/// `x` is greater than `zero`, and `zero` where it says that it is not. A
/// unit at exactly zero is therefore inactive.
pub open spec fn rectifies<T, F: Fn(T, T) -> bool>(gt: F, x: T, zero: T, on: T, y: T) -> bool {
    exists|active: bool|
        {
            &&& #[trigger] call_ensures(gt, (x, zero), active)
            &&& y == if active {
                on
            } else {
                zero
            }
        }
}

/// The rectifier: the positive part of its input.
pub struct Relu;

impl Relu {
    /// `x` where it is greater than `zero`, else `zero`.
    pub fn func<T: Copy, F: Fn(T, T) -> bool>(x: T, zero: T, gt: F) -> (y: T)
        requires
            call_requires(gt, (x, zero)),
        ensures
            rectifies(gt, x, zero, x, y),
    {
        let active = gt(x, zero);
        if active {
            x
        } else {
            zero
        }
    }

    /// The slope at the pre-activation `x`: `one` where `x` is greater than
    /// `zero`, else `zero`.
    pub fn deriv<T: Copy, F: Fn(T, T) -> bool>(x: T, zero: T, one: T, gt: F) -> (d: T)
        requires
            call_requires(gt, (x, zero)),
        ensures
            rectifies(gt, x, zero, one, d),
    {
        let active = gt(x, zero);
        if active {
            one
        } else {
            zero
        }
    }
}

} // verus!
