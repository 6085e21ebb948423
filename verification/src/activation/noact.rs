//! The identity activation.
use vstd::prelude::*;

verus! {

/// The activation that passes its input on.
pub struct NoActivation;

impl NoActivation {
    /// The input itself.
    pub fn func<T>(x: T) -> (y: T)
        ensures
            y == x,
    {
        x
    }

    /// The slope of the identity: `one`, whatever the input.
    pub fn deriv<T>(_x: T, one: T) -> (d: T)
        ensures
            d == one,
    {
        one
    }
}

} // verus!
