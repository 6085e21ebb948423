//! The boundary between a recurrent layer and the dense block that reads
//! only its last step.
use vstd::prelude::*;

verus! {

/// The output of the last of `N` steps.
pub fn last_output<const N: usize, T: Copy>(y: &[T; N]) -> (last: T)
    requires
        N > 0,
    ensures
        last == y[N - 1],
{
    y[N - 1]
}

/// The output gradients of `N` steps of which only the last was read:
/// `g` at the last step and `zero` at every step before it.
pub fn last_gradient<const N: usize, T: Copy>(g: T, zero: T) -> (gl: [T; N])
    requires
        N > 0,
    ensures
        gl[N - 1] == g,
        forall|t: int| 0 <= t < N - 1 ==> #[trigger] gl[t] == zero,
{
    let mut gl = [zero; N];
    gl[N - 1] = g;
    gl
}

} // verus!
