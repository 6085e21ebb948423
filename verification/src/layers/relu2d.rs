//! The rectifier over a feature map, with the mask that its backward pass
//! multiplies the gradient by.
use vstd::prelude::*;

verus! {

/// Whether `y` and `mask` are what the layer gives for the input cell `x`:
/// the cell itself and `one` where `gt` says that it is greater than
/// `zero`, and `zero` twice where it says that it is not.
pub open spec fn gates<T, F: Fn(T, T) -> bool>(gt: F, x: T, zero: T, one: T, y: T, mask: T) -> bool {
    exists|active: bool|
        {
            &&& #[trigger] call_ensures(gt, (x, zero), active)
            &&& if active {
                y == x && mask == one
            } else {
                y == zero && mask == zero
            }
        }
}

/// A rectifier layer over `R` by `C` cells. It remembers which cells the
/// last forward pass let through.
#[derive(Clone, Copy)]
pub struct Relu2dLayer<const R: usize, const C: usize, T> {
    m: [[T; C]; R],
}

impl<const R: usize, const C: usize, T: Copy> Relu2dLayer<R, C, T> {
    /// The mask of the last forward pass.
    pub closed spec fn mask(&self) -> [[T; C]; R] {
        self.m
    }

    /// A layer whose mask lets nothing through.
    pub fn new(zero: T) -> (layer: Self)
        ensures
            forall|i: int, j: int|
                0 <= i < R && 0 <= j < C ==> #[trigger] layer.mask()[i][j] == zero,
    {
        Relu2dLayer { m: [[zero; C]; R] }
    }

    /// The forward pass: every cell greater than `zero` passes and is marked
    /// `one` in the mask; every other cell gives `zero` and is marked `zero`.
    pub fn ff<F: Fn(T, T) -> bool>(&mut self, x: [[T; C]; R], zero: T, one: T, gt: F) -> (out: [[T;
        C]; R])
        requires
            forall|a: T, b: T| call_requires(gt, (a, b)),
        ensures
            forall|i: int, j: int|
                0 <= i < R && 0 <= j < C ==> gates(
                    gt,
                    x[i][j],
                    zero,
                    one,
                    #[trigger] out[i][j],
                    final(self).mask()[i][j],
                ),
    {
        let mut out = [[zero; C]; R];
        let mut i: usize = 0;
        while i < R
            invariant
                i <= R,
                forall|a: T, b: T| call_requires(gt, (a, b)),
                forall|i0: int, j0: int|
                    0 <= i0 < i && 0 <= j0 < C ==> gates(
                        gt,
                        x[i0][j0],
                        zero,
                        one,
                        #[trigger] out[i0][j0],
                        self.mask()[i0][j0],
                    ),
            decreases R - i,
        {
            let mut j: usize = 0;
            while j < C
                invariant
                    i < R,
                    j <= C,
                    forall|a: T, b: T| call_requires(gt, (a, b)),
                    forall|i0: int, j0: int|
                        (0 <= i0 < i && 0 <= j0 < C) || (i0 == i && 0 <= j0 < j) ==> gates(
                            gt,
                            x[i0][j0],
                            zero,
                            one,
                            #[trigger] out[i0][j0],
                            self.mask()[i0][j0],
                        ),
                decreases C - j,
            {
                let active = gt(x[i][j], zero);
                if active {
                    out[i][j] = x[i][j];
                    self.m[i][j] = one;
                } else {
                    out[i][j] = zero;
                    self.m[i][j] = zero;
                }
                j += 1;
            }
            i += 1;
        }
        out
    }

    /// The backward pass: every gradient cell times its mask cell.
    ///
    /// `times(g, m)` stands for `g * m`.
    pub fn bp<F: Fn(T, T) -> T>(&mut self, g: [[T; C]; R], times: F) -> (out: [[T; C]; R])
        requires
            forall|a: T, b: T| call_requires(times, (a, b)),
        ensures
            final(self).mask() == old(self).mask(),
            forall|i: int, j: int|
                0 <= i < R && 0 <= j < C ==> call_ensures(
                    times,
                    (g[i][j], old(self).mask()[i][j]),
                    #[trigger] out[i][j],
                ),
    {
        let mut out = g;
        let mut i: usize = 0;
        while i < R
            invariant
                i <= R,
                self.mask() == old(self).mask(),
                forall|a: T, b: T| call_requires(times, (a, b)),
                forall|i0: int, j0: int|
                    0 <= i0 < i && 0 <= j0 < C ==> call_ensures(
                        times,
                        (g[i0][j0], self.mask()[i0][j0]),
                        #[trigger] out[i0][j0],
                    ),
            decreases R - i,
        {
            let mut j: usize = 0;
            while j < C
                invariant
                    i < R,
                    j <= C,
                    self.mask() == old(self).mask(),
                    forall|a: T, b: T| call_requires(times, (a, b)),
                    forall|i0: int, j0: int|
                        (0 <= i0 < i && 0 <= j0 < C) || (i0 == i && 0 <= j0 < j) ==> call_ensures(
                            times,
                            (g[i0][j0], self.mask()[i0][j0]),
                            #[trigger] out[i0][j0],
                        ),
                decreases C - j,
            {
                let v = times(g[i][j], self.m[i][j]);
                out[i][j] = v;
                j += 1;
            }
            i += 1;
        }
        out
    }
}

} // verus!
