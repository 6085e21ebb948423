//! Adagrad.
use vstd::prelude::*;
use crate::optimizers::{
    descend_scaled, descends_scaled, gather_square, gathers_square, update_each, updates,
    Arithmetic, Ratio,
};

verus! {

/// Adagrad for a parameter tensor of `R` by `C` cells, with the learning
/// rate `ALPHA_NUM / ALPHA_DEN`. It keeps the sum of the squared gradients,
/// which never decays.
pub struct Adagrad<const ALPHA_NUM: usize, const ALPHA_DEN: usize, const R: usize, const C: usize, T> {
    g: [[T; C]; R],
}

impl<
    const ALPHA_NUM: usize,
    const ALPHA_DEN: usize,
    const R: usize,
    const C: usize,
    T: Copy,
> Adagrad<ALPHA_NUM, ALPHA_DEN, R, C, T> {
    /// The sum of the squared gradients.
    pub closed spec fn sum_square(&self) -> [[T; C]; R] {
        self.g
    }

    /// An optimizer whose sum is `zero` in every cell.
    pub fn init(zero: T) -> (o: Self)
        ensures
            forall|i: int, j: int|
                0 <= i < R && 0 <= j < C ==> #[trigger] o.sum_square()[i][j] == zero,
    {
        Adagrad { g: [[zero; C]; R] }
    }

    /// The learning rate.
    pub fn alpha() -> (r: Ratio)
        ensures
            r == (Ratio { num: ALPHA_NUM, den: ALPHA_DEN }),
    {
        Ratio { num: ALPHA_NUM, den: ALPHA_DEN }
    }

    /// One update: the sum takes the squared gradient in, then the weight
    /// steps along the gradient, scaled by the new sum, with the learning
    /// rate of the type: `a = a + g * g`, then
    /// `w = w - alpha * (g / sqrt(a + epsilon))`, cell by cell.
    pub fn update_param<O: Arithmetic<T>>(
        &mut self,
        weight: &mut [[T; C]; R],
        gradient: &[[T; C]; R],
        ops: &O,
    )
        ensures
            forall|i: int, j: int|
                0 <= i < R && 0 <= j < C ==> gathers_square(
                    *ops,
                    old(self).sum_square()[i][j],
                    gradient[i][j],
                    #[trigger] final(self).sum_square()[i][j],
                ),
            forall|i: int, j: int|
                0 <= i < R && 0 <= j < C ==> descends_scaled(
                    *ops,
                    (Ratio { num: ALPHA_NUM, den: ALPHA_DEN }),
                    old(weight)[i][j],
                    final(self).sum_square()[i][j],
                    gradient[i][j],
                    #[trigger] final(weight)[i][j],
                ),
    {
        let alpha = Self::alpha();
        let gather = |a: T, g: T| -> (a1: T)
            ensures
                gathers_square(*ops, a, g, a1),
            { gather_square(ops, a, g) };
        let step = |w: T, a: T, g: T| -> (w1: T)
            ensures
                descends_scaled(*ops, alpha, w, a, g, w1),
            { descend_scaled(ops, alpha, w, a, g) };
        let ghost a0 = self.g;
        let ghost w0 = *weight;
        update_each(&mut self.g, weight, gradient, gather, step);
        proof {
            assert forall|i: int, j: int| 0 <= i < R && 0 <= j < C implies gathers_square(
                *ops,
                a0[i][j],
                gradient[i][j],
                #[trigger] self.g[i][j],
            ) by {
                assert(updates(gather, step, *gradient, a0, w0, self.g, *final(weight), i, j));
            }
            assert forall|i: int, j: int| 0 <= i < R && 0 <= j < C implies descends_scaled(
                *ops,
                alpha,
                w0[i][j],
                self.g[i][j],
                gradient[i][j],
                #[trigger] final(weight)[i][j],
            ) by {
                assert(updates(gather, step, *gradient, a0, w0, self.g, *final(weight), i, j));
            }
        }
    }

    /// The optimizer's name.
    pub fn name() -> (s: String)
        ensures
            s@ == "adagrad"@,
    {
        "adagrad".to_owned()
    }
}

/// Makes `Adagrad` optimizers with the learning rate `ALPHA_NUM / ALPHA_DEN`.
pub struct AdagradFactory<const ALPHA_NUM: usize, const ALPHA_DEN: usize>;

impl<const ALPHA_NUM: usize, const ALPHA_DEN: usize> AdagradFactory<ALPHA_NUM, ALPHA_DEN> {
    /// An optimizer for a parameter tensor of `R` by `C` cells.
    pub fn init<const R: usize, const C: usize, T: Copy>(zero: T) -> (o: Adagrad<
        ALPHA_NUM,
        ALPHA_DEN,
        R,
        C,
        T,
    >)
        ensures
            forall|i: int, j: int|
                0 <= i < R && 0 <= j < C ==> #[trigger] o.sum_square()[i][j] == zero,
    {
        Adagrad::init(zero)
    }
}

} // verus!
