//! RMSProp.
use vstd::prelude::*;
use crate::optimizers::{
    average_square, averages_square, descend_scaled, descends_scaled, update_each, updates,
    Arithmetic, Ratio,
};

verus! {

/// RMSProp for a parameter tensor of `R` by `C` cells: learning rate
/// `ALPHA_NUM / ALPHA_DEN`, decay `RHO_NUM / RHO_DEN`. It keeps the decaying
/// average of the squared gradient.
pub struct RmsProp<
    const ALPHA_NUM: usize,
    const ALPHA_DEN: usize,
    const RHO_NUM: usize,
    const RHO_DEN: usize,
    const R: usize,
    const C: usize,
    T,
> {
    g: [[T; C]; R],
}

impl<
    const ALPHA_NUM: usize,
    const ALPHA_DEN: usize,
    const RHO_NUM: usize,
    const RHO_DEN: usize,
    const R: usize,
    const C: usize,
    T: Copy,
> RmsProp<ALPHA_NUM, ALPHA_DEN, RHO_NUM, RHO_DEN, R, C, T> {
    /// The decaying average of the squared gradient.
    pub closed spec fn mean_square(&self) -> [[T; C]; R] {
        self.g
    }

    /// An optimizer whose average is `zero` in every cell.
    pub fn init(zero: T) -> (o: Self)
        ensures
            forall|i: int, j: int|
                0 <= i < R && 0 <= j < C ==> #[trigger] o.mean_square()[i][j] == zero,
    {
        RmsProp { g: [[zero; C]; R] }
    }

    /// The learning rate.
    pub fn alpha() -> (r: Ratio)
        ensures
            r == (Ratio { num: ALPHA_NUM, den: ALPHA_DEN }),
    {
        Ratio { num: ALPHA_NUM, den: ALPHA_DEN }
    }

    /// The decay of the average.
    pub fn rho() -> (r: Ratio)
        ensures
            r == (Ratio { num: RHO_NUM, den: RHO_DEN }),
    {
        Ratio { num: RHO_NUM, den: RHO_DEN }
    }

    /// One update: the average takes the squared gradient in with the decay
    /// of the type, then the weight steps along the gradient, scaled by the
    /// new average, with the learning rate of the type:
    /// `a = rho * a + (1 - rho) * g * g`, then
    /// `w = w - alpha * (g / sqrt(a + epsilon))`, cell by cell.
    pub fn update_param<O: Arithmetic<T>>(
        &mut self,
        weight: &mut [[T; C]; R],
        gradient: &[[T; C]; R],
        ops: &O,
    )
        ensures
            forall|i: int, j: int|
                0 <= i < R && 0 <= j < C ==> averages_square(
                    *ops,
                    (Ratio { num: RHO_NUM, den: RHO_DEN }),
                    old(self).mean_square()[i][j],
                    gradient[i][j],
                    #[trigger] final(self).mean_square()[i][j],
                ),
            forall|i: int, j: int|
                0 <= i < R && 0 <= j < C ==> descends_scaled(
                    *ops,
                    (Ratio { num: ALPHA_NUM, den: ALPHA_DEN }),
                    old(weight)[i][j],
                    final(self).mean_square()[i][j],
                    gradient[i][j],
                    #[trigger] final(weight)[i][j],
                ),
    {
        let alpha = Self::alpha();
        let rho = Self::rho();
        let decay = |a: T, g: T| -> (a1: T)
            ensures
                averages_square(*ops, rho, a, g, a1),
            { average_square(ops, rho, a, g) };
        let step = |w: T, a: T, g: T| -> (w1: T)
            ensures
                descends_scaled(*ops, alpha, w, a, g, w1),
            { descend_scaled(ops, alpha, w, a, g) };
        let ghost a0 = self.g;
        let ghost w0 = *weight;
        update_each(&mut self.g, weight, gradient, decay, step);
        proof {
            assert forall|i: int, j: int| 0 <= i < R && 0 <= j < C implies averages_square(
                *ops,
                rho,
                a0[i][j],
                gradient[i][j],
                #[trigger] self.g[i][j],
            ) by {
                assert(updates(decay, step, *gradient, a0, w0, self.g, *final(weight), i, j));
            }
            assert forall|i: int, j: int| 0 <= i < R && 0 <= j < C implies descends_scaled(
                *ops,
                alpha,
                w0[i][j],
                self.g[i][j],
                gradient[i][j],
                #[trigger] final(weight)[i][j],
            ) by {
                assert(updates(decay, step, *gradient, a0, w0, self.g, *final(weight), i, j));
            }
        }
    }

    /// The optimizer's name.
    pub fn name() -> (s: String)
        ensures
            s@ == "rmsprop"@,
    {
        "rmsprop".to_owned()
    }
}

/// Makes `RmsProp` optimizers with the learning rate `ALPHA_NUM / ALPHA_DEN`
/// and the decay `RHO_NUM / RHO_DEN`.
pub struct RmsPropFactory<
    const ALPHA_NUM: usize,
    const ALPHA_DEN: usize,
    const RHO_NUM: usize,
    const RHO_DEN: usize,
>;

impl<
    const ALPHA_NUM: usize,
    const ALPHA_DEN: usize,
    const RHO_NUM: usize,
    const RHO_DEN: usize,
> RmsPropFactory<ALPHA_NUM, ALPHA_DEN, RHO_NUM, RHO_DEN> {
    /// An optimizer for a parameter tensor of `R` by `C` cells.
    pub fn init<const R: usize, const C: usize, T: Copy>(zero: T) -> (o: RmsProp<
        ALPHA_NUM,
        ALPHA_DEN,
        RHO_NUM,
        RHO_DEN,
        R,
        C,
        T,
    >)
        ensures
            forall|i: int, j: int|
                0 <= i < R && 0 <= j < C ==> #[trigger] o.mean_square()[i][j] == zero,
    {
        RmsProp::init(zero)
    }
}

} // verus!
