//! Gradient descent with momentum.
use vstd::prelude::*;
use crate::optimizers::{
    absorbs, average, averages, descend, descends, lemma_zero_average, lemma_zero_descent, rests,
    update_each, updates, Arithmetic, Ratio,
};

verus! {

/// A zero gradient leaves the weights alone where the running average is
/// at rest, wherever the arithmetic keeps zero at zero. With a running
/// average that is not at rest, the weights still move.
pub proof fn lemma_zero_gradient_keeps_weights<
    const R: usize,
    const C: usize,
    T,
    O: Arithmetic<T>,
>(
    ops: O,
    zero: T,
    alpha: Ratio,
    beta: Ratio,
    gradient: [[T; C]; R],
    v0: [[T; C]; R],
    weight0: [[T; C]; R],
    v1: [[T; C]; R],
    weight1: [[T; C]; R],
)
    requires
        absorbs(ops, zero),
        rests(ops, zero),
        forall|i: int, j: int|
            0 <= i < R && 0 <= j < C ==> #[trigger] gradient[i][j] == zero && v0[i][j] == zero,
        forall|i: int, j: int|
            0 <= i < R && 0 <= j < C ==> averages(
                ops,
                beta,
                v0[i][j],
                gradient[i][j],
                #[trigger] v1[i][j],
            ),
        forall|i: int, j: int|
            0 <= i < R && 0 <= j < C ==> descends(
                ops,
                alpha,
                weight0[i][j],
                v1[i][j],
                #[trigger] weight1[i][j],
            ),
    ensures
        weight1 == weight0,
{
    assert forall|i: int| 0 <= i < R implies weight1[i] == weight0[i] by {
        assert forall|j: int| 0 <= j < C implies weight1[i][j] == weight0[i][j] by {
            assert(gradient[i][j] == zero && v0[i][j] == zero);
            assert(averages(ops, beta, v0[i][j], gradient[i][j], v1[i][j]));
            lemma_zero_average(ops, zero, beta, v1[i][j]);
            assert(descends(ops, alpha, weight0[i][j], v1[i][j], weight1[i][j]));
            lemma_zero_descent(ops, zero, alpha, weight0[i][j], weight1[i][j]);
        }
        assert(weight1[i] =~= weight0[i]);
    }
    assert(weight1 =~= weight0);
}

/// Gradient descent with momentum for a parameter tensor of `R` by `C`
/// cells: learning rate `ALPHA_NUM / ALPHA_DEN`, decay `BETA_NUM / BETA_DEN`.
/// It keeps the running average of the gradient.
pub struct SgdWMomentum<
    const ALPHA_NUM: usize,
    const ALPHA_DEN: usize,
    const BETA_NUM: usize,
    const BETA_DEN: usize,
    const R: usize,
    const C: usize,
    T,
> {
    v: [[T; C]; R],
}

impl<
    const ALPHA_NUM: usize,
    const ALPHA_DEN: usize,
    const BETA_NUM: usize,
    const BETA_DEN: usize,
    const R: usize,
    const C: usize,
    T: Copy,
> SgdWMomentum<ALPHA_NUM, ALPHA_DEN, BETA_NUM, BETA_DEN, R, C, T> {
    /// The running average of the gradient.
    pub closed spec fn velocity(&self) -> [[T; C]; R] {
        self.v
    }

    /// An optimizer whose running average is `zero` in every cell.
    pub fn init(zero: T) -> (o: Self)
        ensures
            forall|i: int, j: int|
                0 <= i < R && 0 <= j < C ==> #[trigger] o.velocity()[i][j] == zero,
    {
        SgdWMomentum { v: [[zero; C]; R] }
    }

    /// The learning rate.
    pub fn alpha() -> (r: Ratio)
        ensures
            r == (Ratio { num: ALPHA_NUM, den: ALPHA_DEN }),
    {
        Ratio { num: ALPHA_NUM, den: ALPHA_DEN }
    }

    /// The decay of the running average.
    pub fn beta() -> (r: Ratio)
        ensures
            r == (Ratio { num: BETA_NUM, den: BETA_DEN }),
    {
        Ratio { num: BETA_NUM, den: BETA_DEN }
    }

    /// One update: the running average takes the gradient in with the decay
    /// of the type, then the weight steps along the new average with the
    /// learning rate of the type: `v = beta * v + (1 - beta) * g`, then
    /// `w = w - alpha * v`, cell by cell.
    pub fn update_param<O: Arithmetic<T>>(
        &mut self,
        weight: &mut [[T; C]; R],
        gradient: &[[T; C]; R],
        ops: &O,
    )
        ensures
            forall|i: int, j: int|
                0 <= i < R && 0 <= j < C ==> averages(
                    *ops,
                    (Ratio { num: BETA_NUM, den: BETA_DEN }),
                    old(self).velocity()[i][j],
                    gradient[i][j],
                    #[trigger] final(self).velocity()[i][j],
                ),
            forall|i: int, j: int|
                0 <= i < R && 0 <= j < C ==> descends(
                    *ops,
                    (Ratio { num: ALPHA_NUM, den: ALPHA_DEN }),
                    old(weight)[i][j],
                    final(self).velocity()[i][j],
                    #[trigger] final(weight)[i][j],
                ),
    {
        let alpha = Self::alpha();
        let beta = Self::beta();
        let blend = |v: T, g: T| -> (v1: T)
            ensures
                averages(*ops, beta, v, g, v1),
            { average(ops, beta, v, g) };
        let step = |w: T, v: T, g: T| -> (w1: T)
            ensures
                descends(*ops, alpha, w, v, w1),
            { descend(ops, alpha, w, v) };
        let ghost v0 = self.v;
        let ghost w0 = *weight;
        update_each(&mut self.v, weight, gradient, blend, step);
        proof {
            assert forall|i: int, j: int| 0 <= i < R && 0 <= j < C implies averages(
                *ops,
                beta,
                v0[i][j],
                gradient[i][j],
                #[trigger] self.v[i][j],
            ) by {
                assert(updates(blend, step, *gradient, v0, w0, self.v, *final(weight), i, j));
            }
            assert forall|i: int, j: int| 0 <= i < R && 0 <= j < C implies descends(
                *ops,
                alpha,
                w0[i][j],
                self.v[i][j],
                #[trigger] final(weight)[i][j],
            ) by {
                assert(updates(blend, step, *gradient, v0, w0, self.v, *final(weight), i, j));
            }
        }
    }

    /// The optimizer's name.
    pub fn name() -> (s: String)
        ensures
            s@ == "SGD with momentum"@,
    {
        "SGD with momentum".to_owned()
    }
}

/// Makes `SgdWMomentum` optimizers with the learning rate
/// `ALPHA_NUM / ALPHA_DEN` and the decay `BETA_NUM / BETA_DEN`.
pub struct SgdWMomentumFactory<
    const ALPHA_NUM: usize,
    const ALPHA_DEN: usize,
    const BETA_NUM: usize,
    const BETA_DEN: usize,
>;

impl<
    const ALPHA_NUM: usize,
    const ALPHA_DEN: usize,
    const BETA_NUM: usize,
    const BETA_DEN: usize,
> SgdWMomentumFactory<ALPHA_NUM, ALPHA_DEN, BETA_NUM, BETA_DEN> {
    /// An optimizer for a parameter tensor of `R` by `C` cells.
    pub fn init<const R: usize, const C: usize, T: Copy>(zero: T) -> (o: SgdWMomentum<
        ALPHA_NUM,
        ALPHA_DEN,
        BETA_NUM,
        BETA_DEN,
        R,
        C,
        T,
    >)
        ensures
            forall|i: int, j: int|
                0 <= i < R && 0 <= j < C ==> #[trigger] o.velocity()[i][j] == zero,
    {
        SgdWMomentum::init(zero)
    }
}

} // verus!
