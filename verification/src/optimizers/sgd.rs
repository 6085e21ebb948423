//! Plain gradient descent.
use vstd::prelude::*;
use crate::optimizers::{absorbs, descend, descends, lemma_zero_descent, Arithmetic, Ratio};

verus! {

/// Plain gradient descent with the learning rate `ALPHA_NUM / ALPHA_DEN`.
/// It keeps no state.
pub struct Sgd<const ALPHA_NUM: usize, const ALPHA_DEN: usize>;

impl<const ALPHA_NUM: usize, const ALPHA_DEN: usize> Sgd<ALPHA_NUM, ALPHA_DEN> {
    /// The optimizer.
    pub fn init() -> Self {
        Sgd
    }

    /// The learning rate.
    pub fn alpha() -> (r: Ratio)
        ensures
            r == (Ratio { num: ALPHA_NUM, den: ALPHA_DEN }),
    {
        Ratio { num: ALPHA_NUM, den: ALPHA_DEN }
    }

    /// One update: every weight cell steps along its gradient cell with the
    /// learning rate of the type: `w = w - alpha * g`.
    pub fn update_param<const R: usize, const C: usize, T: Copy, O: Arithmetic<T>>(
        &mut self,
        weight: &mut [[T; C]; R],
        gradient: &[[T; C]; R],
        ops: &O,
    )
        ensures
            forall|i: int, j: int|
                0 <= i < R && 0 <= j < C ==> descends(
                    *ops,
                    (Ratio { num: ALPHA_NUM, den: ALPHA_DEN }),
                    old(weight)[i][j],
                    gradient[i][j],
                    #[trigger] final(weight)[i][j],
                ),
    {
        let ghost weight0 = *weight;
        let alpha = Self::alpha();
        let mut i: usize = 0;
        while i < R
            invariant
                i <= R,
                alpha == (Ratio { num: ALPHA_NUM, den: ALPHA_DEN }),
                forall|i0: int, j0: int|
                    0 <= i0 < i && 0 <= j0 < C ==> descends(
                        *ops,
                        alpha,
                        weight0[i0][j0],
                        gradient[i0][j0],
                        #[trigger] weight[i0][j0],
                    ),
                forall|i0: int, j0: int|
                    i <= i0 < R && 0 <= j0 < C ==> #[trigger] weight[i0][j0] == weight0[i0][j0],
            decreases R - i,
        {
            let mut j: usize = 0;
            while j < C
                invariant
                    i < R,
                    j <= C,
                    alpha == (Ratio { num: ALPHA_NUM, den: ALPHA_DEN }),
                    forall|i0: int, j0: int|
                        (0 <= i0 < i && 0 <= j0 < C) || (i0 == i && 0 <= j0 < j) ==> descends(
                            *ops,
                            alpha,
                            weight0[i0][j0],
                            gradient[i0][j0],
                            #[trigger] weight[i0][j0],
                        ),
                    forall|i0: int, j0: int|
                        (i < i0 < R && 0 <= j0 < C) || (i0 == i && j <= j0 < C)
                            ==> #[trigger] weight[i0][j0] == weight0[i0][j0],
                decreases C - j,
            {
                let w = descend(ops, alpha, weight[i][j], gradient[i][j]);
                weight[i][j] = w;
                j += 1;
            }
            i += 1;
        }
    }

    /// The optimizer's name.
    pub fn name() -> (s: String)
        ensures
            s@ == "SGD"@,
    {
        "SGD".to_owned()
    }
}

/// A zero gradient leaves the weights alone, wherever multiplying by zero
/// gives zero and taking zero away changes nothing.
pub proof fn lemma_zero_gradient_keeps_weights<
    const R: usize,
    const C: usize,
    T,
    O: Arithmetic<T>,
>(ops: O, zero: T, alpha: Ratio, gradient: [[T; C]; R], weight0: [[T; C]; R], weight1: [[T; C]; R])
    requires
        absorbs(ops, zero),
        forall|i: int, j: int| 0 <= i < R && 0 <= j < C ==> #[trigger] gradient[i][j] == zero,
        forall|i: int, j: int|
            0 <= i < R && 0 <= j < C ==> descends(
                ops,
                alpha,
                weight0[i][j],
                gradient[i][j],
                #[trigger] weight1[i][j],
            ),
    ensures
        weight1 == weight0,
{
    assert forall|i: int| 0 <= i < R implies weight1[i] == weight0[i] by {
        assert forall|j: int| 0 <= j < C implies weight1[i][j] == weight0[i][j] by {
            assert(gradient[i][j] == zero);
            assert(descends(ops, alpha, weight0[i][j], gradient[i][j], weight1[i][j]));
            lemma_zero_descent(ops, zero, alpha, weight0[i][j], weight1[i][j]);
        }
        assert(weight1[i] =~= weight0[i]);
    }
    assert(weight1 =~= weight0);
}

/// Makes `Sgd` optimizers with the learning rate `ALPHA_NUM / ALPHA_DEN`.
pub struct SgdFactory<const ALPHA_NUM: usize, const ALPHA_DEN: usize>;

impl<const ALPHA_NUM: usize, const ALPHA_DEN: usize> SgdFactory<ALPHA_NUM, ALPHA_DEN> {
    /// An optimizer for one parameter tensor.
    pub fn init() -> Sgd<ALPHA_NUM, ALPHA_DEN> {
        Sgd::init()
    }
}

} // verus!
