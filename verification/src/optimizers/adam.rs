//! Adam, with a bias correction that stops after a fixed number of updates.
use vstd::prelude::*;
use crate::optimizers::{
    absorbs, average, average_square, averages, averages_square, descend_scaled,
    descends_scaled, lemma_zero_average, lemma_zero_scaled_descent, rests, Arithmetic, Ratio,
};

verus! {

/// The counter from which on the moments are no longer bias-corrected.
pub const CUTOFF: i32 = 50;

/// Whether `w1` is what the weight `w0` steps to under the new moments `m`
/// and `v` at the update counter `t`: while `t` is below 50, along the
/// moments divided by `1 - beta1^t` and `1 - beta2^t`; from 50 on, along the
/// moments as they are. Either way the step is
/// `w - alpha * (m / sqrt(v + epsilon))`.
pub open spec fn adam_descends<T, O: Arithmetic<T>>(
    ops: O,
    alpha: Ratio,
    beta1: Ratio,
    beta2: Ratio,
    t: i32,
    w0: T,
    m: T,
    v: T,
    w1: T,
) -> bool {
    if t < 50 {
        exists|m_hat: T, v_hat: T|
            {
                &&& #[trigger] call_ensures(O::unbias, (&ops, beta1, t, m), m_hat)
                &&& #[trigger] call_ensures(O::unbias, (&ops, beta2, t, v), v_hat)
                &&& descends_scaled(ops, alpha, w0, v_hat, m_hat, w1)
            }
    } else {
        descends_scaled(ops, alpha, w0, v, m, w1)
    }
}

/// The step of one weight cell at the update counter `t`.
pub fn adam_descend<T: Copy, O: Arithmetic<T>>(
    ops: &O,
    alpha: Ratio,
    beta1: Ratio,
    beta2: Ratio,
    t: i32,
    w: T,
    m: T,
    v: T,
) -> (w1: T)
    ensures
        adam_descends(*ops, alpha, beta1, beta2, t, w, m, v, w1),
{
    if t < CUTOFF {
        let m_hat = ops.unbias(beta1, t, m);
        let v_hat = ops.unbias(beta2, t, v);
        let w1 = descend_scaled(ops, alpha, w, v_hat, m_hat);
        proof {
            assert(call_ensures(O::unbias, (ops, beta1, t, m), m_hat));
            assert(call_ensures(O::unbias, (ops, beta2, t, v), v_hat));
        }
        w1
    } else {
        descend_scaled(ops, alpha, w, v, m)
    }
}

/// A zero gradient leaves a weight alone where the first moment is at
/// rest, wherever the arithmetic keeps zero at zero. With a first moment
/// that is not at rest, the weight still moves.
pub proof fn lemma_zero_gradient_keeps_weight<T, O: Arithmetic<T>>(
    ops: O,
    zero: T,
    alpha: Ratio,
    beta1: Ratio,
    beta2: Ratio,
    t: i32,
    w0: T,
    m1: T,
    v1: T,
    w1: T,
)
    requires
        absorbs(ops, zero),
        rests(ops, zero),
        averages(ops, beta1, zero, zero, m1),
        adam_descends(ops, alpha, beta1, beta2, t, w0, m1, v1, w1),
    ensures
        w1 == w0,
{
    lemma_zero_average(ops, zero, beta1, m1);
    if t < 50 {
        let (m_hat, v_hat) = choose|m_hat: T, v_hat: T|
            {
                &&& #[trigger] call_ensures(O::unbias, (&ops, beta1, t, m1), m_hat)
                &&& #[trigger] call_ensures(O::unbias, (&ops, beta2, t, v1), v_hat)
                &&& descends_scaled(ops, alpha, w0, v_hat, m_hat, w1)
            };
        lemma_zero_scaled_descent(ops, zero, alpha, w0, v_hat, w1);
    } else {
        lemma_zero_scaled_descent(ops, zero, alpha, w0, v1, w1);
    }
}

/// Adam for a parameter tensor of `R` by `C` cells: learning rate
/// `ALPHA_NUM / ALPHA_DEN`, decays `BETA1_NUM / BETA1_DEN` of the first
/// moment and `BETA2_NUM / BETA2_DEN` of the second. It keeps both moments
/// and counts its updates from 1 up to 50, where the counter stays.
pub struct Adam<
    const ALPHA_NUM: usize,
    const ALPHA_DEN: usize,
    const BETA1_NUM: usize,
    const BETA1_DEN: usize,
    const BETA2_NUM: usize,
    const BETA2_DEN: usize,
    const R: usize,
    const C: usize,
    T,
> {
    m: [[T; C]; R],
    v: [[T; C]; R],
    t: i32,
}

impl<
    const ALPHA_NUM: usize,
    const ALPHA_DEN: usize,
    const BETA1_NUM: usize,
    const BETA1_DEN: usize,
    const BETA2_NUM: usize,
    const BETA2_DEN: usize,
    const R: usize,
    const C: usize,
    T: Copy,
> Adam<ALPHA_NUM, ALPHA_DEN, BETA1_NUM, BETA1_DEN, BETA2_NUM, BETA2_DEN, R, C, T> {
    /// The first moment: the decaying average of the gradient.
    pub closed spec fn first_moment(&self) -> [[T; C]; R] {
        self.m
    }

    /// The second moment: the decaying average of the squared gradient.
    pub closed spec fn second_moment(&self) -> [[T; C]; R] {
        self.v
    }

    /// The update counter.
    pub closed spec fn count(&self) -> i32 {
        self.t
    }

    /// The counter has started and has not passed the point where it stays.
    pub open spec fn wf(&self) -> bool {
        1 <= self.count() <= 50
    }

    /// An optimizer whose moments are `zero` in every cell and whose counter
    /// is 1.
    pub fn init(zero: T) -> (o: Self)
        ensures
            o.wf(),
            o.count() == 1,
            forall|i: int, j: int|
                0 <= i < R && 0 <= j < C ==> #[trigger] o.first_moment()[i][j] == zero
                    && o.second_moment()[i][j] == zero,
    {
        Adam { m: [[zero; C]; R], v: [[zero; C]; R], t: 1 }
    }

    /// The learning rate.
    pub fn alpha() -> (r: Ratio)
        ensures
            r == (Ratio { num: ALPHA_NUM, den: ALPHA_DEN }),
    {
        Ratio { num: ALPHA_NUM, den: ALPHA_DEN }
    }

    /// The decay of the first moment.
    pub fn beta1() -> (r: Ratio)
        ensures
            r == (Ratio { num: BETA1_NUM, den: BETA1_DEN }),
    {
        Ratio { num: BETA1_NUM, den: BETA1_DEN }
    }

    /// The decay of the second moment.
    pub fn beta2() -> (r: Ratio)
        ensures
            r == (Ratio { num: BETA2_NUM, den: BETA2_DEN }),
    {
        Ratio { num: BETA2_NUM, den: BETA2_DEN }
    }

    /// The counter of the next update.
    pub fn iteration(&self) -> (t: i32)
        ensures
            t == self.count(),
    {
        self.t
    }

    /// One update, cell by cell: both moments take the gradient in with the
    /// decays of the type, `m = beta1 * m + (1 - beta1) * g` and
    /// `v = beta2 * v + (1 - beta2) * g * g`; the weight steps along the new
    /// moments with the learning rate of the type, bias-corrected while the
    /// counter is below 50; and the counter moves on while it is below 50.
    pub fn update_param<O: Arithmetic<T>>(
        &mut self,
        weight: &mut [[T; C]; R],
        gradient: &[[T; C]; R],
        ops: &O,
    )
        requires
            old(self).wf(),
        ensures
            final(self).wf(),
            final(self).count() == if old(self).count() < 50 {
                old(self).count() + 1
            } else {
                old(self).count() as int
            },
            final(self).count() >= old(self).count(),
            forall|i: int, j: int|
                0 <= i < R && 0 <= j < C ==> averages(
                    *ops,
                    (Ratio { num: BETA1_NUM, den: BETA1_DEN }),
                    old(self).first_moment()[i][j],
                    gradient[i][j],
                    #[trigger] final(self).first_moment()[i][j],
                ),
            forall|i: int, j: int|
                0 <= i < R && 0 <= j < C ==> averages_square(
                    *ops,
                    (Ratio { num: BETA2_NUM, den: BETA2_DEN }),
                    old(self).second_moment()[i][j],
                    gradient[i][j],
                    #[trigger] final(self).second_moment()[i][j],
                ),
            forall|i: int, j: int|
                0 <= i < R && 0 <= j < C ==> adam_descends(
                    *ops,
                    (Ratio { num: ALPHA_NUM, den: ALPHA_DEN }),
                    (Ratio { num: BETA1_NUM, den: BETA1_DEN }),
                    (Ratio { num: BETA2_NUM, den: BETA2_DEN }),
                    old(self).count(),
                    old(weight)[i][j],
                    final(self).first_moment()[i][j],
                    final(self).second_moment()[i][j],
                    #[trigger] final(weight)[i][j],
                ),
    {
        let ghost m0 = self.m;
        let ghost v0 = self.v;
        let ghost weight0 = *weight;
        let alpha = Self::alpha();
        let beta1 = Self::beta1();
        let beta2 = Self::beta2();
        let t = self.t;
        let mut i: usize = 0;
        while i < R
            invariant
                i <= R,
                t == self.t,
                t == old(self).count(),
                alpha == (Ratio { num: ALPHA_NUM, den: ALPHA_DEN }),
                beta1 == (Ratio { num: BETA1_NUM, den: BETA1_DEN }),
                beta2 == (Ratio { num: BETA2_NUM, den: BETA2_DEN }),
                forall|i0: int, j0: int|
                    0 <= i0 < i && 0 <= j0 < C ==> averages(
                        *ops,
                        beta1,
                        m0[i0][j0],
                        gradient[i0][j0],
                        #[trigger] self.m[i0][j0],
                    ),
                forall|i0: int, j0: int|
                    0 <= i0 < i && 0 <= j0 < C ==> averages_square(
                        *ops,
                        beta2,
                        v0[i0][j0],
                        gradient[i0][j0],
                        #[trigger] self.v[i0][j0],
                    ),
                forall|i0: int, j0: int|
                    0 <= i0 < i && 0 <= j0 < C ==> adam_descends(
                        *ops,
                        alpha,
                        beta1,
                        beta2,
                        t,
                        weight0[i0][j0],
                        self.m[i0][j0],
                        self.v[i0][j0],
                        #[trigger] weight[i0][j0],
                    ),
                forall|i0: int, j0: int|
                    i <= i0 < R && 0 <= j0 < C ==> #[trigger] self.m[i0][j0] == m0[i0][j0],
                forall|i0: int, j0: int|
                    i <= i0 < R && 0 <= j0 < C ==> #[trigger] self.v[i0][j0] == v0[i0][j0],
                forall|i0: int, j0: int|
                    i <= i0 < R && 0 <= j0 < C ==> #[trigger] weight[i0][j0] == weight0[i0][j0],
            decreases R - i,
        {
            let mut j: usize = 0;
            while j < C
                invariant
                    i < R,
                    j <= C,
                    t == self.t,
                    t == old(self).count(),
                    alpha == (Ratio { num: ALPHA_NUM, den: ALPHA_DEN }),
                    beta1 == (Ratio { num: BETA1_NUM, den: BETA1_DEN }),
                    beta2 == (Ratio { num: BETA2_NUM, den: BETA2_DEN }),
                    forall|i0: int, j0: int|
                        (0 <= i0 < i && 0 <= j0 < C) || (i0 == i && 0 <= j0 < j) ==> averages(
                            *ops,
                            beta1,
                            m0[i0][j0],
                            gradient[i0][j0],
                            #[trigger] self.m[i0][j0],
                        ),
                    forall|i0: int, j0: int|
                        (0 <= i0 < i && 0 <= j0 < C) || (i0 == i && 0 <= j0 < j)
                            ==> averages_square(
                            *ops,
                            beta2,
                            v0[i0][j0],
                            gradient[i0][j0],
                            #[trigger] self.v[i0][j0],
                        ),
                    forall|i0: int, j0: int|
                        (0 <= i0 < i && 0 <= j0 < C) || (i0 == i && 0 <= j0 < j)
                            ==> adam_descends(
                            *ops,
                            alpha,
                            beta1,
                            beta2,
                            t,
                            weight0[i0][j0],
                            self.m[i0][j0],
                            self.v[i0][j0],
                            #[trigger] weight[i0][j0],
                        ),
                    forall|i0: int, j0: int|
                        (i < i0 < R && 0 <= j0 < C) || (i0 == i && j <= j0 < C)
                            ==> #[trigger] self.m[i0][j0] == m0[i0][j0],
                    forall|i0: int, j0: int|
                        (i < i0 < R && 0 <= j0 < C) || (i0 == i && j <= j0 < C)
                            ==> #[trigger] self.v[i0][j0] == v0[i0][j0],
                    forall|i0: int, j0: int|
                        (i < i0 < R && 0 <= j0 < C) || (i0 == i && j <= j0 < C)
                            ==> #[trigger] weight[i0][j0] == weight0[i0][j0],
                decreases C - j,
            {
                let ghost m_before = self.m;
                let ghost v_before = self.v;
                let ghost weight_before = *weight;
                let g = gradient[i][j];
                let m = average(ops, beta1, self.m[i][j], g);
                let v = average_square(ops, beta2, self.v[i][j], g);
                self.m[i][j] = m;
                self.v[i][j] = v;
                let w = adam_descend(ops, alpha, beta1, beta2, t, weight[i][j], m, v);
                weight[i][j] = w;
                proof {
                    assert(weight_before[i as int][j as int] == weight0[i as int][j as int]);
                    assert(m_before[i as int][j as int] == m0[i as int][j as int]);
                    assert(v_before[i as int][j as int] == v0[i as int][j as int]);
                    assert forall|i0: int, j0: int|
                        (0 <= i0 < i && 0 <= j0 < C) || (i0 == i && 0 <= j0 < j
                            + 1) implies adam_descends(
                        *ops,
                        alpha,
                        beta1,
                        beta2,
                        t,
                        weight0[i0][j0],
                        self.m[i0][j0],
                        self.v[i0][j0],
                        #[trigger] weight[i0][j0],
                    ) by {
                        if !(i0 == i && j0 == j) {
                            assert(weight[i0][j0] == weight_before[i0][j0]);
                            assert(self.m[i0][j0] == m_before[i0][j0]);
                            assert(self.v[i0][j0] == v_before[i0][j0]);
                        }
                    }
                    assert forall|i0: int, j0: int|
                        (0 <= i0 < i && 0 <= j0 < C) || (i0 == i && 0 <= j0 < j
                            + 1) implies averages(
                        *ops,
                        beta1,
                        m0[i0][j0],
                        gradient[i0][j0],
                        #[trigger] self.m[i0][j0],
                    ) by {
                        if !(i0 == i && j0 == j) {
                            assert(self.m[i0][j0] == m_before[i0][j0]);
                        }
                    }
                    assert forall|i0: int, j0: int|
                        (0 <= i0 < i && 0 <= j0 < C) || (i0 == i && 0 <= j0 < j
                            + 1) implies averages_square(
                        *ops,
                        beta2,
                        v0[i0][j0],
                        gradient[i0][j0],
                        #[trigger] self.v[i0][j0],
                    ) by {
                        if !(i0 == i && j0 == j) {
                            assert(self.v[i0][j0] == v_before[i0][j0]);
                        }
                    }
                }
                j += 1;
            }
            i += 1;
        }
        if self.t < CUTOFF {
            self.t += 1;
        }
    }

    /// The optimizer's name.
    pub fn name() -> (s: String)
        ensures
            s@ == "adam"@,
    {
        "adam".to_owned()
    }
}

/// Makes `Adam` optimizers with the learning rate `ALPHA_NUM / ALPHA_DEN`
/// and the decays `BETA1_NUM / BETA1_DEN` and `BETA2_NUM / BETA2_DEN`.
pub struct AdamFactory<
    const ALPHA_NUM: usize,
    const ALPHA_DEN: usize,
    const BETA1_NUM: usize,
    const BETA1_DEN: usize,
    const BETA2_NUM: usize,
    const BETA2_DEN: usize,
>;

impl<
    const ALPHA_NUM: usize,
    const ALPHA_DEN: usize,
    const BETA1_NUM: usize,
    const BETA1_DEN: usize,
    const BETA2_NUM: usize,
    const BETA2_DEN: usize,
> AdamFactory<ALPHA_NUM, ALPHA_DEN, BETA1_NUM, BETA1_DEN, BETA2_NUM, BETA2_DEN> {
    /// An optimizer for a parameter tensor of `R` by `C` cells.
    pub fn init<const R: usize, const C: usize, T: Copy>(zero: T) -> (o: Adam<
        ALPHA_NUM,
        ALPHA_DEN,
        BETA1_NUM,
        BETA1_DEN,
        BETA2_NUM,
        BETA2_DEN,
        R,
        C,
        T,
    >)
        ensures
            o.wf(),
            o.count() == 1,
            forall|i: int, j: int|
                0 <= i < R && 0 <= j < C ==> #[trigger] o.first_moment()[i][j] == zero
                    && o.second_moment()[i][j] == zero,
    {
        Adam::init(zero)
    }
}

} // verus!
