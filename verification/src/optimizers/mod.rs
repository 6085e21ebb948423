//! Optimizers: the state each keeps per parameter tensor, and how one
//! update threads gradient, state and weight cell by cell.
//!
//! Hyper-parameters are exact ratios fixed in the optimizer's type. The
//! arithmetic on single cells is the caller's; an optimizer composes its
//! update rule from that arithmetic and its own ratios, and decides which
//! cell of which tensor the rule is applied to.
use vstd::prelude::*;

pub mod adagrad;
pub mod adam;
pub mod rmsprop;
pub mod sgd;
pub mod sgdmomentum;

verus! {

/// An exact hyper-parameter: `num / den`.
#[derive(Clone, Copy, Debug, PartialEq, Eq, Structural)]
pub struct Ratio {
    pub num: usize,
    pub den: usize,
}

/// An optimizer attached to one parameter tensor of `R` by `C` cells: it
/// turns a gradient into a change of the tensor, and keeps its own state
/// from one update to the next.
pub trait Optimizer<T, const R: usize, const C: usize>: Sized {
    /// One update of `weight` with its gradient.
    fn update_param(&mut self, weight: &mut [[T; C]; R], gradient: &[[T; C]; R]);
}

/// The arithmetic on single cells that the update rules are made of.
pub trait Arithmetic<T>: Sized {
    /// `(r.num / r.den) * x`.
    fn scale(&self, r: Ratio, x: T) -> T;

    /// `(1 - r.num / r.den) * x`.
    fn scale_rest(&self, r: Ratio, x: T) -> T;

    /// `a + b`.
    fn plus(&self, a: T, b: T) -> T;

    /// `a - b`.
    fn minus(&self, a: T, b: T) -> T;

    /// `a * b`.
    fn times(&self, a: T, b: T) -> T;

    /// `1 / sqrt(x + epsilon)`.
    fn inv_sqrt(&self, x: T) -> T;

    /// `x / (1 - (r.num / r.den)^t)`.
    fn unbias(&self, r: Ratio, t: i32, x: T) -> T;
}

/// Whether `w1` is `w0 - alpha * d`.
pub open spec fn descends<T, O: Arithmetic<T>>(ops: O, alpha: Ratio, w0: T, d: T, w1: T) -> bool {
    exists|step: T|
        {
            &&& #[trigger] call_ensures(O::scale, (&ops, alpha, d), step)
            &&& call_ensures(O::minus, (&ops, w0, step), w1)
        }
}

/// Whether `a1` is `rate * a0 + (1 - rate) * x`.
pub open spec fn averages<T, O: Arithmetic<T>>(ops: O, rate: Ratio, a0: T, x: T, a1: T) -> bool {
    exists|kept: T, taken: T|
        {
            &&& #[trigger] call_ensures(O::scale, (&ops, rate, a0), kept)
            &&& #[trigger] call_ensures(O::scale_rest, (&ops, rate, x), taken)
            &&& call_ensures(O::plus, (&ops, kept, taken), a1)
        }
}

/// Whether `a1` is `rate * a0 + (1 - rate) * g * g`.
pub open spec fn averages_square<T, O: Arithmetic<T>>(
    ops: O,
    rate: Ratio,
    a0: T,
    g: T,
    a1: T,
) -> bool {
    exists|square: T|
        {
            &&& #[trigger] call_ensures(O::times, (&ops, g, g), square)
            &&& averages(ops, rate, a0, square, a1)
        }
}

/// Whether `a1` is `a0 + g * g`.
pub open spec fn gathers_square<T, O: Arithmetic<T>>(ops: O, a0: T, g: T, a1: T) -> bool {
    exists|square: T|
        {
            &&& #[trigger] call_ensures(O::times, (&ops, g, g), square)
            &&& call_ensures(O::plus, (&ops, a0, square), a1)
        }
}

/// Whether `w1` is `w0 - alpha * (g / sqrt(a + epsilon))`.
pub open spec fn descends_scaled<T, O: Arithmetic<T>>(
    ops: O,
    alpha: Ratio,
    w0: T,
    a: T,
    g: T,
    w1: T,
) -> bool {
    exists|inv: T, d: T|
        {
            &&& #[trigger] call_ensures(O::inv_sqrt, (&ops, a), inv)
            &&& #[trigger] call_ensures(O::times, (&ops, inv, g), d)
            &&& descends(ops, alpha, w0, d, w1)
        }
}

/// `w - alpha * d`.
pub fn descend<T: Copy, O: Arithmetic<T>>(ops: &O, alpha: Ratio, w: T, d: T) -> (w1: T)
    ensures
        descends(*ops, alpha, w, d, w1),
{
    let step = ops.scale(alpha, d);
    let w1 = ops.minus(w, step);
    proof {
        assert(call_ensures(O::scale, (ops, alpha, d), step));
        assert(call_ensures(O::minus, (ops, w, step), w1));
    }
    w1
}

/// `rate * a + (1 - rate) * x`.
pub fn average<T: Copy, O: Arithmetic<T>>(ops: &O, rate: Ratio, a: T, x: T) -> (a1: T)
    ensures
        averages(*ops, rate, a, x, a1),
{
    let kept = ops.scale(rate, a);
    let taken = ops.scale_rest(rate, x);
    let a1 = ops.plus(kept, taken);
    proof {
        assert(call_ensures(O::scale, (ops, rate, a), kept));
        assert(call_ensures(O::scale_rest, (ops, rate, x), taken));
        assert(call_ensures(O::plus, (ops, kept, taken), a1));
    }
    a1
}

/// `rate * a + (1 - rate) * g * g`.
pub fn average_square<T: Copy, O: Arithmetic<T>>(ops: &O, rate: Ratio, a: T, g: T) -> (a1: T)
    ensures
        averages_square(*ops, rate, a, g, a1),
{
    let square = ops.times(g, g);
    let a1 = average(ops, rate, a, square);
    proof {
        assert(call_ensures(O::times, (ops, g, g), square));
    }
    a1
}

/// `a + g * g`.
pub fn gather_square<T: Copy, O: Arithmetic<T>>(ops: &O, a: T, g: T) -> (a1: T)
    ensures
        gathers_square(*ops, a, g, a1),
{
    let square = ops.times(g, g);
    let a1 = ops.plus(a, square);
    proof {
        assert(call_ensures(O::times, (ops, g, g), square));
        assert(call_ensures(O::plus, (ops, a, square), a1));
    }
    a1
}

/// `w - alpha * (g / sqrt(a + epsilon))`.
pub fn descend_scaled<T: Copy, O: Arithmetic<T>>(ops: &O, alpha: Ratio, w: T, a: T, g: T) -> (w1:
    T)
    ensures
        descends_scaled(*ops, alpha, w, a, g, w1),
{
    let inv = ops.inv_sqrt(a);
    let d = ops.times(inv, g);
    let w1 = descend(ops, alpha, w, d);
    proof {
        assert(call_ensures(O::inv_sqrt, (ops, a), inv));
        assert(call_ensures(O::times, (ops, inv, g), d));
    }
    w1
}

/// Whether multiplying by `zero` gives `zero` and taking `zero` away
/// changes nothing.
pub open spec fn absorbs<T, O: Arithmetic<T>>(ops: O, zero: T) -> bool {
    &&& forall|r: Ratio, s: T| #[trigger] call_ensures(O::scale, (&ops, r, zero), s) ==> s == zero
    &&& forall|x: T, p: T| #[trigger] call_ensures(O::times, (&ops, x, zero), p) ==> p == zero
    &&& forall|w: T, d: T| #[trigger] call_ensures(O::minus, (&ops, w, zero), d) ==> d == w
}

/// A descent along zero leaves the weight alone.
pub proof fn lemma_zero_descent<T, O: Arithmetic<T>>(ops: O, zero: T, alpha: Ratio, w0: T, w1: T)
    requires
        absorbs(ops, zero),
        descends(ops, alpha, w0, zero, w1),
    ensures
        w1 == w0,
{
}

/// A scaled descent along a zero gradient leaves the weight alone.
pub proof fn lemma_zero_scaled_descent<T, O: Arithmetic<T>>(
    ops: O,
    zero: T,
    alpha: Ratio,
    w0: T,
    a: T,
    w1: T,
)
    requires
        absorbs(ops, zero),
        descends_scaled(ops, alpha, w0, a, zero, w1),
    ensures
        w1 == w0,
{
    let (inv, d) = choose|inv: T, d: T|
        {
            &&& #[trigger] call_ensures(O::inv_sqrt, (&ops, a), inv)
            &&& #[trigger] call_ensures(O::times, (&ops, inv, zero), d)
            &&& descends(ops, alpha, w0, d, w1)
        };
    lemma_zero_descent(ops, zero, alpha, w0, w1);
}

/// Whether one update took `state` and `weight` from their old values to
/// their new ones: each state cell is what `next_state` makes of the old
/// state cell and the gradient cell, and each weight cell is what
/// `next_weight` makes of the old weight cell, the new state cell and the
/// gradient cell.
pub open spec fn updates<
    const R: usize,
    const C: usize,
    T,
    S: Fn(T, T) -> T,
    W: Fn(T, T, T) -> T,
>(
    next_state: S,
    next_weight: W,
    gradient: [[T; C]; R],
    state0: [[T; C]; R],
    weight0: [[T; C]; R],
    state1: [[T; C]; R],
    weight1: [[T; C]; R],
    i: int,
    j: int,
) -> bool {
    &&& call_ensures(next_state, (state0[i][j], gradient[i][j]), state1[i][j])
    &&& call_ensures(next_weight, (weight0[i][j], state1[i][j], gradient[i][j]), weight1[i][j])
}

/// Updates every cell of `state` and then of `weight`, cell by cell.
pub fn update_each<const R: usize, const C: usize, T: Copy, S: Fn(T, T) -> T, W: Fn(T, T, T) -> T>(
    state: &mut [[T; C]; R],
    weight: &mut [[T; C]; R],
    gradient: &[[T; C]; R],
    next_state: S,
    next_weight: W,
)
    requires
        forall|s: T, g: T| call_requires(next_state, (s, g)),
        forall|w: T, s: T, g: T| call_requires(next_weight, (w, s, g)),
    ensures
        forall|i: int, j: int|
            0 <= i < R && 0 <= j < C ==> #[trigger] updates(
                next_state,
                next_weight,
                *gradient,
                *old(state),
                *old(weight),
                *final(state),
                *final(weight),
                i,
                j,
            ),
{
    let ghost state0 = *state;
    let ghost weight0 = *weight;
    let mut i: usize = 0;
    while i < R
        invariant
            i <= R,
            forall|s: T, g: T| call_requires(next_state, (s, g)),
            forall|w: T, s: T, g: T| call_requires(next_weight, (w, s, g)),
            forall|i0: int, j0: int|
                0 <= i0 < i && 0 <= j0 < C ==> #[trigger] updates(
                    next_state,
                    next_weight,
                    *gradient,
                    state0,
                    weight0,
                    *state,
                    *weight,
                    i0,
                    j0,
                ),
            forall|i0: int, j0: int|
                i <= i0 < R && 0 <= j0 < C ==> #[trigger] state[i0][j0] == state0[i0][j0],
            forall|i0: int, j0: int|
                i <= i0 < R && 0 <= j0 < C ==> #[trigger] weight[i0][j0] == weight0[i0][j0],
        decreases R - i,
    {
        let mut j: usize = 0;
        while j < C
            invariant
                i < R,
                j <= C,
                forall|s: T, g: T| call_requires(next_state, (s, g)),
                forall|w: T, s: T, g: T| call_requires(next_weight, (w, s, g)),
                forall|i0: int, j0: int|
                    (0 <= i0 < i && 0 <= j0 < C) || (i0 == i && 0 <= j0 < j) ==> #[trigger] updates(
                        next_state,
                        next_weight,
                        *gradient,
                        state0,
                        weight0,
                        *state,
                        *weight,
                        i0,
                        j0,
                    ),
                forall|i0: int, j0: int|
                    (i < i0 < R && 0 <= j0 < C) || (i0 == i && j <= j0 < C)
                        ==> #[trigger] state[i0][j0] == state0[i0][j0],
                forall|i0: int, j0: int|
                    (i < i0 < R && 0 <= j0 < C) || (i0 == i && j <= j0 < C)
                        ==> #[trigger] weight[i0][j0] == weight0[i0][j0],
            decreases C - j,
        {
            let ghost state_before = *state;
            let ghost weight_before = *weight;
            let s = next_state(state[i][j], gradient[i][j]);
            state[i][j] = s;
            let w = next_weight(weight[i][j], s, gradient[i][j]);
            weight[i][j] = w;
            proof {
                assert(weight_before[i as int][j as int] == weight0[i as int][j as int]);
                assert(state_before[i as int][j as int] == state0[i as int][j as int]);
                assert forall|i0: int, j0: int|
                    (0 <= i0 < i && 0 <= j0 < C) || (i0 == i && 0 <= j0 < j + 1) implies #[trigger] updates(
                    next_state,
                    next_weight,
                    *gradient,
                    state0,
                    weight0,
                    *state,
                    *weight,
                    i0,
                    j0,
                ) by {
                    if !(i0 == i && j0 == j) {
                        assert(updates(
                            next_state,
                            next_weight,
                            *gradient,
                            state0,
                            weight0,
                            state_before,
                            weight_before,
                            i0,
                            j0,
                        ));
                        assert(state[i0][j0] == state_before[i0][j0]);
                        assert(weight[i0][j0] == weight_before[i0][j0]);
                    }
                }
            }
            j += 1;
        }
        i += 1;
    }
}

/// Whether an average that is at rest stays at rest: scaling `zero` gives
/// `zero`, `zero` plus `zero` is `zero`, and the bias correction of `zero`
/// is `zero`.
pub open spec fn rests<T, O: Arithmetic<T>>(ops: O, zero: T) -> bool {
    &&& forall|r: Ratio, s: T|
        #[trigger] call_ensures(O::scale_rest, (&ops, r, zero), s) ==> s == zero
    &&& forall|s: T| #[trigger] call_ensures(O::plus, (&ops, zero, zero), s) ==> s == zero
    &&& forall|r: Ratio, t: i32, s: T|
        #[trigger] call_ensures(O::unbias, (&ops, r, t, zero), s) ==> s == zero
}

/// An average at rest that takes in zero stays at rest.
pub proof fn lemma_zero_average<T, O: Arithmetic<T>>(ops: O, zero: T, rate: Ratio, a1: T)
    requires
        absorbs(ops, zero),
        rests(ops, zero),
        averages(ops, rate, zero, zero, a1),
    ensures
        a1 == zero,
{
}

/// A zero gradient leaves the weights of RMSProp and Adagrad alone,
/// whatever their accumulators hold, wherever multiplying by zero gives zero
/// and taking zero away changes nothing.
pub proof fn lemma_zero_gradient_keeps_scaled_weights<
    const R: usize,
    const C: usize,
    T,
    O: Arithmetic<T>,
>(
    ops: O,
    zero: T,
    alpha: Ratio,
    gradient: [[T; C]; R],
    state1: [[T; C]; R],
    weight0: [[T; C]; R],
    weight1: [[T; C]; R],
)
    requires
        absorbs(ops, zero),
        forall|i: int, j: int| 0 <= i < R && 0 <= j < C ==> #[trigger] gradient[i][j] == zero,
        forall|i: int, j: int|
            0 <= i < R && 0 <= j < C ==> descends_scaled(
                ops,
                alpha,
                weight0[i][j],
                state1[i][j],
                gradient[i][j],
                #[trigger] weight1[i][j],
            ),
    ensures
        weight1 == weight0,
{
    assert forall|i: int| 0 <= i < R implies weight1[i] == weight0[i] by {
        assert forall|j: int| 0 <= j < C implies weight1[i][j] == weight0[i][j] by {
            assert(gradient[i][j] == zero);
            assert(descends_scaled(
                ops,
                alpha,
                weight0[i][j],
                state1[i][j],
                gradient[i][j],
                weight1[i][j],
            ));
            lemma_zero_scaled_descent(ops, zero, alpha, weight0[i][j], state1[i][j], weight1[i][j]);
        }
        assert(weight1[i] =~= weight0[i]);
    }
    assert(weight1 =~= weight0);
}

} // verus!
