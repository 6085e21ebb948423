//! A simple recurrent cell over a sequence of `T` steps: the forward pass
//! that caches every step, and back-propagation through time, which
//! accumulates each weight gradient over all steps before anything is
//! updated.
use vstd::prelude::*;

verus! {

/// The tensor arithmetic of a cell with inputs of `X`, hidden states of `H`
/// and outputs of `Y` components. Whoever holds the weights `Wx`, `Wh` and
/// `Wy` and the activation provides it; the cell decides what is computed
/// from what, and when.
pub trait RnnOps<const X: usize, const Y: usize, const H: usize>: Sized {
    type Scalar: Copy;

    /// A gradient in the shape of `Wx`.
    type Wx: Copy;

    /// A gradient in the shape of `Wh`.
    type Wh: Copy;

    /// A gradient in the shape of `Wy`.
    type Wy: Copy;

    /// The scalar zero.
    fn zero(&self) -> Self::Scalar;

    /// The zero gradient of `Wx`.
    fn zero_wx(&self) -> Self::Wx;

    /// The zero gradient of `Wh`.
    fn zero_wh(&self) -> Self::Wh;

    /// The zero gradient of `Wy`.
    fn zero_wy(&self) -> Self::Wy;

    /// `Wx·x`.
    fn input_part(&self, x: &[Self::Scalar; X]) -> [Self::Scalar; H];

    /// `z + Wh·h`.
    fn add_recurrent(&self, z: [Self::Scalar; H], h: &[Self::Scalar; H]) -> [Self::Scalar; H];

    /// The activation of the pre-activation `z`.
    fn activate(&self, z: &[Self::Scalar; H]) -> [Self::Scalar; H];

    /// `Wy·h`.
    fn output(&self, h: &[Self::Scalar; H]) -> [Self::Scalar; Y];

    /// `d + g·hᵗ`.
    fn acc_wy(&self, d: Self::Wy, g: &[Self::Scalar; Y], h: &[Self::Scalar; H]) -> Self::Wy;

    /// `d + g·xᵗ`.
    fn acc_wx(&self, d: Self::Wx, g: &[Self::Scalar; H], x: &[Self::Scalar; X]) -> Self::Wx;

    /// `d + g·hᵗ`.
    fn acc_wh(&self, d: Self::Wh, g: &[Self::Scalar; H], h: &[Self::Scalar; H]) -> Self::Wh;

    /// `Wyᵗ·gy`.
    fn back_output(&self, gy: &[Self::Scalar; Y]) -> [Self::Scalar; H];

    /// The derivative of the activation at the pre-activation `z`.
    fn slope(&self, z: &[Self::Scalar; H]) -> [Self::Scalar; H];

    /// `a + b`.
    fn plus(&self, a: &[Self::Scalar; H], b: &[Self::Scalar; H]) -> [Self::Scalar; H];

    /// `a ⊙ b`.
    fn times(&self, a: &[Self::Scalar; H], b: &[Self::Scalar; H]) -> [Self::Scalar; H];

    /// `Wxᵗ·g`.
    fn back_input(&self, g: &[Self::Scalar; H]) -> [Self::Scalar; X];

    /// `Whᵗ·g`: what the step before is handed of the local gradient `g`.
    fn carry(&self, g: &[Self::Scalar; H]) -> [Self::Scalar; H];

    /// One optimizer update of `Wx` with its gradient `d`.
    fn update_wx(&mut self, d: &Self::Wx);

    /// One optimizer update of `Wh` with its gradient `d`.
    fn update_wh(&mut self, d: &Self::Wh);

    /// One optimizer update of `Wy` with its gradient `d`.
    fn update_wy(&mut self, d: &Self::Wy);
}

/// Whether `local` is the gradient on the pre-activation `z` of a step
/// with the output gradient `gy` and the hidden gradient `carried` from the
/// steps after it: the activation's derivative at `z`, times
/// `Wyᵗ·gy + carried`.
pub open spec fn localises<const X: usize, const Y: usize, const H: usize, O: RnnOps<X, Y, H>>(
    ops: O,
    z: [O::Scalar; H],
    gy: [O::Scalar; Y],
    carried: [O::Scalar; H],
    local: [O::Scalar; H],
) -> bool {
    exists|back: [O::Scalar; H], sum: [O::Scalar; H], slope: [O::Scalar; H]|
        {
            &&& #[trigger] call_ensures(O::back_output, (&ops, &gy), back)
            &&& #[trigger] call_ensures(O::plus, (&ops, &back, &carried), sum)
            &&& #[trigger] call_ensures(O::slope, (&ops, &z), slope)
            &&& call_ensures(O::times, (&ops, &slope, &sum), local)
        }
}

/// The gradient on the pre-activation `z` of a step.
pub fn local_gradient<const X: usize, const Y: usize, const H: usize, O: RnnOps<X, Y, H>>(
    ops: &O,
    z: &[O::Scalar; H],
    gy: &[O::Scalar; Y],
    carried: &[O::Scalar; H],
) -> (local: [O::Scalar; H])
    ensures
        localises(*ops, *z, *gy, *carried, local),
{
    let back = ops.back_output(gy);
    let sum = ops.plus(&back, carried);
    let slope = ops.slope(z);
    let local = ops.times(&slope, &sum);
    proof {
        assert(call_ensures(O::back_output, (ops, gy), back));
        assert(call_ensures(O::plus, (ops, &back, carried), sum));
        assert(call_ensures(O::slope, (ops, z), slope));
        assert(call_ensures(O::times, (ops, &slope, &sum), local));
    }
    local
}

/// What the forward pass caches: per step the input, the pre-activation,
/// the hidden state and the output.
pub struct RnnCell<
    const X: usize,
    const Y: usize,
    const H: usize,
    const T: usize,
    O: RnnOps<X, Y, H>,
> {
    pub x: [[O::Scalar; X]; T],
    pub y: [[O::Scalar; Y]; T],
    pub h: [[O::Scalar; H]; T],
    pub z: [[O::Scalar; H]; T],
}

/// What one backward pass gives: the gradient on every step's input and the
/// gradient of each weight, accumulated over all steps.
pub struct RnnGradients<
    const X: usize,
    const Y: usize,
    const H: usize,
    const T: usize,
    O: RnnOps<X, Y, H>,
> {
    pub gout: [[O::Scalar; X]; T],
    pub dwx: O::Wx,
    pub dwh: O::Wh,
    pub dwy: O::Wy,
}

/// A backward pass unrolled over time. `local[t]` is the gradient on the
/// pre-activation of step `t`. The pass walks from the last step to the
/// first: `carried[t]`, `dwx[t]` and `dwh[t]` are the carried hidden
/// gradient and the accumulated weight gradients once steps `t` and later
/// are done. `dwy[t]` is the accumulated gradient of `Wy` once the steps
/// before `t` are done.
pub struct RnnBackward<const X: usize, const Y: usize, const H: usize, O: RnnOps<X, Y, H>> {
    pub local: Seq<[O::Scalar; H]>,
    pub carried: Seq<[O::Scalar; H]>,
    pub dwx: Seq<O::Wx>,
    pub dwh: Seq<O::Wh>,
    pub dwy: Seq<O::Wy>,
}

impl<
    const X: usize,
    const Y: usize,
    const H: usize,
    const T: usize,
    O: RnnOps<X, Y, H>,
> RnnCell<X, Y, H, T, O> {
    /// Whether step `t` of the cache is what the forward pass computes with
    /// `ops`: `z[t] = Wx·x[t]`, plus `Wh·h[t - 1]` after the first step;
    /// `h[t]` its activation; `y[t] = Wy·h[t]`.
    pub open spec fn forward_step(&self, ops: O, t: int) -> bool {
        &&& exists|part: [O::Scalar; H]|
            {
                &&& #[trigger] call_ensures(O::input_part, (&ops, &self.x[t]), part)
                &&& if t == 0 {
                    self.z[t] == part
                } else {
                    call_ensures(O::add_recurrent, (&ops, part, &self.h[t - 1]), self.z[t])
                }
            }
        &&& call_ensures(O::activate, (&ops, &self.z[t]), self.h[t])
        &&& call_ensures(O::output, (&ops, &self.h[t]), self.y[t])
    }

    /// Whether `run` is a backward pass of this cache under the output
    /// gradients `gl`: every accumulator starts from zero, the gradient of
    /// `Wy` takes in one step after another from the first, and the walk back
    /// in time takes every step from the last to the first.
    pub open spec fn backward_run(
        &self,
        ops: O,
        gl: [[O::Scalar; Y]; T],
        run: RnnBackward<X, Y, H, O>,
    ) -> bool {
        &&& run.local.len() == T
        &&& run.carried.len() == T + 1
        &&& run.dwx.len() == T + 1
        &&& run.dwh.len() == T + 1
        &&& run.dwy.len() == T + 1
        &&& call_ensures(O::zero_wy, (&ops,), run.dwy[0])
        &&& call_ensures(O::zero_wx, (&ops,), run.dwx[T as int])
        &&& call_ensures(O::zero_wh, (&ops,), run.dwh[T as int])
        &&& exists|zero: O::Scalar| #[trigger]
            call_ensures(O::zero, (&ops,), zero) && run.carried[T as int] == [zero; H]
        &&& forall|t: int|
            0 <= t < T ==> #[trigger] call_ensures(
                O::acc_wy,
                (&ops, run.dwy[t], &gl[t], &self.h[t]),
                run.dwy[t + 1],
            )
        &&& forall|t: int| 0 <= t < T ==> #[trigger] self.backward_step(ops, gl, run, t)
    }

    /// Step `t` of the walk back in time: the local gradient comes from the
    /// output gradient of the step and the gradient carried from the steps
    /// after it; it is accumulated into the gradient of `Wx`, and after the
    /// first step into that of `Wh`; and what it leaves for the step before
    /// is carried on.
    pub open spec fn backward_step(
        &self,
        ops: O,
        gl: [[O::Scalar; Y]; T],
        run: RnnBackward<X, Y, H, O>,
        t: int,
    ) -> bool {
        &&& localises(ops, self.z[t], gl[t], run.carried[t + 1], run.local[t])
        &&& call_ensures(O::acc_wx, (&ops, run.dwx[t + 1], &run.local[t], &self.x[t]), run.dwx[t])
        &&& if t != 0 {
            call_ensures(
                O::acc_wh,
                (&ops, run.dwh[t + 1], &run.local[t], &self.h[t - 1]),
                run.dwh[t],
            )
        } else {
            run.dwh[t] == run.dwh[t + 1]
        }
        &&& call_ensures(O::carry, (&ops, &run.local[t]), run.carried[t])
    }

    /// Whether each operation that a backward pass uses gives one result
    /// only for its arguments.
    pub open spec fn single_valued(ops: O) -> bool {
        &&& forall|r1: O::Scalar, r2: O::Scalar|
            #![trigger call_ensures(O::zero, (&ops,), r1), call_ensures(O::zero, (&ops,), r2)]
            call_ensures(O::zero, (&ops,), r1) && call_ensures(O::zero, (&ops,), r2) ==> r1 == r2
        &&& forall|r1: O::Wx, r2: O::Wx|
            #![trigger call_ensures(O::zero_wx, (&ops,), r1), call_ensures(O::zero_wx, (&ops,), r2)]
            call_ensures(O::zero_wx, (&ops,), r1) && call_ensures(O::zero_wx, (&ops,), r2) ==> r1
                == r2
        &&& forall|r1: O::Wh, r2: O::Wh|
            #![trigger call_ensures(O::zero_wh, (&ops,), r1), call_ensures(O::zero_wh, (&ops,), r2)]
            call_ensures(O::zero_wh, (&ops,), r1) && call_ensures(O::zero_wh, (&ops,), r2) ==> r1
                == r2
        &&& forall|r1: O::Wy, r2: O::Wy|
            #![trigger call_ensures(O::zero_wy, (&ops,), r1), call_ensures(O::zero_wy, (&ops,), r2)]
            call_ensures(O::zero_wy, (&ops,), r1) && call_ensures(O::zero_wy, (&ops,), r2) ==> r1
                == r2
        &&& forall|d: O::Wy, g: &[O::Scalar; Y], h: &[O::Scalar; H], r1: O::Wy, r2: O::Wy|
            #![trigger call_ensures(O::acc_wy, (&ops, d, g, h), r1), call_ensures(O::acc_wy, (&ops, d, g, h), r2)]
            call_ensures(O::acc_wy, (&ops, d, g, h), r1) && call_ensures(
                O::acc_wy,
                (&ops, d, g, h),
                r2,
            ) ==> r1 == r2
        &&& forall|d: O::Wx, g: &[O::Scalar; H], x: &[O::Scalar; X], r1: O::Wx, r2: O::Wx|
            #![trigger call_ensures(O::acc_wx, (&ops, d, g, x), r1), call_ensures(O::acc_wx, (&ops, d, g, x), r2)]
            call_ensures(O::acc_wx, (&ops, d, g, x), r1) && call_ensures(
                O::acc_wx,
                (&ops, d, g, x),
                r2,
            ) ==> r1 == r2
        &&& forall|d: O::Wh, g: &[O::Scalar; H], h: &[O::Scalar; H], r1: O::Wh, r2: O::Wh|
            #![trigger call_ensures(O::acc_wh, (&ops, d, g, h), r1), call_ensures(O::acc_wh, (&ops, d, g, h), r2)]
            call_ensures(O::acc_wh, (&ops, d, g, h), r1) && call_ensures(
                O::acc_wh,
                (&ops, d, g, h),
                r2,
            ) ==> r1 == r2
        &&& forall|gy: &[O::Scalar; Y], r1: [O::Scalar; H], r2: [O::Scalar; H]|
            #![trigger call_ensures(O::back_output, (&ops, gy), r1), call_ensures(O::back_output, (&ops, gy), r2)]
            call_ensures(O::back_output, (&ops, gy), r1) && call_ensures(O::back_output, (&ops, gy), r2) ==> r1
                == r2
        &&& forall|z: &[O::Scalar; H], r1: [O::Scalar; H], r2: [O::Scalar; H]|
            #![trigger call_ensures(O::slope, (&ops, z), r1), call_ensures(O::slope, (&ops, z), r2)]
            call_ensures(O::slope, (&ops, z), r1) && call_ensures(O::slope, (&ops, z), r2) ==> r1
                == r2
        &&& forall|a: &[O::Scalar; H], b: &[O::Scalar; H], r1: [O::Scalar; H], r2: [O::Scalar; H]|
            #![trigger call_ensures(O::plus, (&ops, a, b), r1), call_ensures(O::plus, (&ops, a, b), r2)]
            call_ensures(O::plus, (&ops, a, b), r1) && call_ensures(O::plus, (&ops, a, b), r2) ==> r1
                == r2
        &&& forall|a: &[O::Scalar; H], b: &[O::Scalar; H], r1: [O::Scalar; H], r2: [O::Scalar; H]|
            #![trigger call_ensures(O::times, (&ops, a, b), r1), call_ensures(O::times, (&ops, a, b), r2)]
            call_ensures(O::times, (&ops, a, b), r1) && call_ensures(O::times, (&ops, a, b), r2) ==> r1
                == r2
        &&& forall|g: &[O::Scalar; H], r1: [O::Scalar; H], r2: [O::Scalar; H]|
            #![trigger call_ensures(O::carry, (&ops, g), r1), call_ensures(O::carry, (&ops, g), r2)]
            call_ensures(O::carry, (&ops, g), r1) && call_ensures(O::carry, (&ops, g), r2) ==> r1
                == r2
    }

    /// Where every operation gives one result only, so does the local
    /// gradient.
    proof fn lemma_local_once(
        ops: O,
        z: [O::Scalar; H],
        gy: [O::Scalar; Y],
        carried: [O::Scalar; H],
        r1: [O::Scalar; H],
        r2: [O::Scalar; H],
    )
        requires
            Self::single_valued(ops),
            localises(ops, z, gy, carried, r1),
            localises(ops, z, gy, carried, r2),
        ensures
            r1 == r2,
    {
        let (back1, sum1, slope1) = choose|
            back: [O::Scalar; H],
            sum: [O::Scalar; H],
            slope: [O::Scalar; H],
        |
            {
                &&& #[trigger] call_ensures(O::back_output, (&ops, &gy), back)
                &&& #[trigger] call_ensures(O::plus, (&ops, &back, &carried), sum)
                &&& #[trigger] call_ensures(O::slope, (&ops, &z), slope)
                &&& call_ensures(O::times, (&ops, &slope, &sum), r1)
            };
        let (back2, sum2, slope2) = choose|
            back: [O::Scalar; H],
            sum: [O::Scalar; H],
            slope: [O::Scalar; H],
        |
            {
                &&& #[trigger] call_ensures(O::back_output, (&ops, &gy), back)
                &&& #[trigger] call_ensures(O::plus, (&ops, &back, &carried), sum)
                &&& #[trigger] call_ensures(O::slope, (&ops, &z), slope)
                &&& call_ensures(O::times, (&ops, &slope, &sum), r2)
            };
        assert(back1 == back2);
        assert(sum1 == sum2);
        assert(slope1 == slope2);
    }

    /// Two backward passes of one cache agree, from step `t` on, on what
    /// they carry and accumulate on the walk back in time.
    proof fn lemma_walks_agree(
        &self,
        ops: O,
        gl: [[O::Scalar; Y]; T],
        run1: RnnBackward<X, Y, H, O>,
        run2: RnnBackward<X, Y, H, O>,
        t: int,
    )
        requires
            0 <= t <= T,
            Self::single_valued(ops),
            self.backward_run(ops, gl, run1),
            self.backward_run(ops, gl, run2),
        ensures
            run1.carried[t] == run2.carried[t],
            run1.dwx[t] == run2.dwx[t],
            run1.dwh[t] == run2.dwh[t],
            t < T ==> run1.local[t] == run2.local[t],
        decreases T - t,
    {
        if t < T {
            self.lemma_walks_agree(ops, gl, run1, run2, t + 1);
            assert(self.backward_step(ops, gl, run1, t));
            assert(self.backward_step(ops, gl, run2, t));
            Self::lemma_local_once(
                ops,
                self.z[t],
                gl[t],
                run1.carried[t + 1],
                run1.local[t],
                run2.local[t],
            );
        } else {
            let zero1 = choose|zero: O::Scalar| #[trigger]
                call_ensures(O::zero, (&ops,), zero) && run1.carried[T as int] == [zero; H];
            let zero2 = choose|zero: O::Scalar| #[trigger]
                call_ensures(O::zero, (&ops,), zero) && run2.carried[T as int] == [zero; H];
            assert(zero1 == zero2);
        }
    }

    /// Two backward passes of one cache agree on the gradient of `Wy`
    /// accumulated over the first `t` steps.
    proof fn lemma_outputs_agree(
        &self,
        ops: O,
        gl: [[O::Scalar; Y]; T],
        run1: RnnBackward<X, Y, H, O>,
        run2: RnnBackward<X, Y, H, O>,
        t: int,
    )
        requires
            0 <= t <= T,
            Self::single_valued(ops),
            self.backward_run(ops, gl, run1),
            self.backward_run(ops, gl, run2),
        ensures
            run1.dwy[t] == run2.dwy[t],
        decreases t,
    {
        if t > 0 {
            self.lemma_outputs_agree(ops, gl, run1, run2, t - 1);
            assert(call_ensures(
                O::acc_wy,
                (&ops, run1.dwy[t - 1], &gl[t - 1], &self.h[t - 1]),
                run1.dwy[t - 1 + 1],
            ));
            assert(call_ensures(
                O::acc_wy,
                (&ops, run2.dwy[t - 1], &gl[t - 1], &self.h[t - 1]),
                run2.dwy[t - 1 + 1],
            ));
        }
    }

    /// Where every operation gives one result only, a cache and the output
    /// gradients determine the accumulated weight gradients and the local
    /// gradient of every step.
    pub proof fn lemma_backward_run_once(
        &self,
        ops: O,
        gl: [[O::Scalar; Y]; T],
        run1: RnnBackward<X, Y, H, O>,
        run2: RnnBackward<X, Y, H, O>,
    )
        requires
            Self::single_valued(ops),
            self.backward_run(ops, gl, run1),
            self.backward_run(ops, gl, run2),
        ensures
            run1.dwx[0] == run2.dwx[0],
            run1.dwh[0] == run2.dwh[0],
            run1.dwy[T as int] == run2.dwy[T as int],
            forall|t: int| 0 <= t < T ==> #[trigger] run1.local[t] == run2.local[t],
    {
        self.lemma_walks_agree(ops, gl, run1, run2, 0);
        self.lemma_outputs_agree(ops, gl, run1, run2, T as int);
        assert forall|t: int| 0 <= t < T implies #[trigger] run1.local[t] == run2.local[t] by {
            self.lemma_walks_agree(ops, gl, run1, run2, t);
        }
    }

    /// A cell whose caches are all zero.
    pub fn new(ops: &O) -> (cell: Self)
        ensures
            exists|zero: O::Scalar|
                {
                    &&& #[trigger] call_ensures(O::zero, (ops,), zero)
                    &&& cell.x == [[zero; X]; T]
                    &&& cell.y == [[zero; Y]; T]
                    &&& cell.h == [[zero; H]; T]
                    &&& cell.z == [[zero; H]; T]
                },
    {
        let zero = ops.zero();
        RnnCell { x: [[zero; X]; T], y: [[zero; Y]; T], h: [[zero; H]; T], z: [[zero; H]; T] }
    }

    /// The forward pass over the whole sequence: caches every step and
    /// returns the outputs.
    pub fn ff(&mut self, ops: &O, x: [[O::Scalar; X]; T]) -> (y: [[O::Scalar; Y]; T])
        ensures
            final(self).x == x,
            y == final(self).y,
            forall|t: int| 0 <= t < T ==> #[trigger] final(self).forward_step(*ops, t),
    {
        self.x = x;
        let mut t: usize = 0;
        while t < T
            invariant
                t <= T,
                self.x == x,
                forall|s: int| 0 <= s < t ==> #[trigger] self.forward_step(*ops, s),
            decreases T - t,
        {
            let ghost before = *self;
            let part = ops.input_part(&self.x[t]);
            let z = if t != 0 {
                ops.add_recurrent(part, &self.h[t - 1])
            } else {
                part
            };
            self.z[t] = z;
            let h = ops.activate(&self.z[t]);
            self.h[t] = h;
            let y = ops.output(&self.h[t]);
            self.y[t] = y;
            proof {
                assert(call_ensures(O::input_part, (ops, &self.x[t as int]), part));
                assert(self.forward_step(*ops, t as int));
                assert forall|s: int| 0 <= s < t implies #[trigger] self.forward_step(*ops, s) by {
                    assert(before.forward_step(*ops, s));
                    let p = choose|p: [O::Scalar; H]|
                        {
                            &&& #[trigger] call_ensures(O::input_part, (ops, &before.x[s]), p)
                            &&& if s == 0 {
                                before.z[s] == p
                            } else {
                                call_ensures(O::add_recurrent, (ops, p, &before.h[s - 1]), before.z[s])
                            }
                        };
                    assert(call_ensures(O::input_part, (ops, &self.x[s]), p));
                }
            }
            t += 1;
        }
        self.y
    }

    /// The gradients of back-propagation through time under the output
    /// gradients `gl`. Every weight gradient is accumulated over all `T`
    /// steps; nothing is updated.
    pub fn gradients(&self, ops: &O, gl: [[O::Scalar; Y]; T]) -> (g: RnnGradients<X, Y, H, T, O>)
        ensures
            exists|run: RnnBackward<X, Y, H, O>|
                {
                    &&& #[trigger] self.backward_run(*ops, gl, run)
                    &&& g.dwx == run.dwx[0]
                    &&& g.dwh == run.dwh[0]
                    &&& g.dwy == run.dwy[T as int]
                    &&& forall|t: int|
                        0 <= t < T ==> call_ensures(
                            O::back_input,
                            (ops, &run.local[t]),
                            #[trigger] g.gout[t],
                        )
                },
    {
        let mut dwy = ops.zero_wy();
        let ghost mut dwys: Seq<O::Wy> = seq![dwy];
        let mut t: usize = 0;
        while t < T
            invariant
                t <= T,
                dwys.len() == t + 1,
                dwys[t as int] == dwy,
                call_ensures(O::zero_wy, (ops,), dwys[0]),
                forall|s: int|
                    0 <= s < t ==> #[trigger] call_ensures(
                        O::acc_wy,
                        (ops, dwys[s], &gl[s], &self.h[s]),
                        dwys[s + 1],
                    ),
            decreases T - t,
        {
            dwy = ops.acc_wy(dwy, &gl[t], &self.h[t]);
            proof {
                dwys = dwys.push(dwy);
            }
            t += 1;
        }
        let zero = ops.zero();
        let mut carried = [zero; H];
        let mut gout = [[zero; X]; T];
        let mut dwx = ops.zero_wx();
        let mut dwh = ops.zero_wh();
        let ghost mut run = RnnBackward::<X, Y, H, O> {
            local: Seq::new(T as nat, |s: int| carried),
            carried: Seq::new((T + 1) as nat, |s: int| carried),
            dwx: Seq::new((T + 1) as nat, |s: int| dwx),
            dwh: Seq::new((T + 1) as nat, |s: int| dwh),
            dwy: dwys,
        };
        let mut t: usize = T;
        while t > 0
            invariant
                t <= T,
                run.local.len() == T,
                run.carried.len() == T + 1,
                run.dwx.len() == T + 1,
                run.dwh.len() == T + 1,
                run.dwy == dwys,
                run.carried[t as int] == carried,
                run.dwx[t as int] == dwx,
                run.dwh[t as int] == dwh,
                call_ensures(O::zero, (ops,), zero),
                run.carried[T as int] == [zero; H],
                call_ensures(O::zero_wx, (ops,), run.dwx[T as int]),
                call_ensures(O::zero_wh, (ops,), run.dwh[T as int]),
                forall|s: int| t <= s < T ==> #[trigger] self.backward_step(*ops, gl, run, s),
                forall|s: int|
                    t <= s < T ==> call_ensures(
                        O::back_input,
                        (ops, &run.local[s]),
                        #[trigger] gout[s],
                    ),
            decreases t,
        {
            t -= 1;
            let ghost before = run;
            let local = local_gradient(ops, &self.z[t], &gl[t], &carried);
            dwx = ops.acc_wx(dwx, &local, &self.x[t]);
            if t != 0 {
                dwh = ops.acc_wh(dwh, &local, &self.h[t - 1]);
            }
            let gx = ops.back_input(&local);
            gout[t] = gx;
            carried = ops.carry(&local);
            proof {
                run = RnnBackward::<X, Y, H, O> {
                    local: before.local.update(t as int, local),
                    carried: before.carried.update(t as int, carried),
                    dwx: before.dwx.update(t as int, dwx),
                    dwh: before.dwh.update(t as int, dwh),
                    dwy: dwys,
                };
                assert(self.backward_step(*ops, gl, run, t as int));
                assert forall|s: int| t < s < T implies #[trigger] self.backward_step(
                    *ops,
                    gl,
                    run,
                    s,
                ) by {
                    assert(self.backward_step(*ops, gl, before, s));
                    assert(run.local[s] == before.local[s]);
                    assert(run.carried[s] == before.carried[s]);
                    assert(run.carried[s + 1] == before.carried[s + 1]);
                    assert(run.dwx[s] == before.dwx[s]);
                    assert(run.dwx[s + 1] == before.dwx[s + 1]);
                    assert(run.dwh[s] == before.dwh[s]);
                    assert(run.dwh[s + 1] == before.dwh[s + 1]);
                }
                assert forall|s: int| t < s < T implies call_ensures(
                    O::back_input,
                    (ops, &run.local[s]),
                    #[trigger] gout[s],
                ) by {
                    assert(run.local[s] == before.local[s]);
                }
            }
        }
        proof {
            assert(self.backward_run(*ops, gl, run));
        }
        RnnGradients { gout, dwx, dwh, dwy }
    }
    /// Updates each of the three weights once, with its accumulated
    /// gradient: `Wx`, then `Wh`, then `Wy`.
    pub fn update(ops: &mut O, g: &RnnGradients<X, Y, H, T, O>)
        ensures
            exists|wx: &mut O, wh: &mut O, wy: &mut O|
                {
                    &&& #[trigger] call_ensures(O::update_wx, (wx, &g.dwx), ())
                    &&& #[trigger] call_ensures(O::update_wh, (wh, &g.dwh), ())
                    &&& #[trigger] call_ensures(O::update_wy, (wy, &g.dwy), ())
                    &&& *wx == *old(ops)
                    &&& *wh == *final(wx)
                    &&& *wy == *final(wh)
                    &&& *final(wy) == *final(ops)
                },
    {
        ops.update_wx(&g.dwx);
        ops.update_wh(&g.dwh);
        ops.update_wy(&g.dwy);
    }

    /// Back-propagation through time under the output gradients `gl`: the
    /// gradients are accumulated over all `T` steps under the weights as they
    /// are, then each weight is updated once with its accumulated gradient.
    /// Returns the gradient on every step's input.
    pub fn bp(&self, ops: &mut O, gl: [[O::Scalar; Y]; T]) -> (gout: [[O::Scalar; X]; T])
        ensures
            exists|run: RnnBackward<X, Y, H, O>, wx: &mut O, wh: &mut O, wy: &mut O|
                {
                    &&& #[trigger] self.backward_run(*old(ops), gl, run)
                    &&& forall|t: int|
                        0 <= t < T ==> call_ensures(
                            O::back_input,
                            (&*old(ops), &run.local[t]),
                            #[trigger] gout[t],
                        )
                    &&& #[trigger] call_ensures(O::update_wx, (wx, &run.dwx[0]), ())
                    &&& #[trigger] call_ensures(O::update_wh, (wh, &run.dwh[0]), ())
                    &&& #[trigger] call_ensures(O::update_wy, (wy, &run.dwy[T as int]), ())
                    &&& *wx == *old(ops)
                    &&& *wh == *final(wx)
                    &&& *wy == *final(wh)
                    &&& *final(wy) == *final(ops)
                },
    {
        let g = self.gradients(ops, gl);
        let ghost run = choose|run: RnnBackward<X, Y, H, O>|
            {
                &&& #[trigger] self.backward_run(*ops, gl, run)
                &&& g.dwx == run.dwx[0]
                &&& g.dwh == run.dwh[0]
                &&& g.dwy == run.dwy[T as int]
                &&& forall|t: int|
                    0 <= t < T ==> call_ensures(
                        O::back_input,
                        (ops, &run.local[t]),
                        #[trigger] g.gout[t],
                    )
            };
        Self::update(ops, &g);
        g.gout
    }
}

} // verus!
