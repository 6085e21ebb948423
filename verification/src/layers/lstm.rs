//! An LSTM cell over a sequence of `T` steps: the forward pass that caches
//! every gate of every step, and back-propagation through time, which
//! threads the hidden and the cell gradient backward and accumulates the
//! gradient of every gate over all steps before anything is updated.
use vstd::prelude::*;

verus! {

/// Whether `hx` holds `h`, then `x`, then `zero` in whatever room is left.
pub open spec fn joins<const H: usize, const X: usize, const HX: usize, T>(
    h: [T; H],
    x: [T; X],
    zero: T,
    hx: [T; HX],
) -> bool {
    &&& forall|i: int| 0 <= i < H ==> #[trigger] hx[i] == h[i]
    &&& forall|i: int| 0 <= i < X ==> #[trigger] hx[H + i] == x[i]
    &&& forall|i: int| H + X <= i < HX ==> #[trigger] hx[i] == zero
}

/// Whether `h` is the first `H` entries of `hx` and `x` the `X` after them.
pub open spec fn splits<const H: usize, const X: usize, const HX: usize, T>(
    hx: [T; HX],
    h: [T; H],
    x: [T; X],
) -> bool {
    &&& forall|i: int| 0 <= i < H ==> #[trigger] h[i] == hx[i]
    &&& forall|i: int| 0 <= i < X ==> #[trigger] x[i] == hx[H + i]
}

/// The hidden state followed by the input.
pub fn concat<const H: usize, const X: usize, const HX: usize, T: Copy>(
    h: &[T; H],
    x: &[T; X],
    zero: T,
) -> (hx: [T; HX])
    requires
        H <= HX,
        X == 0 || H + X <= HX,
    ensures
        joins(*h, *x, zero, hx),
{
    let mut out = [zero; HX];
    let mut i: usize = 0;
    while i < H
        invariant
            i <= H,
            H <= HX,
            forall|k: int| 0 <= k < i ==> #[trigger] out[k] == h[k],
            forall|k: int| i <= k < HX ==> #[trigger] out[k] == zero,
        decreases H - i,
    {
        out[i] = h[i];
        i += 1;
    }
    let mut i: usize = 0;
    while i < X
        invariant
            i <= X,
            X == 0 || H + X <= HX,
            forall|k: int| 0 <= k < H ==> #[trigger] out[k] == h[k],
            forall|k: int| 0 <= k < i ==> #[trigger] out[H + k] == x[k],
            forall|k: int| H + i <= k < HX ==> #[trigger] out[k] == zero,
        decreases X - i,
    {
        out[H + i] = x[i];
        proof {
            assert forall|k: int| 0 <= k < i + 1 implies #[trigger] out[H + k] == x[k] by {
                if k < i {
                    assert(out[H + k] == x[k]);
                }
            }
        }
        i += 1;
    }
    out
}

/// The hidden part and the input part of a joined vector.
pub fn unconcat<const H: usize, const X: usize, const HX: usize, T: Copy>(
    hx: &[T; HX],
    zero: T,
) -> (parts: ([T; H], [T; X]))
    requires
        H <= HX,
        X == 0 || H + X <= HX,
    ensures
        splits(*hx, parts.0, parts.1),
{
    let mut h = [zero; H];
    let mut x = [zero; X];
    let mut i: usize = 0;
    while i < H
        invariant
            i <= H,
            H <= HX,
            forall|k: int| 0 <= k < i ==> #[trigger] h[k] == hx[k],
        decreases H - i,
    {
        h[i] = hx[i];
        i += 1;
    }
    let mut i: usize = 0;
    while i < X
        invariant
            i <= X,
            X == 0 || H + X <= HX,
            forall|k: int| 0 <= k < i ==> #[trigger] x[k] == hx[H + k],
        decreases X - i,
    {
        x[i] = hx[H + i];
        i += 1;
    }
    (h, x)
}

/// Splitting what was joined gives the two parts back.
pub proof fn lemma_split_of_join<const H: usize, const X: usize, const HX: usize, T>(
    h: [T; H],
    x: [T; X],
    zero: T,
    hx: [T; HX],
    h2: [T; H],
    x2: [T; X],
)
    requires
        joins(h, x, zero, hx),
        splits(hx, h2, x2),
    ensures
        h2 == h,
        x2 == x,
{
    assert forall|i: int| 0 <= i < H implies h2[i] == h[i] by {
        assert(h2[i] == hx[i]);
    }
    assert forall|i: int| 0 <= i < X implies x2[i] == x[i] by {
        assert(x2[i] == hx[H + i]);
    }
    assert(h2 =~= h);
    assert(x2 =~= x);
}

/// The four gates of a cell.
#[derive(Clone, Copy, Debug, PartialEq, Eq, Structural)]
pub enum Gate {
    Forget,
    Input,
    Candidate,
    Output,
}

/// The tensor arithmetic of a cell with inputs of `X` and states of `H`
/// components, whose gates read joined vectors of `HX` components. Whoever
/// holds the weights and biases of the gates and knows their activations
/// provides it; the cell decides what is computed from what, and when.
pub trait LstmOps<const X: usize, const H: usize, const HX: usize>: Sized {
    type Scalar: Copy;

    /// A gradient in the shape of a gate's weight matrix.
    type W: Copy;

    /// The scalar zero.
    fn zero(&self) -> Self::Scalar;

    /// The zero gradient of a weight matrix.
    fn zero_w(&self) -> Self::W;

    /// The pre-activation `W·hx + b` of `gate`, with its own `W` and `b`.
    fn gate_pre(&self, gate: Gate, hx: &[Self::Scalar; HX]) -> [Self::Scalar; H];

    /// What the activation of `gate` makes of its pre-activation `z`.
    fn gate_act(&self, gate: Gate, z: &[Self::Scalar; H]) -> [Self::Scalar; H];

    /// `a ⊙ b`.
    fn times(&self, a: &[Self::Scalar; H], b: &[Self::Scalar; H]) -> [Self::Scalar; H];

    /// `a + b`.
    fn plus(&self, a: &[Self::Scalar; H], b: &[Self::Scalar; H]) -> [Self::Scalar; H];

    /// `tanh(c)`.
    fn squash(&self, c: &[Self::Scalar; H]) -> [Self::Scalar; H];

    /// The derivative of the activation of `gate` at its pre-activation `z`.
    fn gate_slope(&self, gate: Gate, z: &[Self::Scalar; H]) -> [Self::Scalar; H];

    /// The derivative of `tanh` at `c`.
    fn squash_slope(&self, c: &[Self::Scalar; H]) -> [Self::Scalar; H];

    /// `dw + g·hxᵗ`.
    fn acc_w(&self, dw: Self::W, g: &[Self::Scalar; H], hx: &[Self::Scalar; HX]) -> Self::W;

    /// `ghx + Wᵗ·g`, with the `W` of `gate`.
    fn back(&self, gate: Gate, ghx: [Self::Scalar; HX], g: &[Self::Scalar; H]) -> [Self::Scalar; HX];

    /// One optimizer update of the weights of `gate` with their gradient.
    fn update_w(&mut self, gate: Gate, dw: &Self::W);

    /// One optimizer update of the bias of `gate` with its gradient.
    fn update_b(&mut self, gate: Gate, db: &[Self::Scalar; H]);
}

/// Whether `out` is the gradient on the pre-activation `z` of `gate`:
/// `upstream ⊙ factor`, times the derivative of the activation of `gate`
/// at `z`.
pub open spec fn gate_grads<const X: usize, const H: usize, const HX: usize, O: LstmOps<X, H, HX>>(
    ops: O,
    gate: Gate,
    upstream: [O::Scalar; H],
    factor: [O::Scalar; H],
    z: [O::Scalar; H],
    out: [O::Scalar; H],
) -> bool {
    exists|product: [O::Scalar; H], slope: [O::Scalar; H]|
        {
            &&& #[trigger] call_ensures(O::times, (&ops, &upstream, &factor), product)
            &&& #[trigger] call_ensures(O::gate_slope, (&ops, gate, &z), slope)
            &&& call_ensures(O::times, (&ops, &product, &slope), out)
        }
}

/// Whether `out` is the gradient on the cell state `c` of a step: the cell
/// gradient `gc` carried into the step, plus the hidden gradient `gh` as it
/// reaches the cell state through the output gate `o` and `tanh`:
/// `gc + (gh ⊙ o) ⊙ tanh'(c)`.
pub open spec fn cell_grads<const X: usize, const H: usize, const HX: usize, O: LstmOps<X, H, HX>>(
    ops: O,
    gc: [O::Scalar; H],
    gh: [O::Scalar; H],
    o: [O::Scalar; H],
    c: [O::Scalar; H],
    out: [O::Scalar; H],
) -> bool {
    exists|through: [O::Scalar; H], slope: [O::Scalar; H], reached: [O::Scalar; H]|
        {
            &&& #[trigger] call_ensures(O::times, (&ops, &gh, &o), through)
            &&& #[trigger] call_ensures(O::squash_slope, (&ops, &c), slope)
            &&& #[trigger] call_ensures(O::times, (&ops, &through, &slope), reached)
            &&& call_ensures(O::plus, (&ops, &gc, &reached), out)
        }
}

/// The gradient on the pre-activation `z` of `gate`.
pub fn gate_gradient<const X: usize, const H: usize, const HX: usize, O: LstmOps<X, H, HX>>(
    ops: &O,
    gate: Gate,
    upstream: &[O::Scalar; H],
    factor: &[O::Scalar; H],
    z: &[O::Scalar; H],
) -> (out: [O::Scalar; H])
    ensures
        gate_grads(*ops, gate, *upstream, *factor, *z, out),
{
    let product = ops.times(upstream, factor);
    let slope = ops.gate_slope(gate, z);
    let out = ops.times(&product, &slope);
    proof {
        assert(call_ensures(O::times, (ops, upstream, factor), product));
        assert(call_ensures(O::gate_slope, (ops, gate, z), slope));
        assert(call_ensures(O::times, (ops, &product, &slope), out));
    }
    out
}

/// The gradient on the cell state `c` of a step.
pub fn cell_gradient<const X: usize, const H: usize, const HX: usize, O: LstmOps<X, H, HX>>(
    ops: &O,
    gc: &[O::Scalar; H],
    gh: &[O::Scalar; H],
    o: &[O::Scalar; H],
    c: &[O::Scalar; H],
) -> (out: [O::Scalar; H])
    ensures
        cell_grads(*ops, *gc, *gh, *o, *c, out),
{
    let through = ops.times(gh, o);
    let slope = ops.squash_slope(c);
    let reached = ops.times(&through, &slope);
    let out = ops.plus(gc, &reached);
    proof {
        assert(call_ensures(O::times, (ops, gh, o), through));
        assert(call_ensures(O::squash_slope, (ops, c), slope));
        assert(call_ensures(O::times, (ops, &through, &slope), reached));
        assert(call_ensures(O::plus, (ops, gc, &reached), out));
    }
    out
}

/// What the forward pass caches per step: the input, the joined vector
/// that the gates read, each gate's pre-activation and activation, the cell
/// state, its `tanh`, and the hidden state.
pub struct Lstm<const X: usize, const H: usize, const T: usize, const HX: usize, O: LstmOps<X, H, HX>> {
    pub x: [[O::Scalar; X]; T],
    pub h: [[O::Scalar; H]; T],
    pub c: [[O::Scalar; H]; T],
    pub h_x: [[O::Scalar; HX]; T],
    pub f: [[O::Scalar; H]; T],
    pub i: [[O::Scalar; H]; T],
    pub c_bar: [[O::Scalar; H]; T],
    pub o: [[O::Scalar; H]; T],
    pub ch: [[O::Scalar; H]; T],
    pub zf: [[O::Scalar; H]; T],
    pub zi: [[O::Scalar; H]; T],
    pub zc: [[O::Scalar; H]; T],
    pub zo: [[O::Scalar; H]; T],
}

/// What one backward pass gives: the gradient on every step's input and,
/// for each gate, the gradients of its weights and of its bias, accumulated
/// over all steps.
pub struct LstmGradients<
    const X: usize,
    const H: usize,
    const T: usize,
    const HX: usize,
    O: LstmOps<X, H, HX>,
> {
    pub gx: [[O::Scalar; X]; T],
    pub dwf: O::W,
    pub dwi: O::W,
    pub dwc: O::W,
    pub dwo: O::W,
    pub dbf: [O::Scalar; H],
    pub dbi: [O::Scalar; H],
    pub dbc: [O::Scalar; H],
    pub dbo: [O::Scalar; H],
}

/// A backward pass unrolled over time. The pass walks from the last step
/// to the first. Entries at `t` of the sequences of `T + 1` entries hold a
/// carried gradient or an accumulator once steps `t` and later are done;
/// entries at `t` of the sequences of `T` entries hold what step `t` itself
/// computes.
pub struct LstmBackward<const X: usize, const H: usize, const HX: usize, O: LstmOps<X, H, HX>> {
    /// The scalar zero that the pass starts every gradient from.
    pub zero: O::Scalar,
    /// The hidden gradient carried on from step `t`.
    pub gh: Seq<[O::Scalar; H]>,
    /// The cell gradient carried on from step `t`.
    pub gc: Seq<[O::Scalar; H]>,
    /// The hidden gradient of step `t`: what was carried, plus the step's
    /// output gradient.
    pub gh_in: Seq<[O::Scalar; H]>,
    /// The cell gradient of step `t`.
    pub gc_in: Seq<[O::Scalar; H]>,
    /// The gradients on the pre-activations of the four gates at step `t`.
    pub go: Seq<[O::Scalar; H]>,
    pub gi: Seq<[O::Scalar; H]>,
    pub gcbar: Seq<[O::Scalar; H]>,
    pub gf: Seq<[O::Scalar; H]>,
    /// The gradient on the joined vector of step `t`, after the output, the
    /// input, the candidate and the forget gate sent theirs back.
    pub ghx_o: Seq<[O::Scalar; HX]>,
    pub ghx_i: Seq<[O::Scalar; HX]>,
    pub ghx_c: Seq<[O::Scalar; HX]>,
    pub ghx_f: Seq<[O::Scalar; HX]>,
    /// The accumulated weight gradients of the four gates.
    pub dwf: Seq<O::W>,
    pub dwi: Seq<O::W>,
    pub dwc: Seq<O::W>,
    pub dwo: Seq<O::W>,
    /// The accumulated bias gradients of the four gates.
    pub dbf: Seq<[O::Scalar; H]>,
    pub dbi: Seq<[O::Scalar; H]>,
    pub dbc: Seq<[O::Scalar; H]>,
    pub dbo: Seq<[O::Scalar; H]>,
}

impl<const X: usize, const H: usize, const T: usize, const HX: usize, O: LstmOps<X, H, HX>> Lstm<
    X,
    H,
    T,
    HX,
    O,
> {
    /// Whether step `t` of the cache is what the forward pass computes with
    /// `ops`: the gates read the previous hidden state, zero at the first
    /// step, joined with the input; the cell state is `f ⊙ c[t - 1]`, zero at
    /// the first step, plus `i ⊙ c_bar`; the hidden state is `o ⊙ tanh(c)`.
    pub open spec fn forward_step(&self, ops: O, t: int) -> bool {
        &&& exists|zero: O::Scalar, kept: [O::Scalar; H], fresh: [O::Scalar; H]|
            {
                &&& #[trigger] self.forward_state(ops, t, zero, kept, fresh)
            }
        &&& call_ensures(O::gate_pre, (&ops, Gate::Forget, &self.h_x[t]), self.zf[t])
        &&& call_ensures(O::gate_act, (&ops, Gate::Forget, &self.zf[t]), self.f[t])
        &&& call_ensures(O::gate_pre, (&ops, Gate::Input, &self.h_x[t]), self.zi[t])
        &&& call_ensures(O::gate_act, (&ops, Gate::Input, &self.zi[t]), self.i[t])
        &&& call_ensures(O::gate_pre, (&ops, Gate::Candidate, &self.h_x[t]), self.zc[t])
        &&& call_ensures(O::gate_act, (&ops, Gate::Candidate, &self.zc[t]), self.c_bar[t])
        &&& call_ensures(O::gate_pre, (&ops, Gate::Output, &self.h_x[t]), self.zo[t])
        &&& call_ensures(O::gate_act, (&ops, Gate::Output, &self.zo[t]), self.o[t])
        &&& call_ensures(O::squash, (&ops, &self.c[t]), self.ch[t])
        &&& call_ensures(O::times, (&ops, &self.o[t], &self.ch[t]), self.h[t])
    }

    /// The part of step `t` that looks back at step `t - 1`: with `zero` the
    /// scalar zero, `kept` what the forget gate keeps of the previous cell
    /// state and `fresh` what the input gate lets in.
    pub open spec fn forward_state(
        &self,
        ops: O,
        t: int,
        zero: O::Scalar,
        kept: [O::Scalar; H],
        fresh: [O::Scalar; H],
    ) -> bool {
        &&& call_ensures(O::zero, (&ops,), zero)
        &&& joins(
            if t != 0 {
                self.h[t - 1]
            } else {
                [zero; H]
            },
            self.x[t],
            zero,
            self.h_x[t],
        )
        &&& if t != 0 {
            call_ensures(O::times, (&ops, &self.c[t - 1], &self.f[t]), kept)
        } else {
            kept == [zero; H]
        }
        &&& call_ensures(O::times, (&ops, &self.i[t], &self.c_bar[t]), fresh)
        &&& call_ensures(O::plus, (&ops, &kept, &fresh), self.c[t])
    }

    /// Whether two caches agree at step `t` and at the step before it.
    pub open spec fn agrees_around(&self, other: Self, t: int) -> bool {
        &&& self.x[t] == other.x[t]
        &&& self.h[t] == other.h[t]
        &&& self.c[t] == other.c[t]
        &&& self.h_x[t] == other.h_x[t]
        &&& self.f[t] == other.f[t]
        &&& self.i[t] == other.i[t]
        &&& self.c_bar[t] == other.c_bar[t]
        &&& self.o[t] == other.o[t]
        &&& self.ch[t] == other.ch[t]
        &&& self.zf[t] == other.zf[t]
        &&& self.zi[t] == other.zi[t]
        &&& self.zc[t] == other.zc[t]
        &&& self.zo[t] == other.zo[t]
        &&& t != 0 ==> self.h[t - 1] == other.h[t - 1] && self.c[t - 1] == other.c[t - 1]
    }

    /// A forward step holds of every cache that agrees around it.
    proof fn lemma_forward_step_is_local(&self, other: Self, ops: O, t: int)
        requires
            self.forward_step(ops, t),
            self.agrees_around(other, t),
        ensures
            other.forward_step(ops, t),
    {
        let (zero, kept, fresh) = choose|
            zero: O::Scalar,
            kept: [O::Scalar; H],
            fresh: [O::Scalar; H],
        | #[trigger] self.forward_state(ops, t, zero, kept, fresh);
        assert(other.forward_state(ops, t, zero, kept, fresh));
    }

    /// A cell whose caches are all zero.
    pub fn new(ops: &O) -> (cell: Self)
        ensures
            exists|zero: O::Scalar|
                {
                    &&& #[trigger] call_ensures(O::zero, (ops,), zero)
                    &&& cell.x == [[zero; X]; T]
                    &&& cell.h_x == [[zero; HX]; T]
                    &&& cell.h == [[zero; H]; T]
                    &&& cell.c == [[zero; H]; T]
                    &&& cell.f == [[zero; H]; T]
                    &&& cell.i == [[zero; H]; T]
                    &&& cell.c_bar == [[zero; H]; T]
                    &&& cell.o == [[zero; H]; T]
                    &&& cell.ch == [[zero; H]; T]
                    &&& cell.zf == [[zero; H]; T]
                    &&& cell.zi == [[zero; H]; T]
                    &&& cell.zc == [[zero; H]; T]
                    &&& cell.zo == [[zero; H]; T]
                },
    {
        let zero = ops.zero();
        Lstm {
            x: [[zero; X]; T],
            h: [[zero; H]; T],
            c: [[zero; H]; T],
            h_x: [[zero; HX]; T],
            f: [[zero; H]; T],
            i: [[zero; H]; T],
            c_bar: [[zero; H]; T],
            o: [[zero; H]; T],
            ch: [[zero; H]; T],
            zf: [[zero; H]; T],
            zi: [[zero; H]; T],
            zc: [[zero; H]; T],
            zo: [[zero; H]; T],
        }
    }

    /// The forward pass over the whole sequence: caches every step and
    /// returns the hidden states.
    pub fn ff(&mut self, ops: &O, x: [[O::Scalar; X]; T]) -> (h: [[O::Scalar; H]; T])
        requires
            H <= HX,
            X == 0 || H + X <= HX,
        ensures
            final(self).x == x,
            h == final(self).h,
            forall|t: int| 0 <= t < T ==> #[trigger] final(self).forward_step(*ops, t),
    {
        self.x = x;
        let zero = ops.zero();
        let mut t: usize = 0;
        while t < T
            invariant
                t <= T,
                H <= HX,
                X == 0 || H + X <= HX,
                self.x == x,
                call_ensures(O::zero, (ops,), zero),
                forall|s: int| 0 <= s < t ==> #[trigger] self.forward_step(*ops, s),
            decreases T - t,
        {
            let ghost before = *self;
            let h_x = if t != 0 {
                concat::<H, X, HX, O::Scalar>(&self.h[t - 1], &self.x[t], zero)
            } else {
                concat::<H, X, HX, O::Scalar>(&[zero; H], &self.x[t], zero)
            };
            let zf = ops.gate_pre(Gate::Forget, &h_x);
            let f = ops.gate_act(Gate::Forget, &zf);
            let zi = ops.gate_pre(Gate::Input, &h_x);
            let i = ops.gate_act(Gate::Input, &zi);
            let zc = ops.gate_pre(Gate::Candidate, &h_x);
            let c_bar = ops.gate_act(Gate::Candidate, &zc);
            let zo = ops.gate_pre(Gate::Output, &h_x);
            let o = ops.gate_act(Gate::Output, &zo);
            let kept = if t != 0 {
                ops.times(&self.c[t - 1], &f)
            } else {
                [zero; H]
            };
            let fresh = ops.times(&i, &c_bar);
            let c = ops.plus(&kept, &fresh);
            let ch = ops.squash(&c);
            let h = ops.times(&o, &ch);
            self.h_x[t] = h_x;
            self.zf[t] = zf;
            self.f[t] = f;
            self.zi[t] = zi;
            self.i[t] = i;
            self.zc[t] = zc;
            self.c_bar[t] = c_bar;
            self.zo[t] = zo;
            self.o[t] = o;
            self.c[t] = c;
            self.ch[t] = ch;
            self.h[t] = h;
            proof {
                assert(self.forward_state(*ops, t as int, zero, kept, fresh));
                assert(self.forward_step(*ops, t as int));
                assert forall|s: int| 0 <= s < t implies #[trigger] self.forward_step(*ops, s) by {
                    assert(before.agrees_around(*self, s));
                    before.lemma_forward_step_is_local(*self, *ops, s);
                }
            }
            t += 1;
        }
        self.h
    }

    /// Step `t` of the walk back in time. The hidden gradient takes the
    /// step's output gradient in. Each gate then derives the gradient on its
    /// pre-activation, accumulates it into its weight and bias gradients and
    /// sends it back onto the joined vector: the output gate from the hidden
    /// gradient, the input, candidate and forget gate from the cell gradient,
    /// the forget gate's being zero at the first step. The cell gradient is
    /// carried on through the forget gate, and the hidden part of the
    /// gradient on the joined vector is the hidden gradient carried on.
    pub open spec fn backward_step(
        &self,
        ops: O,
        gy: [[O::Scalar; H]; T],
        run: LstmBackward<X, H, HX, O>,
        t: int,
    ) -> bool {
        &&& call_ensures(O::plus, (&ops, &run.gh[t + 1], &gy[t]), run.gh_in[t])
        &&& gate_grads(ops, Gate::Output, run.gh_in[t], self.ch[t], self.zo[t], run.go[t])
        &&& call_ensures(O::acc_w, (&ops, run.dwo[t + 1], &run.go[t], &self.h_x[t]), run.dwo[t])
        &&& call_ensures(O::plus, (&ops, &run.dbo[t + 1], &run.go[t]), run.dbo[t])
        &&& call_ensures(O::back, (&ops, Gate::Output, [run.zero; HX], &run.go[t]), run.ghx_o[t])
        &&& cell_grads(ops, run.gc[t + 1], run.gh_in[t], self.o[t], self.c[t], run.gc_in[t])
        &&& gate_grads(ops, Gate::Input, run.gc_in[t], self.c_bar[t], self.zi[t], run.gi[t])
        &&& call_ensures(O::acc_w, (&ops, run.dwi[t + 1], &run.gi[t], &self.h_x[t]), run.dwi[t])
        &&& call_ensures(O::plus, (&ops, &run.dbi[t + 1], &run.gi[t]), run.dbi[t])
        &&& call_ensures(O::back, (&ops, Gate::Input, run.ghx_o[t], &run.gi[t]), run.ghx_i[t])
        &&& gate_grads(ops, Gate::Candidate, run.gc_in[t], self.i[t], self.zc[t], run.gcbar[t])
        &&& call_ensures(O::acc_w, (&ops, run.dwc[t + 1], &run.gcbar[t], &self.h_x[t]), run.dwc[t])
        &&& call_ensures(O::plus, (&ops, &run.dbc[t + 1], &run.gcbar[t]), run.dbc[t])
        &&& call_ensures(
            O::back,
            (&ops, Gate::Candidate, run.ghx_i[t], &run.gcbar[t]),
            run.ghx_c[t],
        )
        &&& if t != 0 {
            gate_grads(ops, Gate::Forget, run.gc_in[t], self.c[t - 1], self.zf[t], run.gf[t])
        } else {
            run.gf[t] == [run.zero; H]
        }
        &&& call_ensures(O::acc_w, (&ops, run.dwf[t + 1], &run.gf[t], &self.h_x[t]), run.dwf[t])
        &&& call_ensures(O::plus, (&ops, &run.dbf[t + 1], &run.gf[t]), run.dbf[t])
        &&& call_ensures(O::back, (&ops, Gate::Forget, run.ghx_c[t], &run.gf[t]), run.ghx_f[t])
        &&& call_ensures(O::times, (&ops, &run.gc_in[t], &self.f[t]), run.gc[t])
        &&& forall|k: int| 0 <= k < H ==> #[trigger] run.gh[t][k] == run.ghx_f[t][k]
    }

    /// Whether `run` is a backward pass of this cache under the output
    /// gradients `gy`: every carried gradient and every accumulator starts
    /// from zero, and the walk back in time takes every step from the last to
    /// the first.
    pub open spec fn backward_run(
        &self,
        ops: O,
        gy: [[O::Scalar; H]; T],
        run: LstmBackward<X, H, HX, O>,
    ) -> bool {
        &&& run.shaped(T as int)
        &&& call_ensures(O::zero, (&ops,), run.zero)
        &&& run.gh[T as int] == [run.zero; H]
        &&& run.gc[T as int] == [run.zero; H]
        &&& call_ensures(O::zero_w, (&ops,), run.dwf[T as int])
        &&& call_ensures(O::zero_w, (&ops,), run.dwi[T as int])
        &&& call_ensures(O::zero_w, (&ops,), run.dwc[T as int])
        &&& call_ensures(O::zero_w, (&ops,), run.dwo[T as int])
        &&& run.dbf[T as int] == [run.zero; H]
        &&& run.dbi[T as int] == [run.zero; H]
        &&& run.dbc[T as int] == [run.zero; H]
        &&& run.dbo[T as int] == [run.zero; H]
        &&& forall|t: int| 0 <= t < T ==> #[trigger] self.backward_step(ops, gy, run, t)
    }

    /// A backward step holds of every run that agrees with it on the step
    /// and on what was carried into and out of it.
    proof fn lemma_backward_step_is_local(
        &self,
        ops: O,
        gy: [[O::Scalar; H]; T],
        run: LstmBackward<X, H, HX, O>,
        other: LstmBackward<X, H, HX, O>,
        t: int,
    )
        requires
            self.backward_step(ops, gy, run, t),
            run.zero == other.zero,
            run.same_step(other, t),
            run.same_carry(other, t),
            run.same_carry(other, t + 1),
        ensures
            self.backward_step(ops, gy, other, t),
    {
    }

    /// Whether each operation that a backward pass uses gives one result
    /// only for its arguments.
    pub open spec fn single_valued(ops: O) -> bool {
        &&& forall|r1: O::Scalar, r2: O::Scalar|
            #![trigger call_ensures(O::zero, (&ops,), r1), call_ensures(O::zero, (&ops,), r2)]
            call_ensures(O::zero, (&ops,), r1) && call_ensures(O::zero, (&ops,), r2) ==> r1
                == r2
        &&& forall|r1: O::W, r2: O::W|
            #![trigger call_ensures(O::zero_w, (&ops,), r1), call_ensures(O::zero_w, (&ops,), r2)]
            call_ensures(O::zero_w, (&ops,), r1) && call_ensures(O::zero_w, (&ops,), r2) ==> r1
                == r2
        &&& forall|a: &[O::Scalar; H], b: &[O::Scalar; H], r1: [O::Scalar; H], r2: [O::Scalar; H]|
            #![trigger call_ensures(O::plus, (&ops, a, b), r1), call_ensures(O::plus, (&ops, a, b), r2)]
            call_ensures(O::plus, (&ops, a, b), r1) && call_ensures(O::plus, (&ops, a, b), r2) ==> r1
                == r2
        &&& forall|a: &[O::Scalar; H], b: &[O::Scalar; H], r1: [O::Scalar; H], r2: [O::Scalar; H]|
            #![trigger call_ensures(O::times, (&ops, a, b), r1), call_ensures(O::times, (&ops, a, b), r2)]
            call_ensures(O::times, (&ops, a, b), r1) && call_ensures(O::times, (&ops, a, b), r2) ==> r1
                == r2
        &&& forall|gate: Gate, z: &[O::Scalar; H], r1: [O::Scalar; H], r2: [O::Scalar; H]|
            #![trigger call_ensures(O::gate_slope, (&ops, gate, z), r1), call_ensures(O::gate_slope, (&ops, gate, z), r2)]
            call_ensures(O::gate_slope, (&ops, gate, z), r1) && call_ensures(O::gate_slope, (&ops, gate, z), r2) ==> r1
                == r2
        &&& forall|c: &[O::Scalar; H], r1: [O::Scalar; H], r2: [O::Scalar; H]|
            #![trigger call_ensures(O::squash_slope, (&ops, c), r1), call_ensures(O::squash_slope, (&ops, c), r2)]
            call_ensures(O::squash_slope, (&ops, c), r1) && call_ensures(O::squash_slope, (&ops, c), r2) ==> r1
                == r2
        &&& forall|dw: O::W, g: &[O::Scalar; H], hx: &[O::Scalar; HX], r1: O::W, r2: O::W|
            #![trigger call_ensures(O::acc_w, (&ops, dw, g, hx), r1), call_ensures(O::acc_w, (&ops, dw, g, hx), r2)]
            call_ensures(O::acc_w, (&ops, dw, g, hx), r1) && call_ensures(O::acc_w, (&ops, dw, g, hx), r2) ==> r1
                == r2
        &&& forall|gate: Gate, ghx: [O::Scalar; HX], g: &[O::Scalar; H], r1: [O::Scalar; HX], r2: [O::Scalar; HX]|
            #![trigger call_ensures(O::back, (&ops, gate, ghx, g), r1), call_ensures(O::back, (&ops, gate, ghx, g), r2)]
            call_ensures(O::back, (&ops, gate, ghx, g), r1) && call_ensures(O::back, (&ops, gate, ghx, g), r2) ==> r1
                == r2
    }

    /// Where every operation gives one result only, so does the gradient on
    /// a gate's pre-activation.
    proof fn lemma_gate_grads_once(
        ops: O,
        gate: Gate,
        upstream: [O::Scalar; H],
        factor: [O::Scalar; H],
        z: [O::Scalar; H],
        r1: [O::Scalar; H],
        r2: [O::Scalar; H],
    )
        requires
            Self::single_valued(ops),
            gate_grads(ops, gate, upstream, factor, z, r1),
            gate_grads(ops, gate, upstream, factor, z, r2),
        ensures
            r1 == r2,
    {
        let (p1, s1) = choose|product: [O::Scalar; H], slope: [O::Scalar; H]|
            {
                &&& #[trigger] call_ensures(O::times, (&ops, &upstream, &factor), product)
                &&& #[trigger] call_ensures(O::gate_slope, (&ops, gate, &z), slope)
                &&& call_ensures(O::times, (&ops, &product, &slope), r1)
            };
        let (p2, s2) = choose|product: [O::Scalar; H], slope: [O::Scalar; H]|
            {
                &&& #[trigger] call_ensures(O::times, (&ops, &upstream, &factor), product)
                &&& #[trigger] call_ensures(O::gate_slope, (&ops, gate, &z), slope)
                &&& call_ensures(O::times, (&ops, &product, &slope), r2)
            };
        assert(p1 == p2);
        assert(s1 == s2);
    }

    /// Where every operation gives one result only, so does the gradient on
    /// the cell state.
    proof fn lemma_cell_grads_once(
        ops: O,
        gc: [O::Scalar; H],
        gh: [O::Scalar; H],
        o: [O::Scalar; H],
        c: [O::Scalar; H],
        r1: [O::Scalar; H],
        r2: [O::Scalar; H],
    )
        requires
            Self::single_valued(ops),
            cell_grads(ops, gc, gh, o, c, r1),
            cell_grads(ops, gc, gh, o, c, r2),
        ensures
            r1 == r2,
    {
        let (p1, s1, q1) = choose|
            through: [O::Scalar; H],
            slope: [O::Scalar; H],
            reached: [O::Scalar; H],
        |
            {
                &&& #[trigger] call_ensures(O::times, (&ops, &gh, &o), through)
                &&& #[trigger] call_ensures(O::squash_slope, (&ops, &c), slope)
                &&& #[trigger] call_ensures(O::times, (&ops, &through, &slope), reached)
                &&& call_ensures(O::plus, (&ops, &gc, &reached), r1)
            };
        let (p2, s2, q2) = choose|
            through: [O::Scalar; H],
            slope: [O::Scalar; H],
            reached: [O::Scalar; H],
        |
            {
                &&& #[trigger] call_ensures(O::times, (&ops, &gh, &o), through)
                &&& #[trigger] call_ensures(O::squash_slope, (&ops, &c), slope)
                &&& #[trigger] call_ensures(O::times, (&ops, &through, &slope), reached)
                &&& call_ensures(O::plus, (&ops, &gc, &reached), r2)
            };
        assert(p1 == p2);
        assert(s1 == s2);
        assert(q1 == q2);
    }

    /// Two backward passes of one cache agree, from step `t` on, on what
    /// they carry and accumulate and on what each step computes.
    proof fn lemma_walks_agree(
        &self,
        ops: O,
        gy: [[O::Scalar; H]; T],
        run1: LstmBackward<X, H, HX, O>,
        run2: LstmBackward<X, H, HX, O>,
        t: int,
    )
        requires
            0 <= t <= T,
            Self::single_valued(ops),
            self.backward_run(ops, gy, run1),
            self.backward_run(ops, gy, run2),
        ensures
            run1.zero == run2.zero,
            run1.same_carry(run2, t),
            t < T ==> run1.same_step(run2, t),
        decreases T - t,
    {
        assert(run1.zero == run2.zero);
        if t < T {
            self.lemma_walks_agree(ops, gy, run1, run2, t + 1);
            assert(self.backward_step(ops, gy, run1, t));
            assert(self.backward_step(ops, gy, run2, t));
            assert(run1.gh_in[t] == run2.gh_in[t]);
            Self::lemma_gate_grads_once(
                ops,
                Gate::Output,
                run1.gh_in[t],
                self.ch[t],
                self.zo[t],
                run1.go[t],
                run2.go[t],
            );
            assert(run1.ghx_o[t] == run2.ghx_o[t]);
            Self::lemma_cell_grads_once(
                ops,
                run1.gc[t + 1],
                run1.gh_in[t],
                self.o[t],
                self.c[t],
                run1.gc_in[t],
                run2.gc_in[t],
            );
            Self::lemma_gate_grads_once(
                ops,
                Gate::Input,
                run1.gc_in[t],
                self.c_bar[t],
                self.zi[t],
                run1.gi[t],
                run2.gi[t],
            );
            assert(run1.ghx_i[t] == run2.ghx_i[t]);
            Self::lemma_gate_grads_once(
                ops,
                Gate::Candidate,
                run1.gc_in[t],
                self.i[t],
                self.zc[t],
                run1.gcbar[t],
                run2.gcbar[t],
            );
            assert(run1.ghx_c[t] == run2.ghx_c[t]);
            if t != 0 {
                Self::lemma_gate_grads_once(
                    ops,
                    Gate::Forget,
                    run1.gc_in[t],
                    self.c[t - 1],
                    self.zf[t],
                    run1.gf[t],
                    run2.gf[t],
                );
            }
            assert(run1.gf[t] == run2.gf[t]);
            assert(run1.ghx_f[t] == run2.ghx_f[t]);
            assert(run1.gh[t] =~= run2.gh[t]);
        }
    }

    /// Where every operation gives one result only, a cache and the output
    /// gradients determine the accumulated gradients of every gate and what
    /// each step sends back onto its joined vector.
    pub proof fn lemma_backward_run_once(
        &self,
        ops: O,
        gy: [[O::Scalar; H]; T],
        run1: LstmBackward<X, H, HX, O>,
        run2: LstmBackward<X, H, HX, O>,
    )
        requires
            Self::single_valued(ops),
            self.backward_run(ops, gy, run1),
            self.backward_run(ops, gy, run2),
        ensures
            run1.same_carry(run2, 0),
            forall|t: int| 0 <= t < T ==> #[trigger] run1.ghx_f[t] == run2.ghx_f[t],
    {
        self.lemma_walks_agree(ops, gy, run1, run2, 0);
        assert forall|t: int| 0 <= t < T implies #[trigger] run1.ghx_f[t] == run2.ghx_f[t] by {
            self.lemma_walks_agree(ops, gy, run1, run2, t);
        }
    }

    /// The gradients of back-propagation through time under the output
    /// gradients `gy`. Every gate's gradients are accumulated over all `T`
    /// steps; nothing is updated.
    pub fn gradients(&self, ops: &O, gy: [[O::Scalar; H]; T]) -> (g: LstmGradients<X, H, T, HX, O>)
        requires
            H <= HX,
            X == 0 || H + X <= HX,
        ensures
            exists|run: LstmBackward<X, H, HX, O>|
                {
                    &&& #[trigger] self.backward_run(*ops, gy, run)
                    &&& g.dwf == run.dwf[0]
                    &&& g.dwi == run.dwi[0]
                    &&& g.dwc == run.dwc[0]
                    &&& g.dwo == run.dwo[0]
                    &&& g.dbf == run.dbf[0]
                    &&& g.dbi == run.dbi[0]
                    &&& g.dbc == run.dbc[0]
                    &&& g.dbo == run.dbo[0]
                    &&& forall|t: int, k: int|
                        0 <= t < T && 0 <= k < X ==> #[trigger] g.gx[t][k] == run.ghx_f[t][H + k]
                },
    {
        let zero = ops.zero();
        let mut gx = [[zero; X]; T];
        let mut gc = [zero; H];
        let mut gh = [zero; H];
        let mut dwf = ops.zero_w();
        let mut dwi = ops.zero_w();
        let mut dwc = ops.zero_w();
        let mut dwo = ops.zero_w();
        let mut dbf = [zero; H];
        let mut dbi = [zero; H];
        let mut dbc = [zero; H];
        let mut dbo = [zero; H];
        let ghost mut run = LstmBackward::<X, H, HX, O> {
            zero,
            gh: Seq::new((T + 1) as nat, |s: int| gh),
            gc: Seq::new((T + 1) as nat, |s: int| gc),
            gh_in: Seq::new(T as nat, |s: int| gh),
            gc_in: Seq::new(T as nat, |s: int| gh),
            go: Seq::new(T as nat, |s: int| gh),
            gi: Seq::new(T as nat, |s: int| gh),
            gcbar: Seq::new(T as nat, |s: int| gh),
            gf: Seq::new(T as nat, |s: int| gh),
            ghx_o: Seq::new(T as nat, |s: int| [zero; HX]),
            ghx_i: Seq::new(T as nat, |s: int| [zero; HX]),
            ghx_c: Seq::new(T as nat, |s: int| [zero; HX]),
            ghx_f: Seq::new(T as nat, |s: int| [zero; HX]),
            dwf: Seq::new((T + 1) as nat, |s: int| dwf),
            dwi: Seq::new((T + 1) as nat, |s: int| dwi),
            dwc: Seq::new((T + 1) as nat, |s: int| dwc),
            dwo: Seq::new((T + 1) as nat, |s: int| dwo),
            dbf: Seq::new((T + 1) as nat, |s: int| dbf),
            dbi: Seq::new((T + 1) as nat, |s: int| dbi),
            dbc: Seq::new((T + 1) as nat, |s: int| dbc),
            dbo: Seq::new((T + 1) as nat, |s: int| dbo),
        };
        let mut t: usize = T;
        while t > 0
            invariant
                t <= T,
                H <= HX,
                X == 0 || H + X <= HX,
                run.shaped(T as int),
                run.zero == zero,
                call_ensures(O::zero, (ops,), zero),
                run.gh[t as int] == gh,
                run.gc[t as int] == gc,
                run.dwf[t as int] == dwf,
                run.dwi[t as int] == dwi,
                run.dwc[t as int] == dwc,
                run.dwo[t as int] == dwo,
                run.dbf[t as int] == dbf,
                run.dbi[t as int] == dbi,
                run.dbc[t as int] == dbc,
                run.dbo[t as int] == dbo,
                run.gh[T as int] == [zero; H],
                run.gc[T as int] == [zero; H],
                call_ensures(O::zero_w, (ops,), run.dwf[T as int]),
                call_ensures(O::zero_w, (ops,), run.dwi[T as int]),
                call_ensures(O::zero_w, (ops,), run.dwc[T as int]),
                call_ensures(O::zero_w, (ops,), run.dwo[T as int]),
                run.dbf[T as int] == [zero; H],
                run.dbi[T as int] == [zero; H],
                run.dbc[T as int] == [zero; H],
                run.dbo[T as int] == [zero; H],
                forall|s: int| t <= s < T ==> #[trigger] self.backward_step(*ops, gy, run, s),
                forall|s: int, k: int|
                    t <= s < T && 0 <= k < X ==> #[trigger] gx[s][k] == run.ghx_f[s][H + k],
            decreases t,
        {
            t -= 1;
            let ghost before = run;
            let ghost gx_before = gx;
            let ghx = [zero; HX];
            let gh_in = ops.plus(&gh, &gy[t]);
            let go = gate_gradient(ops, Gate::Output, &gh_in, &self.ch[t], &self.zo[t]);
            dwo = ops.acc_w(dwo, &go, &self.h_x[t]);
            dbo = ops.plus(&dbo, &go);
            let ghx_o = ops.back(Gate::Output, ghx, &go);
            let gc_in = cell_gradient(ops, &gc, &gh_in, &self.o[t], &self.c[t]);
            let gi = gate_gradient(ops, Gate::Input, &gc_in, &self.c_bar[t], &self.zi[t]);
            dwi = ops.acc_w(dwi, &gi, &self.h_x[t]);
            dbi = ops.plus(&dbi, &gi);
            let ghx_i = ops.back(Gate::Input, ghx_o, &gi);
            let gcbar = gate_gradient(ops, Gate::Candidate, &gc_in, &self.i[t], &self.zc[t]);
            dwc = ops.acc_w(dwc, &gcbar, &self.h_x[t]);
            dbc = ops.plus(&dbc, &gcbar);
            let ghx_c = ops.back(Gate::Candidate, ghx_i, &gcbar);
            let gf = if t != 0 {
                gate_gradient(ops, Gate::Forget, &gc_in, &self.c[t - 1], &self.zf[t])
            } else {
                [zero; H]
            };
            dwf = ops.acc_w(dwf, &gf, &self.h_x[t]);
            dbf = ops.plus(&dbf, &gf);
            let ghx_f = ops.back(Gate::Forget, ghx_c, &gf);
            gc = ops.times(&gc_in, &self.f[t]);
            let (tmp_gh, tmp_gx) = unconcat::<H, X, HX, O::Scalar>(&ghx_f, zero);
            gx[t] = tmp_gx;
            gh = tmp_gh;
            proof {
                run = LstmBackward::<X, H, HX, O> {
                    zero,
                    gh: before.gh.update(t as int, gh),
                    gc: before.gc.update(t as int, gc),
                    gh_in: before.gh_in.update(t as int, gh_in),
                    gc_in: before.gc_in.update(t as int, gc_in),
                    go: before.go.update(t as int, go),
                    gi: before.gi.update(t as int, gi),
                    gcbar: before.gcbar.update(t as int, gcbar),
                    gf: before.gf.update(t as int, gf),
                    ghx_o: before.ghx_o.update(t as int, ghx_o),
                    ghx_i: before.ghx_i.update(t as int, ghx_i),
                    ghx_c: before.ghx_c.update(t as int, ghx_c),
                    ghx_f: before.ghx_f.update(t as int, ghx_f),
                    dwf: before.dwf.update(t as int, dwf),
                    dwi: before.dwi.update(t as int, dwi),
                    dwc: before.dwc.update(t as int, dwc),
                    dwo: before.dwo.update(t as int, dwo),
                    dbf: before.dbf.update(t as int, dbf),
                    dbi: before.dbi.update(t as int, dbi),
                    dbc: before.dbc.update(t as int, dbc),
                    dbo: before.dbo.update(t as int, dbo),
                };
                assert(self.backward_step(*ops, gy, run, t as int));
                assert forall|s: int| t < s < T implies #[trigger] self.backward_step(
                    *ops,
                    gy,
                    run,
                    s,
                ) by {
                    assert(before.same_step(run, s));
                    assert(before.same_carry(run, s));
                    assert(before.same_carry(run, s + 1));
                    self.lemma_backward_step_is_local(*ops, gy, before, run, s);
                }
                assert forall|s: int, k: int| t <= s < T && 0 <= k < X implies #[trigger] gx[s][k]
                    == run.ghx_f[s][H + k] by {
                    if s > t {
                        assert(gx[s] == gx_before[s]);
                        assert(run.ghx_f[s] == before.ghx_f[s]);
                    }
                }
            }
        }
        proof {
            assert(self.backward_run(*ops, gy, run));
        }
        LstmGradients { gx, dwf, dwi, dwc, dwo, dbf, dbi, dbc, dbo }
    }

    /// Updates each of the eight tensors once, with its accumulated
    /// gradient: weights then bias of the forget gate, of the input gate, of
    /// the candidate, and of the output gate.
    pub fn update(ops: &mut O, g: &LstmGradients<X, H, T, HX, O>)
        ensures
            exists|
                wf: &mut O,
                bf: &mut O,
                wi: &mut O,
                bi: &mut O,
                wc: &mut O,
                bc: &mut O,
                wo: &mut O,
                bo: &mut O,
            |
                {
                    &&& #[trigger] call_ensures(O::update_w, (wf, Gate::Forget, &g.dwf), ())
                    &&& #[trigger] call_ensures(O::update_b, (bf, Gate::Forget, &g.dbf), ())
                    &&& #[trigger] call_ensures(O::update_w, (wi, Gate::Input, &g.dwi), ())
                    &&& #[trigger] call_ensures(O::update_b, (bi, Gate::Input, &g.dbi), ())
                    &&& #[trigger] call_ensures(O::update_w, (wc, Gate::Candidate, &g.dwc), ())
                    &&& #[trigger] call_ensures(O::update_b, (bc, Gate::Candidate, &g.dbc), ())
                    &&& #[trigger] call_ensures(O::update_w, (wo, Gate::Output, &g.dwo), ())
                    &&& #[trigger] call_ensures(O::update_b, (bo, Gate::Output, &g.dbo), ())
                    &&& *wf == *old(ops)
                    &&& *bf == *final(wf)
                    &&& *wi == *final(bf)
                    &&& *bi == *final(wi)
                    &&& *wc == *final(bi)
                    &&& *bc == *final(wc)
                    &&& *wo == *final(bc)
                    &&& *bo == *final(wo)
                    &&& *final(bo) == *final(ops)
                },
    {
        ops.update_w(Gate::Forget, &g.dwf);
        ops.update_b(Gate::Forget, &g.dbf);
        ops.update_w(Gate::Input, &g.dwi);
        ops.update_b(Gate::Input, &g.dbi);
        ops.update_w(Gate::Candidate, &g.dwc);
        ops.update_b(Gate::Candidate, &g.dbc);
        ops.update_w(Gate::Output, &g.dwo);
        ops.update_b(Gate::Output, &g.dbo);
    }

    /// Back-propagation through time under the output gradients `gy`: the
    /// gradients are accumulated over all `T` steps under the weights as they
    /// are, then each of the eight tensors is updated once with its
    /// accumulated gradient. Returns the gradient on every step's input.
    pub fn bp(&self, ops: &mut O, gy: [[O::Scalar; H]; T]) -> (gx: [[O::Scalar; X]; T])
        requires
            H <= HX,
            X == 0 || H + X <= HX,
        ensures
            exists|
                run: LstmBackward<X, H, HX, O>,
                wf: &mut O,
                bf: &mut O,
                wi: &mut O,
                bi: &mut O,
                wc: &mut O,
                bc: &mut O,
                wo: &mut O,
                bo: &mut O,
            |
                {
                    &&& #[trigger] self.backward_run(*old(ops), gy, run)
                    &&& forall|t: int, k: int|
                        0 <= t < T && 0 <= k < X ==> #[trigger] gx[t][k] == run.ghx_f[t][H + k]
                    &&& #[trigger] call_ensures(O::update_w, (wf, Gate::Forget, &run.dwf[0]), ())
                    &&& #[trigger] call_ensures(O::update_b, (bf, Gate::Forget, &run.dbf[0]), ())
                    &&& #[trigger] call_ensures(O::update_w, (wi, Gate::Input, &run.dwi[0]), ())
                    &&& #[trigger] call_ensures(O::update_b, (bi, Gate::Input, &run.dbi[0]), ())
                    &&& #[trigger] call_ensures(
                        O::update_w,
                        (wc, Gate::Candidate, &run.dwc[0]),
                        (),
                    )
                    &&& #[trigger] call_ensures(
                        O::update_b,
                        (bc, Gate::Candidate, &run.dbc[0]),
                        (),
                    )
                    &&& #[trigger] call_ensures(O::update_w, (wo, Gate::Output, &run.dwo[0]), ())
                    &&& #[trigger] call_ensures(O::update_b, (bo, Gate::Output, &run.dbo[0]), ())
                    &&& *wf == *old(ops)
                    &&& *bf == *final(wf)
                    &&& *wi == *final(bf)
                    &&& *bi == *final(wi)
                    &&& *wc == *final(bi)
                    &&& *bc == *final(wc)
                    &&& *wo == *final(bc)
                    &&& *bo == *final(wo)
                    &&& *final(bo) == *final(ops)
                },
    {
        let g = self.gradients(ops, gy);
        let ghost run = choose|run: LstmBackward<X, H, HX, O>|
            {
                &&& #[trigger] self.backward_run(*ops, gy, run)
                &&& g.dwf == run.dwf[0]
                &&& g.dwi == run.dwi[0]
                &&& g.dwc == run.dwc[0]
                &&& g.dwo == run.dwo[0]
                &&& g.dbf == run.dbf[0]
                &&& g.dbi == run.dbi[0]
                &&& g.dbc == run.dbc[0]
                &&& g.dbo == run.dbo[0]
                &&& forall|t: int, k: int|
                    0 <= t < T && 0 <= k < X ==> #[trigger] g.gx[t][k] == run.ghx_f[t][H + k]
            };
        Self::update(ops, &g);
        g.gx
    }
}

impl<const X: usize, const H: usize, const HX: usize, O: LstmOps<X, H, HX>> LstmBackward<
    X,
    H,
    HX,
    O,
> {
    /// Whether the run is unrolled over `t` steps.
    pub open spec fn shaped(&self, t: int) -> bool {
        &&& self.gh.len() == t + 1
        &&& self.gc.len() == t + 1
        &&& self.gh_in.len() == t
        &&& self.gc_in.len() == t
        &&& self.go.len() == t
        &&& self.gi.len() == t
        &&& self.gcbar.len() == t
        &&& self.gf.len() == t
        &&& self.ghx_o.len() == t
        &&& self.ghx_i.len() == t
        &&& self.ghx_c.len() == t
        &&& self.ghx_f.len() == t
        &&& self.dwf.len() == t + 1
        &&& self.dwi.len() == t + 1
        &&& self.dwc.len() == t + 1
        &&& self.dwo.len() == t + 1
        &&& self.dbf.len() == t + 1
        &&& self.dbi.len() == t + 1
        &&& self.dbc.len() == t + 1
        &&& self.dbo.len() == t + 1
    }

    /// Whether two runs agree on what step `t` itself computes.
    pub open spec fn same_step(&self, other: Self, t: int) -> bool {
        &&& self.gh_in[t] == other.gh_in[t]
        &&& self.gc_in[t] == other.gc_in[t]
        &&& self.go[t] == other.go[t]
        &&& self.gi[t] == other.gi[t]
        &&& self.gcbar[t] == other.gcbar[t]
        &&& self.gf[t] == other.gf[t]
        &&& self.ghx_o[t] == other.ghx_o[t]
        &&& self.ghx_i[t] == other.ghx_i[t]
        &&& self.ghx_c[t] == other.ghx_c[t]
        &&& self.ghx_f[t] == other.ghx_f[t]
    }

    /// Whether two runs agree on what is carried and accumulated once
    /// steps `t` and later are done.
    pub open spec fn same_carry(&self, other: Self, t: int) -> bool {
        &&& self.gh[t] == other.gh[t]
        &&& self.gc[t] == other.gc[t]
        &&& self.dwf[t] == other.dwf[t]
        &&& self.dwi[t] == other.dwi[t]
        &&& self.dwc[t] == other.dwc[t]
        &&& self.dwo[t] == other.dwo[t]
        &&& self.dbf[t] == other.dbf[t]
        &&& self.dbi[t] == other.dbi[t]
        &&& self.dbc[t] == other.dbc[t]
        &&& self.dbo[t] == other.dbo[t]
    }
}

} // verus!
