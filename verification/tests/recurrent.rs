use neuralnet::layers::lstm::{Gate, Lstm, LstmOps};
use neuralnet::layers::rnncell::{RnnCell, RnnOps};

const X: usize = 2;
const Y: usize = 2;
const H: usize = 3;
const T: usize = 4;

/// The weights of a small recurrent cell with a `tanh` activation.
#[derive(Clone, Copy, Debug, PartialEq)]
struct Weights {
    wx: [[f64; X]; H],
    wh: [[f64; H]; H],
    wy: [[f64; H]; Y],
    updates: [usize; 3],
    order: [usize; 3],
    made: usize,
}

fn step<const R: usize, const C: usize>(w: &mut [[f64; C]; R], d: &[[f64; C]; R]) {
    for i in 0..R {
        for j in 0..C {
            w[i][j] -= 0.5 * d[i][j];
        }
    }
}

fn outer<const R: usize, const C: usize>(
    mut d: [[f64; C]; R],
    g: &[f64; R],
    v: &[f64; C],
) -> [[f64; C]; R] {
    for i in 0..R {
        for j in 0..C {
            d[i][j] += g[i] * v[j];
        }
    }
    d
}

fn matvec<const R: usize, const C: usize>(w: &[[f64; C]; R], v: &[f64; C]) -> [f64; R] {
    let mut out = [0.; R];
    for i in 0..R {
        for j in 0..C {
            out[i] += w[i][j] * v[j];
        }
    }
    out
}

fn matvec_t<const R: usize, const C: usize>(w: &[[f64; C]; R], v: &[f64; R]) -> [f64; C] {
    let mut out = [0.; C];
    for i in 0..R {
        for j in 0..C {
            out[j] += w[i][j] * v[i];
        }
    }
    out
}

impl RnnOps<X, Y, H> for Weights {
    type Scalar = f64;
    type Wx = [[f64; X]; H];
    type Wh = [[f64; H]; H];
    type Wy = [[f64; H]; Y];

    fn zero(&self) -> f64 {
        0.
    }

    fn zero_wx(&self) -> Self::Wx {
        [[0.; X]; H]
    }

    fn zero_wh(&self) -> Self::Wh {
        [[0.; H]; H]
    }

    fn zero_wy(&self) -> Self::Wy {
        [[0.; H]; Y]
    }

    fn input_part(&self, x: &[f64; X]) -> [f64; H] {
        matvec(&self.wx, x)
    }

    fn add_recurrent(&self, z: [f64; H], h: &[f64; H]) -> [f64; H] {
        let r = matvec(&self.wh, h);
        [z[0] + r[0], z[1] + r[1], z[2] + r[2]]
    }

    fn activate(&self, z: &[f64; H]) -> [f64; H] {
        z.map(f64::tanh)
    }

    fn output(&self, h: &[f64; H]) -> [f64; Y] {
        matvec(&self.wy, h)
    }

    fn acc_wy(&self, d: Self::Wy, g: &[f64; Y], h: &[f64; H]) -> Self::Wy {
        outer(d, g, h)
    }

    fn acc_wx(&self, d: Self::Wx, g: &[f64; H], x: &[f64; X]) -> Self::Wx {
        outer(d, g, x)
    }

    fn acc_wh(&self, d: Self::Wh, g: &[f64; H], h: &[f64; H]) -> Self::Wh {
        outer(d, g, h)
    }

    fn back_output(&self, gy: &[f64; Y]) -> [f64; H] {
        matvec_t(&self.wy, gy)
    }

    fn slope(&self, z: &[f64; H]) -> [f64; H] {
        z.map(|v| 1. - v.tanh().powi(2))
    }

    fn plus(&self, a: &[f64; H], b: &[f64; H]) -> [f64; H] {
        [a[0] + b[0], a[1] + b[1], a[2] + b[2]]
    }

    fn times(&self, a: &[f64; H], b: &[f64; H]) -> [f64; H] {
        [a[0] * b[0], a[1] * b[1], a[2] * b[2]]
    }

    fn update_wx(&mut self, d: &Self::Wx) {
        step(&mut self.wx, d);
        self.updates[0] += 1;
        self.order[self.made] = 0;
        self.made += 1;
    }

    fn update_wh(&mut self, d: &Self::Wh) {
        step(&mut self.wh, d);
        self.updates[1] += 1;
        self.order[self.made] = 1;
        self.made += 1;
    }

    fn update_wy(&mut self, d: &Self::Wy) {
        step(&mut self.wy, d);
        self.updates[2] += 1;
        self.order[self.made] = 2;
        self.made += 1;
    }

    fn back_input(&self, g: &[f64; H]) -> [f64; X] {
        matvec_t(&self.wx, g)
    }

    fn carry(&self, g: &[f64; H]) -> [f64; H] {
        matvec_t(&self.wh, g)
    }
}

fn weights() -> Weights {
    Weights {
        wx: [[0.3, -0.2], [0.1, 0.4], [-0.5, 0.25]],
        wh: [[0.2, -0.1, 0.05], [0.3, 0.15, -0.25], [-0.4, 0.35, 0.1]],
        wy: [[0.6, -0.3, 0.2], [-0.1, 0.45, 0.5]],
        updates: [0; 3],
        order: [9; 3],
        made: 0,
    }
}

fn inputs() -> [[f64; X]; T] {
    [[1., -0.5], [0.25, 0.75], [-1.5, 0.5], [0.1, 0.2]]
}

/// Half the squared norm of all outputs, whose gradient on each output is
/// the output itself.
fn loss(w: &Weights, x: [[f64; X]; T]) -> f64 {
    let mut cell = RnnCell::<X, Y, H, T, Weights>::new(w);
    let y = cell.ff(w, x);
    y.iter().flatten().map(|v| v * v).sum::<f64>() / 2.
}

#[test]
fn rnn_forward_skips_the_recurrence_at_the_first_step() {
    let w = weights();
    let mut cell = RnnCell::<X, Y, H, T, Weights>::new(&w);
    let x = inputs();
    let y = cell.ff(&w, x);
    assert_eq!(cell.x, x);
    assert_eq!(cell.y, y);
    assert_eq!(cell.z[0], matvec(&w.wx, &x[0]));
    for t in 0..T {
        assert_eq!(cell.h[t], cell.z[t].map(f64::tanh));
        assert_eq!(y[t], matvec(&w.wy, &cell.h[t]));
    }
    for t in 1..T {
        let part = matvec(&w.wx, &x[t]);
        let rec = matvec(&w.wh, &cell.h[t - 1]);
        assert_eq!(cell.z[t], [part[0] + rec[0], part[1] + rec[1], part[2] + rec[2]]);
    }
    assert_eq!(cell.z[0][0], 0.3 * 1. + -0.2 * -0.5);
}

#[test]
fn rnn_gradients_are_the_sums_of_the_steps() {
    let w = weights();
    let mut cell = RnnCell::<X, Y, H, T, Weights>::new(&w);
    let gl = cell.ff(&w, inputs());
    let g = cell.gradients(&w, gl);

    let mut dwy = [[0.; H]; Y];
    for t in 0..T {
        let step = outer([[0.; H]; Y], &gl[t], &cell.h[t]);
        for i in 0..Y {
            for j in 0..H {
                dwy[i][j] += step[i][j];
            }
        }
    }
    assert_eq!(g.dwy, dwy);

    let mut carried = [0.; H];
    let mut dwx = [[0.; X]; H];
    let mut dwh = [[0.; H]; H];
    for t in (0..T).rev() {
        let local = w.times(&w.slope(&cell.z[t]), &w.plus(&w.back_output(&gl[t]), &carried));
        let step = outer([[0.; X]; H], &local, &cell.x[t]);
        for i in 0..H {
            for j in 0..X {
                dwx[i][j] += step[i][j];
            }
        }
        if t != 0 {
            let step = outer([[0.; H]; H], &local, &cell.h[t - 1]);
            for i in 0..H {
                for j in 0..H {
                    dwh[i][j] += step[i][j];
                }
            }
        }
        assert_eq!(g.gout[t], matvec_t(&w.wx, &local));
        carried = matvec_t(&w.wh, &local);
    }
    assert_eq!(g.dwx, dwx);
    assert_eq!(g.dwh, dwh);
}

#[test]
fn rnn_gradients_match_finite_differences() {
    let w = weights();
    let x = inputs();
    let mut cell = RnnCell::<X, Y, H, T, Weights>::new(&w);
    let gl = cell.ff(&w, x);
    let g = cell.gradients(&w, gl);
    let eps = 1e-6;
    let base = loss(&w, x);
    for i in 0..H {
        for j in 0..X {
            let mut w2 = w;
            w2.wx[i][j] += eps;
            assert!((loss(&w2, x) - base - eps * g.dwx[i][j]).abs() < 1e-10);
        }
        for j in 0..H {
            let mut w2 = w;
            w2.wh[i][j] += eps;
            assert!((loss(&w2, x) - base - eps * g.dwh[i][j]).abs() < 1e-10);
        }
    }
    for i in 0..Y {
        for j in 0..H {
            let mut w2 = w;
            w2.wy[i][j] += eps;
            assert!((loss(&w2, x) - base - eps * g.dwy[i][j]).abs() < 1e-10);
        }
    }
    for t in 0..T {
        for j in 0..X {
            let mut x2 = x;
            x2[t][j] += eps;
            assert!((loss(&w, x2) - base - eps * g.gout[t][j]).abs() < 1e-10);
        }
    }
}

#[test]
fn rnn_of_one_step_never_touches_the_recurrent_weights() {
    let w = weights();
    let mut cell = RnnCell::<X, Y, H, 1, Weights>::new(&w);
    let gl = cell.ff(&w, [[1., 2.]]);
    let g = cell.gradients(&w, gl);
    assert_eq!(g.dwh, [[0.; H]; H]);
}

const LX: usize = 2;
const LH: usize = 2;
const LHX: usize = 4;
const LT: usize = 3;

/// The weights and biases of a small LSTM cell with sigmoid gates and a
/// `tanh` candidate.
#[derive(Clone, Copy)]
struct Gates {
    w: [[[f64; LHX]; LH]; 4],
    b: [[f64; LH]; 4],
    weight_updates: [usize; 4],
    bias_updates: [usize; 4],
    order: [(usize, bool); 8],
    made: usize,
}

fn index(gate: Gate) -> usize {
    match gate {
        Gate::Forget => 0,
        Gate::Input => 1,
        Gate::Candidate => 2,
        Gate::Output => 3,
    }
}

fn sigmoid(x: f64) -> f64 {
    1. / (1. + (-x).exp())
}

fn act(gate: Gate, z: f64) -> f64 {
    match gate {
        Gate::Candidate => z.tanh(),
        _ => sigmoid(z),
    }
}

fn slope(gate: Gate, z: f64) -> f64 {
    match gate {
        Gate::Candidate => 1. - z.tanh().powi(2),
        _ => sigmoid(z) * (1. - sigmoid(z)),
    }
}

impl LstmOps<LX, LH, LHX> for Gates {
    type Scalar = f64;
    type W = [[f64; LHX]; LH];

    fn zero(&self) -> f64 {
        0.
    }

    fn zero_w(&self) -> Self::W {
        [[0.; LHX]; LH]
    }

    fn gate_pre(&self, gate: Gate, hx: &[f64; LHX]) -> [f64; LH] {
        let z = matvec(&self.w[index(gate)], hx);
        let b = self.b[index(gate)];
        [z[0] + b[0], z[1] + b[1]]
    }

    fn gate_act(&self, gate: Gate, z: &[f64; LH]) -> [f64; LH] {
        z.map(|v| act(gate, v))
    }

    fn times(&self, a: &[f64; LH], b: &[f64; LH]) -> [f64; LH] {
        [a[0] * b[0], a[1] * b[1]]
    }

    fn plus(&self, a: &[f64; LH], b: &[f64; LH]) -> [f64; LH] {
        [a[0] + b[0], a[1] + b[1]]
    }

    fn squash(&self, c: &[f64; LH]) -> [f64; LH] {
        c.map(f64::tanh)
    }

    fn gate_slope(&self, gate: Gate, z: &[f64; LH]) -> [f64; LH] {
        z.map(|v| slope(gate, v))
    }

    fn squash_slope(&self, c: &[f64; LH]) -> [f64; LH] {
        c.map(|v| 1. - v.tanh().powi(2))
    }

    fn acc_w(&self, dw: Self::W, g: &[f64; LH], hx: &[f64; LHX]) -> Self::W {
        outer(dw, g, hx)
    }

    fn back(&self, gate: Gate, ghx: [f64; LHX], g: &[f64; LH]) -> [f64; LHX] {
        let add = matvec_t(&self.w[index(gate)], g);
        let mut out = ghx;
        for k in 0..LHX {
            out[k] += add[k];
        }
        out
    }

    fn update_w(&mut self, gate: Gate, dw: &Self::W) {
        step(&mut self.w[index(gate)], dw);
        self.weight_updates[index(gate)] += 1;
        self.order[self.made] = (index(gate), true);
        self.made += 1;
    }

    fn update_b(&mut self, gate: Gate, db: &[f64; LH]) {
        for k in 0..LH {
            self.b[index(gate)][k] -= 0.5 * db[k];
        }
        self.bias_updates[index(gate)] += 1;
        self.order[self.made] = (index(gate), false);
        self.made += 1;
    }
}

fn gates() -> Gates {
    Gates {
        w: [
            [[0.1, -0.2, 0.3, 0.4], [0.5, 0.15, -0.35, 0.2]],
            [[-0.3, 0.25, 0.1, -0.15], [0.2, -0.4, 0.3, 0.1]],
            [[0.45, 0.05, -0.25, 0.35], [-0.1, 0.3, 0.2, -0.5]],
            [[0.15, -0.35, 0.4, 0.1], [0.3, 0.2, -0.1, 0.25]],
        ],
        b: [[0.1, -0.1], [0.2, 0.05], [-0.15, 0.1], [0.05, -0.2]],
        weight_updates: [0; 4],
        bias_updates: [0; 4],
        order: [(9, false); 8],
        made: 0,
    }
}

fn lstm_inputs() -> [[f64; LX]; LT] {
    [[1., -0.5], [0.25, 0.75], [-1.5, 0.5]]
}

fn lstm_loss(w: &Gates, x: [[f64; LX]; LT]) -> f64 {
    let mut cell = Lstm::<LX, LH, LT, LHX, Gates>::new(w);
    let h = cell.ff(w, x);
    h.iter().flatten().map(|v| v * v).sum::<f64>() / 2.
}

#[test]
fn lstm_forward_starts_from_zero_states() {
    let w = gates();
    let x = lstm_inputs();
    let mut cell = Lstm::<LX, LH, LT, LHX, Gates>::new(&w);
    let h = cell.ff(&w, x);
    assert_eq!(cell.x, x);
    assert_eq!(cell.h, h);
    assert_eq!(cell.h_x[0], [0., 0., 1., -0.5]);
    for t in 1..LT {
        assert_eq!(cell.h_x[t], [h[t - 1][0], h[t - 1][1], x[t][0], x[t][1]]);
    }
    for t in 0..LT {
        assert_eq!(cell.zf[t], w.gate_pre(Gate::Forget, &cell.h_x[t]));
        assert_eq!(cell.f[t], cell.zf[t].map(sigmoid));
        assert_eq!(cell.zi[t], w.gate_pre(Gate::Input, &cell.h_x[t]));
        assert_eq!(cell.i[t], cell.zi[t].map(sigmoid));
        assert_eq!(cell.zc[t], w.gate_pre(Gate::Candidate, &cell.h_x[t]));
        assert_eq!(cell.c_bar[t], cell.zc[t].map(f64::tanh));
        assert_eq!(cell.zo[t], w.gate_pre(Gate::Output, &cell.h_x[t]));
        assert_eq!(cell.o[t], cell.zo[t].map(sigmoid));
        for k in 0..LH {
            let kept = if t == 0 { 0. } else { cell.c[t - 1][k] * cell.f[t][k] };
            assert_eq!(cell.c[t][k], kept + cell.i[t][k] * cell.c_bar[t][k]);
            assert_eq!(cell.ch[t][k], cell.c[t][k].tanh());
            assert_eq!(h[t][k], cell.o[t][k] * cell.ch[t][k]);
        }
    }
}

#[test]
fn lstm_gradients_match_finite_differences() {
    let w = gates();
    let x = lstm_inputs();
    let mut cell = Lstm::<LX, LH, LT, LHX, Gates>::new(&w);
    let gy = cell.ff(&w, x);
    let g = cell.gradients(&w, gy);
    let eps = 1e-6;
    let base = lstm_loss(&w, x);
    let dw = [g.dwf, g.dwi, g.dwc, g.dwo];
    let db = [g.dbf, g.dbi, g.dbc, g.dbo];
    for gate in 0..4 {
        for i in 0..LH {
            for j in 0..LHX {
                let mut w2 = w;
                w2.w[gate][i][j] += eps;
                assert!((lstm_loss(&w2, x) - base - eps * dw[gate][i][j]).abs() < 1e-10);
            }
            let mut w2 = w;
            w2.b[gate][i] += eps;
            assert!((lstm_loss(&w2, x) - base - eps * db[gate][i]).abs() < 1e-10);
        }
    }
    for t in 0..LT {
        for j in 0..LX {
            let mut x2 = x;
            x2[t][j] += eps;
            assert!((lstm_loss(&w, x2) - base - eps * g.gx[t][j]).abs() < 1e-10);
        }
    }
}

#[test]
fn lstm_forget_gate_learns_nothing_from_the_first_step() {
    let w = gates();
    let mut cell = Lstm::<LX, LH, 1, LHX, Gates>::new(&w);
    let gy = cell.ff(&w, [[1., 2.]]);
    let g = cell.gradients(&w, gy);
    assert_eq!(g.dwf, [[0.; LHX]; LH]);
    assert_eq!(g.dbf, [0.; LH]);
    assert!(g.dwo != [[0.; LHX]; LH]);
}

#[test]
fn rnn_updates_each_weight_once_after_all_steps() {
    let mut w = weights();
    let before = w;
    let mut cell = RnnCell::<X, Y, H, T, Weights>::new(&w);
    let gl = cell.ff(&w, inputs());
    let g = cell.gradients(&w, gl);
    let gout = cell.bp(&mut w, gl);
    assert_eq!(gout, g.gout);
    assert_eq!(w.updates, [1, 1, 1]);
    assert_eq!(w.order, [0, 1, 2]);
    let mut expected = before;
    step(&mut expected.wx, &g.dwx);
    step(&mut expected.wh, &g.dwh);
    step(&mut expected.wy, &g.dwy);
    assert_eq!(w.wx, expected.wx);
    assert_eq!(w.wh, expected.wh);
    assert_eq!(w.wy, expected.wy);
}

#[test]
fn lstm_updates_each_of_its_eight_tensors_once_after_all_steps() {
    let mut w = gates();
    let before = w;
    let mut cell = Lstm::<LX, LH, LT, LHX, Gates>::new(&w);
    let gy = cell.ff(&w, lstm_inputs());
    let g = cell.gradients(&w, gy);
    let gx = cell.bp(&mut w, gy);
    assert_eq!(gx, g.gx);
    assert_eq!(gx.len(), LT);
    assert_eq!(w.weight_updates, [1, 1, 1, 1]);
    assert_eq!(w.bias_updates, [1, 1, 1, 1]);
    assert_eq!(
        w.order,
        [(0, true), (0, false), (1, true), (1, false), (2, true), (2, false), (3, true), (3, false)]
    );
    let mut expected = before.w[0];
    step(&mut expected, &g.dwf);
    assert_eq!(w.w[0], expected);
    let mut expected = before.w[3];
    step(&mut expected, &g.dwo);
    assert_eq!(w.w[3], expected);
    assert_eq!(w.b[1][0], before.b[1][0] - 0.5 * g.dbi[0]);
}
