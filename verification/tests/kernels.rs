use neuralnet::activation::noact::NoActivation;
use neuralnet::activation::relu::Relu;
use neuralnet::layers::conv::{conv, grad_conv, Conv2d};
use neuralnet::optimizers::Optimizer;
use neuralnet::layers::lstm;
use neuralnet::layers::maxpool::{maxpool, MaxPool2d};
use neuralnet::layers::relu2d::Relu2dLayer;
use neuralnet::layers::softmax::jacobian;
use neuralnet::models::ann4::preprocess;
use neuralnet::models::cnn;
use neuralnet::models::cnn2;

fn mul_add(acc: f64, x: f64, w: f64) -> f64 {
    acc + x * w
}

fn gt(a: f64, b: f64) -> bool {
    a > b
}

/// A cell that remembers, in order, which cells were accumulated onto it.
#[derive(Clone, Copy, Debug, PartialEq)]
struct Trace {
    id: char,
    n: usize,
    steps: [(char, char); 4],
}

fn cell(id: char) -> Trace {
    Trace { id, n: 0, steps: [(' ', ' '); 4] }
}

fn cells<const R: usize, const C: usize>(ids: [[char; C]; R]) -> [[Trace; C]; R] {
    ids.map(|row| row.map(cell))
}

fn record(mut acc: Trace, x: Trace, w: Trace) -> Trace {
    acc.steps[acc.n] = (x.id, w.id);
    acc.n += 1;
    acc
}

fn steps(t: Trace) -> Vec<(char, char)> {
    t.steps[..t.n].to_vec()
}

#[test]
fn conv_test_conv() {
    let a = [
        [1., 1., 1., 1.],
        [1., 1., 1., 1.],
        [1., 1., 1., 1.],
        [1., 1., 1., 1.],
    ];

    let b = [
        [2., 2.],
        [2., 2.],
    ];

    let c = conv::<4, 4, 2, 2, 3, 3, f64, _>(&a, &b, 0., mul_add);

    assert_eq!(c, [
        [8., 8., 8.],
        [8., 8., 8.],
        [8., 8., 8.],
    ]);
}

#[test]
fn maxpool_test_conv() {
    let x = [
        [8., 2., 1., 9.],
        [1., 1., 3., 1.],
        [1., 2., 1., 1.],
        [10., 1., 1., 11.],
    ];

    let mut mi = [
        [(0, 0), (0, 0), (0, 0)],
        [(0, 0), (0, 0), (0, 0)],
        [(0, 0), (0, 0), (0, 0)],
    ];
    let mf = [
        [(0, 0), (1, 2), (0, 3)],
        [(2, 1), (1, 2), (1, 2)],
        [(3, 0), (2, 1), (3, 3)],
    ];
    let y = maxpool(&x, &mut mi, gt);

    let yf = [
        [8., 3., 9.],
        [2., 3., 3.],
        [10., 2., 11.],
    ];

    assert_eq!(mi, mf);
    assert_eq!(y, yf);
}

#[test]
fn conv_weighs_each_cell_by_its_kernel_cell() {
    let a = [[1., 2., 3.], [4., 5., 6.], [7., 8., 9.]];
    let b = [[1., 0.], [0., -1.]];
    let c = conv::<3, 3, 2, 2, 2, 2, f64, _>(&a, &b, 0., mul_add);
    assert_eq!(c, [[-4., -4.], [-4., -4.]]);
    let b = [[1., 2.], [3., 4.]];
    let c = conv::<3, 3, 2, 2, 2, 2, f64, _>(&a, &b, 0., mul_add);
    assert_eq!(c, [[37., 47.], [67., 77.]]);
}

#[test]
fn conv_accumulates_row_by_row_from_zero() {
    let a = cells([['a', 'b'], ['c', 'd']]);
    let b = cells([['w', 'x'], ['y', 'z']]);
    let c = conv::<2, 2, 2, 2, 1, 1, Trace, _>(&a, &b, cell('0'), record);
    assert_eq!(c[0][0].id, '0');
    assert_eq!(steps(c[0][0]), vec![('a', 'w'), ('b', 'x'), ('c', 'y'), ('d', 'z')]);
}

#[test]
fn conv_with_an_empty_kernel_gives_zeros() {
    let a = [[1., 2.], [3., 4.]];
    let b: [[f64; 0]; 0] = [];
    let c = conv::<2, 2, 0, 0, 3, 3, f64, _>(&a, &b, 0., mul_add);
    assert_eq!(c, [[0.; 3]; 3]);
}

#[test]
fn grad_conv_spreads_each_cell_over_the_kernel() {
    let w = [[1., 2.], [3., 4.]];
    let g = [[1., 0.], [0., 10.]];
    let out = grad_conv::<2, 2, 2, 2, 3, 3, f64, _>(&w, &g, 0., mul_add);
    assert_eq!(out, [[1., 2., 0.], [3., 14., 20.], [0., 30., 40.]]);
}

#[test]
fn grad_conv_takes_input_cells_row_by_row() {
    let a = cells([['a', 'b'], ['c', 'd']]);
    let b = cells([['w', 'x'], ['y', 'z']]);
    let out = grad_conv::<2, 2, 2, 2, 3, 3, Trace, _>(&a, &b, cell('0'), record);
    assert_eq!(steps(out[0][0]), vec![('a', 'w')]);
    assert_eq!(steps(out[0][1]), vec![('a', 'x'), ('b', 'w')]);
    assert_eq!(steps(out[1][1]), vec![('a', 'z'), ('b', 'y'), ('c', 'x'), ('d', 'w')]);
    assert_eq!(steps(out[2][2]), vec![('d', 'z')]);
}

#[test]
fn kernel_gradient_matches_a_finite_difference() {
    let x = [[0.5, -1., 2.], [1.5, 0.25, -0.75], [3., 1., -2.]];
    let w = [[0.1, -0.2], [0.3, 0.4]];
    let loss = |w: &[[f64; 2]; 2]| -> f64 {
        let y = conv::<3, 3, 2, 2, 2, 2, f64, _>(&x, w, 0., mul_add);
        y.iter().flatten().map(|v| v * v).sum::<f64>() / 2.
    };
    let y = conv::<3, 3, 2, 2, 2, 2, f64, _>(&x, &w, 0., mul_add);
    let dw = conv::<3, 3, 2, 2, 2, 2, f64, _>(&x, &y, 0., mul_add);
    let eps = 1e-6;
    for i in 0..2 {
        for j in 0..2 {
            let mut w2 = w;
            w2[i][j] += eps;
            let change = loss(&w2) - loss(&w);
            assert!((change - eps * dw[i][j]).abs() < 1e-9);
        }
    }
}

#[test]
fn input_gradient_matches_a_finite_difference() {
    let x = [[0.5, -1., 2.], [1.5, 0.25, -0.75], [3., 1., -2.]];
    let w = [[0.1, -0.2], [0.3, 0.4]];
    let loss = |x: &[[f64; 3]; 3]| -> f64 {
        let y = conv::<3, 3, 2, 2, 2, 2, f64, _>(x, &w, 0., mul_add);
        y.iter().flatten().map(|v| v * v).sum::<f64>() / 2.
    };
    let y = conv::<3, 3, 2, 2, 2, 2, f64, _>(&x, &w, 0., mul_add);
    let dx = grad_conv::<2, 2, 2, 2, 3, 3, f64, _>(&w, &y, 0., mul_add);
    let eps = 1e-6;
    for i in 0..3 {
        for j in 0..3 {
            let mut x2 = x;
            x2[i][j] += eps;
            let change = loss(&x2) - loss(&x);
            assert!((change - eps * dx[i][j]).abs() < 1e-9);
        }
    }
}

#[test]
fn maxpool_keeps_the_first_of_equal_maxima() {
    let x = [[5., 5.], [5., 5.]];
    let mut m = [[(9, 9)]];
    let y = maxpool(&x, &mut m, gt);
    assert_eq!(y, [[5.]]);
    assert_eq!(m, [[(0, 0)]]);
    let x = [[1., 7.], [7., 7.]];
    let y = maxpool(&x, &mut m, gt);
    assert_eq!(y, [[7.]]);
    assert_eq!(m, [[(0, 1)]]);
}

#[test]
fn maxpool_records_a_cell_of_its_own_window_however_low() {
    let a = [[0.0, f64::NEG_INFINITY]];
    let mut m = [[(0, 0), (0, 0)]];
    let y = maxpool(&a, &mut m, gt);
    assert_eq!(m, [[(0, 0), (0, 1)]]);
    assert_eq!(y, [[0.0, f64::NEG_INFINITY]]);
    let a = [[5., 5.], [f64::MIN, f64::MIN], [f64::NEG_INFINITY, f64::MIN]];
    let mut m = [[(9, 9)], [(9, 9)]];
    let y = maxpool(&a, &mut m, gt);
    assert_eq!(m, [[(0, 0)], [(1, 0)]]);
    assert_eq!(y, [[5.], [f64::MIN]]);
}

#[test]
fn maxpool_stays_at_a_first_cell_that_does_not_compare() {
    let x = [[f64::NAN, 1.], [2., 3.]];
    let mut m = [[(1, 1)]];
    let y = maxpool(&x, &mut m, gt);
    assert!(y[0][0].is_nan());
    assert_eq!(m, [[(0, 0)]]);
    let x = [[1., f64::NAN], [3., 2.]];
    let y = maxpool(&x, &mut m, gt);
    assert_eq!(y, [[3.]]);
    assert_eq!(m, [[(1, 0)]]);
}

#[test]
fn pooling_layer_records_and_sends_back() {
    let mut pool = MaxPool2d::<4, 4, 3, 3, 2, 2>::new();
    let x = [[8., 2., 1., 9.], [1., 1., 3., 1.], [1., 2., 1., 1.], [10., 1., 1., 11.]];
    let y = pool.ff(x, gt);
    assert_eq!(y, [[8., 3., 9.], [2., 3., 3.], [10., 2., 11.]]);
    let g = [[1., 2., 3.], [4., 5., 6.], [7., 8., 9.]];
    let back = pool.bp(g, 0., |a: f64, b: f64| a + b);
    assert_eq!(
        back,
        [[1., 0., 0., 3.], [0., 0., 13., 0.], [0., 12., 0., 0.], [7., 0., 0., 9.]]
    );
}

#[test]
fn pooling_layer_sends_everything_to_the_origin_when_fresh() {
    let mut pool = MaxPool2d::<3, 3, 2, 2, 2, 2>::new();
    let back = pool.bp([[1., 2.], [3., 4.]], 0., |a: f64, b: f64| a + b);
    assert_eq!(back, [[10., 0., 0.], [0., 0., 0.], [0., 0., 0.]]);
}

#[test]
fn pooling_layer_adds_gradients_in_row_order() {
    let mut pool = MaxPool2d::<2, 2, 2, 2, 1, 1>::new();
    let g = cells([['a', 'b'], ['c', 'd']]);
    let mut copy = pool;
    let y = copy.ff([[1., 2.], [3., 4.]], gt);
    assert_eq!(y, [[1., 2.], [3., 4.]]);
    let back = pool.bp(g, cell('0'), |acc: Trace, g: Trace| record(acc, g, cell('+')));
    assert_eq!(steps(back[0][0]), vec![('a', '+'), ('b', '+'), ('c', '+'), ('d', '+')]);
    assert_eq!(steps(back[1][1]), vec![]);
}

#[test]
fn relu_is_inactive_at_zero() {
    assert_eq!(Relu::func(3.5, 0., gt), 3.5);
    assert_eq!(Relu::func(-3.5, 0., gt), 0.);
    assert_eq!(Relu::func(0., 0., gt), 0.);
    assert_eq!(Relu::deriv(3.5, 0., 1., gt), 1.);
    assert_eq!(Relu::deriv(-3.5, 0., 1., gt), 0.);
    assert_eq!(Relu::deriv(0., 0., 1., gt), 0.);
    assert_eq!(Relu::deriv(1e300, 0., 1., gt), 1.);
    assert_eq!(Relu::deriv(-1e300, 0., 1., gt), 0.);
    assert_eq!(Relu::func(f64::NAN, 0., gt), 0.);
}

#[test]
fn relu_slope_matches_a_finite_difference_away_from_zero() {
    let h = 1e-6;
    for x in [-1e6, -3.0, -0.5, 0.5, 3.0, 1e6] {
        let numeric = (Relu::func(x + h, 0., gt) - Relu::func(x - h, 0., gt)) / (2. * h);
        assert!((numeric - Relu::deriv(x, 0., 1., gt)).abs() < 1e-3);
    }
}

#[test]
fn identity_slope_matches_a_finite_difference() {
    let h = 1e-3;
    for x in [-1e6f64, -3.0, 0.0, 0.5, 1e6] {
        let numeric: f64 = (NoActivation::func(x + h) - NoActivation::func(x - h)) / (2. * h);
        assert!((numeric - NoActivation::deriv(x, 1.0f64)).abs() < 1e-6);
        assert_eq!(NoActivation::func(x), x);
    }
}

#[test]
fn rectifier_layer_masks_the_gradient() {
    let mut layer = Relu2dLayer::<2, 3, f64>::new(0.);
    let out = layer.ff([[1., -2., 0.], [0.5, 4., -0.1]], 0., 1., gt);
    assert_eq!(out, [[1., 0., 0.], [0.5, 4., 0.]]);
    let back = layer.bp([[10., 20., 30.], [40., 50., 60.]], |g: f64, m: f64| g * m);
    assert_eq!(back, [[10., 0., 0.], [40., 50., 0.]]);
}

#[test]
fn fresh_rectifier_layer_lets_nothing_through() {
    let mut layer = Relu2dLayer::<1, 2, f64>::new(0.);
    let back = layer.bp([[10., 20.]], |g: f64, m: f64| g * m);
    assert_eq!(back, [[0., 0.]]);
}

#[test]
fn softmax_jacobian_has_its_own_diagonal() {
    let s = [0.5, 0.25, 0.25];
    let ds = jacobian(&s, 0., |p: f64| p * (1. - p), |p: f64, q: f64| -p * q);
    assert_eq!(
        ds,
        [
            [0.25, -0.125, -0.125],
            [-0.125, 0.1875, -0.0625],
            [-0.125, -0.0625, 0.1875]
        ]
    );
}

#[test]
fn concat_puts_the_hidden_state_first() {
    let hx = lstm::concat::<2, 3, 5, f64>(&[1., 2.], &[3., 4., 5.], 0.);
    assert_eq!(hx, [1., 2., 3., 4., 5.]);
    let hx = lstm::concat::<2, 1, 5, f64>(&[1., 2.], &[3.], 0.);
    assert_eq!(hx, [1., 2., 3., 0., 0.]);
    let hx = lstm::concat::<2, 0, 2, f64>(&[1., 2.], &[], 0.);
    assert_eq!(hx, [1., 2.]);
}

#[test]
fn unconcat_gives_both_parts_back() {
    let h = [1., 2.];
    let x = [3., 4., 5.];
    let hx = lstm::concat::<2, 3, 5, f64>(&h, &x, 0.);
    let (h2, x2) = lstm::unconcat::<2, 3, 5, f64>(&hx, 0.);
    assert_eq!(h2, h);
    assert_eq!(x2, x);
}

#[test]
fn flatten_lays_maps_out_one_after_another() {
    let maps = [[[1, 2, 3], [4, 5, 6]], [[7, 8, 9], [10, 11, 12]]];
    let flat = cnn::flatten::<2, 2, 3, 12, i32>(&maps, 0);
    assert_eq!(flat, [1, 2, 3, 4, 5, 6, 7, 8, 9, 10, 11, 12]);
    let back = cnn::unflatten::<2, 2, 3, 12, i32>(&flat, 0);
    assert_eq!(back, maps);
}

#[test]
fn unflatten_then_flatten_is_the_identity() {
    let flat = [5., 4., 3., 2., 1., 0., -1., -2.];
    let maps = cnn::unflatten::<2, 2, 2, 8, f64>(&flat, 0.);
    assert_eq!(maps, [[[5., 4.], [3., 2.]], [[1., 0.], [-1., -2.]]]);
    assert_eq!(cnn::flatten::<2, 2, 2, 8, f64>(&maps, 0.), flat);
}

#[test]
fn flatten_of_one_map_goes_row_by_row() {
    let map = [[1., 2., 3., 4., 5.], [6., 7., 8., 9., 10.]];
    let flat = cnn2::flatten::<2, 5, 10, f64>(&map, 0.);
    assert_eq!(flat, [1., 2., 3., 4., 5., 6., 7., 8., 9., 10.]);
    assert_eq!(cnn2::unflatten::<2, 5, 10, f64>(&flat, 0.), map);
}

#[test]
fn flatten_of_nothing_is_nothing() {
    let maps: [[[f64; 3]; 0]; 2] = [[], []];
    let flat = cnn::flatten::<2, 0, 3, 0, f64>(&maps, 0.);
    assert_eq!(flat, []);
}

#[test]
fn preprocess_makes_one_hot_targets() {
    let x = [[0.5, 1.5], [2.5, 3.5], [4.5, 5.5]];
    let y = [2, 0, 1];
    let (xs, ys) = preprocess::<2, 3, f64>(&x, &y, 0., 1.);
    assert_eq!(xs, vec![[0.5, 1.5], [2.5, 3.5], [4.5, 5.5]]);
    assert_eq!(ys, vec![[0., 0., 1.], [1., 0., 0.], [0., 1., 0.]]);
}

#[test]
fn preprocess_keeps_examples_without_labels() {
    let x = [[0.5, 1.5], [2.5, 3.5]];
    let (xs, ys) = preprocess::<2, 3, f64>(&x, &[1], 0., 1.);
    assert_eq!(xs.len(), 2);
    assert_eq!(ys, vec![[0., 1., 0.]]);
}

/// An optimizer that takes the gradient away from the weight and counts
/// its updates.
struct Counting {
    updates: usize,
}

impl Optimizer<f64, 2, 2> for Counting {
    fn update_param(&mut self, weight: &mut [[f64; 2]; 2], gradient: &[[f64; 2]; 2]) {
        self.updates += 1;
        for i in 0..2 {
            for j in 0..2 {
                weight[i][j] -= gradient[i][j];
            }
        }
    }
}

#[test]
fn convolution_layer_correlates_the_input_with_its_kernel() {
    let mut layer = Conv2d::<3, 3, 2, 2, 2, 2, f64>::new([[1., 2.], [3., 4.]], 0.);
    let x = [[1., 2., 3.], [4., 5., 6.], [7., 8., 9.]];
    let y = layer.ff(x, 0., mul_add);
    assert_eq!(y, [[37., 47.], [67., 77.]]);
}

#[test]
fn convolution_layer_updates_its_kernel_once_after_taking_the_gradients() {
    let w = [[1., 2.], [3., 4.]];
    let x = [[1., 2., 3.], [4., 5., 6.], [7., 8., 9.]];
    let g = [[1., 0.], [0., 10.]];
    let mut layer = Conv2d::<3, 3, 2, 2, 2, 2, f64>::new(w, 0.);
    let _ = layer.ff(x, 0., mul_add);
    let grads = layer.gradients(g, 0., mul_add);
    assert_eq!(grads.kernel, conv::<3, 3, 2, 2, 2, 2, f64, _>(&x, &g, 0., mul_add));
    assert_eq!(grads.kernel, [[51., 62.], [84., 95.]]);
    assert_eq!(grads.input, grad_conv::<2, 2, 2, 2, 3, 3, f64, _>(&w, &g, 0., mul_add));
    let mut opt = Counting { updates: 0 };
    let gx = layer.bp(g, 0., mul_add, &mut opt);
    assert_eq!(gx, [[1., 2., 0.], [3., 14., 20.], [0., 30., 40.]]);
    assert_eq!(opt.updates, 1);
    let y = layer.ff([[1., 0., 0.], [0., 0., 0.], [0., 0., 0.]], 0., mul_add);
    assert_eq!(y[0][0], 1. - 51.);
}
