use std::cell::Cell;

use neuralnet::optimizers::adagrad::{Adagrad, AdagradFactory};
use neuralnet::optimizers::adam::{Adam, AdamFactory, CUTOFF};
use neuralnet::optimizers::rmsprop::{RmsProp, RmsPropFactory};
use neuralnet::optimizers::sgd::{Sgd, SgdFactory};
use neuralnet::optimizers::sgdmomentum::{SgdWMomentum, SgdWMomentumFactory};
use neuralnet::optimizers::{update_each, Arithmetic, Ratio};

const EPSILON: f64 = 0.000001;

/// The arithmetic of the update rules on floats. It counts the bias
/// corrections that it is asked for.
struct Floats {
    corrections: Cell<usize>,
}

fn floats() -> Floats {
    Floats { corrections: Cell::new(0) }
}

fn value(r: Ratio) -> f64 {
    r.num as f64 / r.den as f64
}

impl Arithmetic<f64> for Floats {
    fn scale(&self, r: Ratio, x: f64) -> f64 {
        value(r) * x
    }

    fn scale_rest(&self, r: Ratio, x: f64) -> f64 {
        (1. - value(r)) * x
    }

    fn plus(&self, a: f64, b: f64) -> f64 {
        a + b
    }

    fn minus(&self, a: f64, b: f64) -> f64 {
        a - b
    }

    fn times(&self, a: f64, b: f64) -> f64 {
        a * b
    }

    fn inv_sqrt(&self, x: f64) -> f64 {
        1. / (x + EPSILON).sqrt()
    }

    fn unbias(&self, r: Ratio, t: i32, x: f64) -> f64 {
        self.corrections.set(self.corrections.get() + 1);
        x / (1. - value(r).powi(t))
    }
}

fn close(a: f64, b: f64) -> bool {
    (a - b).abs() < 1e-5
}

#[test]
fn hyper_parameters_are_the_ratios_in_the_type() {
    assert_eq!(Sgd::<8, 10>::alpha(), Ratio { num: 8, den: 10 });
    assert_eq!(SgdWMomentum::<1, 10, 8, 10, 1, 1, f64>::alpha(), Ratio { num: 1, den: 10 });
    assert_eq!(SgdWMomentum::<1, 10, 8, 10, 1, 1, f64>::beta(), Ratio { num: 8, den: 10 });
    assert_eq!(RmsProp::<1, 1000, 9, 10, 1, 1, f64>::alpha(), Ratio { num: 1, den: 1000 });
    assert_eq!(RmsProp::<1, 1000, 9, 10, 1, 1, f64>::rho(), Ratio { num: 9, den: 10 });
    assert_eq!(Adagrad::<1, 100, 1, 1, f64>::alpha(), Ratio { num: 1, den: 100 });
    assert_eq!(Adam::<1, 100, 9, 10, 95, 100, 1, 1, f64>::alpha(), Ratio { num: 1, den: 100 });
    assert_eq!(Adam::<1, 100, 9, 10, 95, 100, 1, 1, f64>::beta1(), Ratio { num: 9, den: 10 });
    assert_eq!(Adam::<1, 100, 9, 10, 95, 100, 1, 1, f64>::beta2(), Ratio { num: 95, den: 100 });
}

#[test]
fn optimizers_have_their_names() {
    assert_eq!(Sgd::<1, 2>::name(), "SGD");
    assert_eq!(SgdWMomentum::<1, 2, 1, 2, 1, 1, f64>::name(), "SGD with momentum");
    assert_eq!(RmsProp::<1, 2, 1, 2, 1, 1, f64>::name(), "rmsprop");
    assert_eq!(Adagrad::<1, 2, 1, 1, f64>::name(), "adagrad");
    assert_eq!(Adam::<1, 2, 1, 2, 1, 2, 1, 1, f64>::name(), "adam");
}

#[test]
fn sgd_steps_against_the_gradient_at_its_own_rate() {
    let mut opt = SgdFactory::<1, 2>::init();
    let mut w = [[1.], [-2.]];
    opt.update_param(&mut w, &[[2.], [4.]], &floats());
    assert_eq!(w, [[0.], [-4.]]);
    let mut w = [[1.], [-2.]];
    Sgd::<1, 1000>::init().update_param(&mut w, &[[2.], [4.]], &floats());
    assert_eq!(w, [[1. - 0.001 * 2.], [-2. - 0.001 * 4.]]);
}

#[test]
fn momentum_blends_before_it_steps() {
    let mut opt = SgdWMomentumFactory::<1, 2, 1, 2>::init::<1, 1, f64>(0.);
    let mut w = [[1.]];
    opt.update_param(&mut w, &[[2.]], &floats());
    assert_eq!(w, [[0.5]]);
    opt.update_param(&mut w, &[[2.]], &floats());
    assert_eq!(w, [[-0.25]]);
}

#[test]
fn momentum_keeps_moving_under_a_zero_gradient() {
    let mut opt = SgdWMomentum::<1, 2, 1, 4, 1, 2, f64>::init(0.);
    let mut w = [[1., 1.]];
    opt.update_param(&mut w, &[[4., -8.]], &floats());
    assert_eq!(w, [[-0.5, 4.]]);
    opt.update_param(&mut w, &[[0., 0.]], &floats());
    assert_eq!(w, [[-0.875, 4.75]]);
}

#[test]
fn rmsprop_scales_by_the_decayed_square() {
    let mut opt = RmsPropFactory::<1, 10, 3, 4>::init::<1, 1, f64>(0.);
    let mut w = [[1.]];
    opt.update_param(&mut w, &[[2.]], &floats());
    assert!(close(w[0][0], 0.8));
    assert_eq!(w[0][0], 1. - 0.1 * ((1. / (1f64 + EPSILON).sqrt()) * 2.));
}

#[test]
fn adagrad_never_forgets_a_square() {
    let mut opt = AdagradFactory::<1, 10>::init::<1, 1, f64>(0.);
    let mut w = [[1.]];
    opt.update_param(&mut w, &[[3.]], &floats());
    assert!(close(w[0][0], 0.9));
    opt.update_param(&mut w, &[[4.]], &floats());
    assert!(close(w[0][0], 0.82));
}

#[test]
fn adam_corrects_its_first_update() {
    let mut opt = AdamFactory::<1, 10, 9, 10, 9, 10>::init::<1, 1, f64>(0.);
    assert_eq!(opt.iteration(), 1);
    let mut w = [[1.]];
    opt.update_param(&mut w, &[[4.]], &floats());
    assert!(close(w[0][0], 0.9));
    assert!(w[0][0].is_finite());
    assert_eq!(opt.iteration(), 2);
}

#[test]
fn adam_corrects_only_while_its_counter_is_below_the_cutoff() {
    assert_eq!(CUTOFF, 50);
    let ops = floats();
    let mut opt = Adam::<1, 10, 1, 2, 1, 2, 1, 1, f64>::init(0.);
    let mut w = [[0.]];
    for k in 1..=60 {
        let before = opt.iteration();
        assert_eq!(before, if k < 50 { k } else { 50 });
        let corrections = ops.corrections.get();
        opt.update_param(&mut w, &[[1.]], &ops);
        assert_eq!(ops.corrections.get() - corrections, if before < 50 { 2 } else { 0 });
        assert!(opt.iteration() >= before);
    }
    assert_eq!(ops.corrections.get(), 2 * 49);
    assert_eq!(opt.iteration(), 50);
}

#[test]
fn adam_uses_the_raw_moments_from_the_cutoff_on() {
    let ops = floats();
    let mut opt = Adam::<1, 10, 1, 2, 1, 2, 1, 1, f64>::init(0.);
    let mut w = [[0.]];
    let mut m = 0.;
    let mut v = 0.;
    for _ in 1..50 {
        opt.update_param(&mut w, &[[1.]], &ops);
        m = 0.5 * m + (1. - 0.5) * 1.;
        v = 0.5 * v + (1. - 0.5) * (1. * 1.);
    }
    let before = w[0][0];
    opt.update_param(&mut w, &[[1.]], &ops);
    m = 0.5 * m + (1. - 0.5) * 1.;
    v = 0.5 * v + (1. - 0.5) * (1. * 1.);
    assert_eq!(w[0][0], before - 0.1 * ((1. / (v + EPSILON).sqrt()) * m));
}

#[test]
fn a_zero_gradient_leaves_every_weight_alone() {
    let zero = [[0., 0.], [0., 0.]];
    let start = [[1.5, -2.5], [0., 1e10]];

    let mut w = start;
    Sgd::<1, 2>::init().update_param(&mut w, &zero, &floats());
    assert_eq!(w, start);

    let mut w = start;
    SgdWMomentum::<1, 2, 8, 10, 2, 2, f64>::init(0.).update_param(&mut w, &zero, &floats());
    assert_eq!(w, start);

    let mut w = start;
    let mut rms = RmsProp::<1, 2, 9, 10, 2, 2, f64>::init(0.);
    rms.update_param(&mut w, &[[3., 3.], [3., 3.]], &floats());
    let moved = w;
    rms.update_param(&mut w, &zero, &floats());
    assert_eq!(w, moved);

    let mut w = start;
    let mut ada = Adagrad::<1, 2, 2, 2, f64>::init(0.);
    ada.update_param(&mut w, &[[3., 3.], [3., 3.]], &floats());
    let moved = w;
    ada.update_param(&mut w, &zero, &floats());
    assert_eq!(w, moved);

    let mut w = start;
    Adam::<1, 2, 9, 10, 9, 10, 2, 2, f64>::init(0.).update_param(&mut w, &zero, &floats());
    assert_eq!(w, start);
}

#[test]
fn update_each_feeds_the_new_state_to_the_weight() {
    let mut state = [[1u64, 2]];
    let mut weight = [[3u64, 4]];
    let gradient = [[5u64, 6]];
    update_each(
        &mut state,
        &mut weight,
        &gradient,
        |s: u64, g: u64| 10 * s + g,
        |w: u64, s: u64, g: u64| 1000 * w + 10 * s + g,
    );
    assert_eq!(state, [[15, 26]]);
    assert_eq!(weight, [[3155, 4266]]);
}
