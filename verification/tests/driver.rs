use neuralnet::models::rnnsent::{last_gradient, last_output};
use neuralnet::models::{
    argmax, count_correct, is_sampled, NNClassifierModel, NeuralNetwork, LOSS_SAMPLES,
};

fn gt(a: f64, b: f64) -> bool {
    a > b
}

fn quiet(_cost: f64) {}

#[test]
fn argmax_finds_the_greatest_component() {
    assert_eq!(argmax(&[0.1, 0.7, 0.2], &gt), 1);
    assert_eq!(argmax(&[0.9, 0.05, 0.05], &gt), 0);
    assert_eq!(argmax(&[0.0, 0.0, 1.0], &gt), 2);
    assert_eq!(argmax(&[3.0], &gt), 0);
}

#[test]
fn argmax_keeps_the_first_of_equal_components() {
    assert_eq!(argmax(&[0.5, 0.5], &gt), 0);
    assert_eq!(argmax(&[0.1, 0.4, 0.4, 0.1], &gt), 1);
}

#[test]
fn argmax_is_never_taken_by_what_does_not_compare() {
    assert_eq!(argmax(&[0.1, f64::NAN, 0.4], &gt), 2);
    assert_eq!(argmax(&[f64::NAN, 0.3, 0.4], &gt), 0);
}

#[test]
fn short_runs_sample_every_loss() {
    for n in [1, 2, 399] {
        for i in 0..n {
            assert!(is_sampled(i, n));
        }
    }
}

#[test]
fn long_runs_sample_every_stride() {
    assert_eq!(LOSS_SAMPLES, 400);
    assert!(is_sampled(0, 400));
    assert!(is_sampled(1, 400));
    assert!(is_sampled(0, 800));
    assert!(!is_sampled(1, 800));
    assert!(is_sampled(2, 800));
    assert!(is_sampled(50, 20000));
    assert!(!is_sampled(49, 20000));
    assert!(!is_sampled(51, 20000));
    assert_eq!((0..20000).filter(|&i| is_sampled(i, 20000)).count(), 400);
    assert_eq!((0..1000).filter(|&i| is_sampled(i, 1000)).count(), 500);
}

#[test]
fn count_correct_counts_agreeing_positions() {
    assert_eq!(count_correct(&[0, 1, 2, 1], &[0, 2, 2, 1]), 3);
    assert_eq!(count_correct(&[1, 1], &[0, 0]), 0);
    assert_eq!(count_correct(&[], &[]), 0);
}

/// Echoes its input as its prediction and keeps a log of what it was asked.
struct Echo {
    log: Vec<String>,
}

impl NeuralNetwork<2> for Echo {
    type ModelInput = [f64; 2];
    type Scalar = f64;

    fn new() -> Self {
        Echo { log: vec![] }
    }

    fn feedforward(&mut self, x: [f64; 2]) -> [f64; 2] {
        self.log.push(format!("ff {}", x[0]));
        x
    }

    fn backprop(&mut self, y_out: [f64; 2], y_test: [f64; 2]) {
        self.log.push(format!("bp {} {}", y_out[0], y_test[0]));
    }

    fn loss(y_out: &[f64; 2], y_test: &[f64; 2]) -> f64 {
        y_out[0] * 10. + y_test[0]
    }
}

#[test]
fn training_samples_the_loss_of_each_example_of_a_short_run() {
    let mut model = NNClassifierModel::<Echo, 2>::new(true);
    let x = [[1., 0.], [2., 0.], [3., 0.]];
    let y = [[0.1, 0.], [0.2, 0.], [0.3, 0.]];
    let costs = model.train(&x, &y, &quiet);
    assert_eq!(costs, vec![10.1, 20.2, 30.3]);
}

#[test]
fn training_without_sampling_reports_nothing() {
    let mut model = NNClassifierModel::<Echo, 2>::new(false);
    let costs = model.train(&[[1., 0.], [2., 0.]], &[[0., 1.], [1., 0.]], &quiet);
    assert_eq!(costs, Vec::<f64>::new());
}

#[test]
fn training_on_nothing_reports_nothing() {
    let mut model = NNClassifierModel::<Echo, 2>::new(true);
    assert_eq!(model.train(&[], &[], &quiet), Vec::<f64>::new());
}

#[test]
fn training_samples_every_second_loss_of_eight_hundred() {
    let mut model = NNClassifierModel::<Echo, 2>::new(true);
    let x: Vec<[f64; 2]> = (0..800).map(|i| [i as f64, 0.]).collect();
    let y = vec![[0., 1.]; 800];
    let costs = model.train(&x, &y, &quiet);
    assert_eq!(costs.len(), 400);
    assert_eq!(costs[0], 0.);
    assert_eq!(costs[1], 20.);
    assert_eq!(costs[399], 7980.);
}

#[test]
fn validation_counts_the_hits() {
    let mut model = NNClassifierModel::<Echo, 2>::new(false);
    let x = [[0.9, 0.1], [0.2, 0.8], [0.5, 0.5], [0.3, 0.7]];
    assert_eq!(model.predict([0.2, 0.8], &gt), 1);
    assert_eq!(model.validate(&x, &[0, 1, 1, 0], &gt), 2);
    assert_eq!(model.validate(&x, &[0, 1, 0, 1], &gt), 4);
    assert_eq!(model.validate(&[], &[], &gt), 0);
}

/// One affine layer with a softmax on top, trained by plain gradient
/// descent on the cross-entropy.
struct Affine {
    w: [[f64; 2]; 2],
    b: [f64; 2],
    a: [f64; 2],
}

impl NeuralNetwork<2> for Affine {
    type ModelInput = [f64; 2];
    type Scalar = f64;

    fn new() -> Self {
        Affine { w: [[0.1, -0.1], [-0.1, 0.1]], b: [0., 0.], a: [0., 0.] }
    }

    fn feedforward(&mut self, x: [f64; 2]) -> [f64; 2] {
        self.a = x;
        let z = [
            self.w[0][0] * x[0] + self.w[0][1] * x[1] + self.b[0],
            self.w[1][0] * x[0] + self.w[1][1] * x[1] + self.b[1],
        ];
        let sum = z[0].exp() + z[1].exp();
        [z[0].exp() / sum, z[1].exp() / sum]
    }

    fn backprop(&mut self, y_out: [f64; 2], y_test: [f64; 2]) {
        for i in 0..2 {
            let d = y_out[i] - y_test[i];
            for j in 0..2 {
                self.w[i][j] -= 0.5 * d * self.a[j];
            }
            self.b[i] -= 0.5 * d;
        }
    }

    fn loss(y_out: &[f64; 2], y_test: &[f64; 2]) -> f64 {
        -(y_test[0] * y_out[0].log2() + y_test[1] * y_out[1].log2())
    }
}

fn separable(n: usize, offset: u64) -> (Vec<[f64; 2]>, Vec<[f64; 2]>, Vec<usize>) {
    let mut seed = 12345 + offset;
    let mut next = move || {
        seed = seed.wrapping_mul(6364136223846793005).wrapping_add(1442695040888963407);
        ((seed >> 33) as f64 / (1u64 << 31) as f64) * 2. - 1.
    };
    let mut x = vec![];
    let mut targets = vec![];
    let mut labels = vec![];
    while x.len() < n {
        let p = [next(), next()];
        if (p[0] - p[1]).abs() < 0.1 {
            continue;
        }
        let label = if p[0] > p[1] { 0 } else { 1 };
        x.push(p);
        labels.push(label);
        targets.push(if label == 0 { [1., 0.] } else { [0., 1.] });
    }
    (x, targets, labels)
}

#[test]
fn one_epoch_separates_two_classes() {
    let (x_train, y_train, _) = separable(1000, 0);
    let (x_test, _, labels) = separable(200, 99);
    let mut model = NNClassifierModel::<Affine, 2>::new(true);
    let costs = model.train(&x_train, &y_train, &quiet);
    assert_eq!(costs.len(), 500);
    let correct = model.validate(&x_test, &labels, &gt);
    assert!(correct as f64 / labels.len() as f64 >= 0.9);
}

#[test]
fn only_the_last_step_is_read_and_blamed() {
    assert_eq!(last_output(&[[1., 2.], [3., 4.], [5., 6.]]), [5., 6.]);
    assert_eq!(last_gradient::<3, [f64; 2]>([7., 8.], [0., 0.]), [[0., 0.], [0., 0.], [7., 8.]]);
    assert_eq!(last_gradient::<1, f64>(7., 0.), [7.]);
}

fn noise(n: usize, offset: u64) -> (Vec<[f64; 2]>, Vec<[f64; 2]>, Vec<usize>) {
    let (x, _, _) = separable(n, offset);
    let mut seed = 777 + offset;
    let mut labels = vec![];
    let mut targets = vec![];
    for _ in 0..n {
        seed = seed.wrapping_mul(6364136223846793005).wrapping_add(1442695040888963407);
        let label = ((seed >> 40) & 1) as usize;
        labels.push(label);
        targets.push(if label == 0 { [1., 0.] } else { [0., 1.] });
    }
    (x, targets, labels)
}

#[test]
fn labels_without_signal_leave_the_model_at_chance() {
    let mut correct = 0;
    let mut total = 0;
    for run in 0..5 {
        let (x_train, y_train, _) = noise(1000, 10 * run);
        let (x_test, _, labels) = noise(400, 10 * run + 5);
        let mut model = NNClassifierModel::<Affine, 2>::new(false);
        let costs = model.train(&x_train, &y_train, &quiet);
        assert!(costs.is_empty());
        correct += model.validate(&x_test, &labels, &gt);
        total += labels.len();
    }
    let accuracy = correct as f64 / total as f64;
    assert!(accuracy > 0.4 && accuracy < 0.6);
}

#[test]
fn one_example_gives_its_loss_only_when_asked() {
    let mut model = NNClassifierModel::<Echo, 2>::new(false);
    assert_eq!(model.train_example([3., 0.], [0.5, 0.], true), Some(30.5));
    assert_eq!(model.train_example([4., 0.], [0.5, 0.], false), None);
}

#[test]
fn one_example_moves_the_model_towards_its_target() {
    let mut model = NNClassifierModel::<Affine, 2>::new(false);
    let before = model.train_example([1., -1.], [0., 1.], true).unwrap();
    let after = model.train_example([1., -1.], [0., 1.], true).unwrap();
    assert!(after < before);
}

#[test]
fn training_hands_each_loss_on_as_it_is_taken() {
    let seen = std::cell::RefCell::new(vec![]);
    let mut model = NNClassifierModel::<Echo, 2>::new(true);
    let x = [[1., 0.], [2., 0.], [3., 0.]];
    let y = [[0.1, 0.], [0.2, 0.], [0.3, 0.]];
    let costs = model.train(&x, &y, &|cost: f64| seen.borrow_mut().push(cost));
    assert_eq!(costs, vec![10.1, 20.2, 30.3]);
    assert_eq!(*seen.borrow(), costs);
    let mut model = NNClassifierModel::<Echo, 2>::new(false);
    seen.borrow_mut().clear();
    let _ = model.train(&x, &y, &|cost: f64| seen.borrow_mut().push(cost));
    assert!(seen.borrow().is_empty());
}
