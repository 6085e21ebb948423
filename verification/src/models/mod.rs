//! The contract every model meets, and the driver that trains and validates one.
use vstd::prelude::*;
use crate::layers::single_valued2;

pub mod ann4;
pub mod cnn;
pub mod cnn2;
pub mod rnnsent;

verus! {

/// A trainable model whose prediction has `Y` components.
///
/// `feedforward` caches what `backprop` needs, so the two are called in
/// turn on one example before the next example is fed.
pub trait NeuralNetwork<const Y: usize>: Sized {
    /// One example, in the shape the first layer takes.
    type ModelInput;

    /// The element type of predictions, targets and losses.
    type Scalar: Copy;

    /// A model with freshly initialised parameters.
    fn new() -> Self;

    /// The prediction for `x` under the current parameters.
    fn feedforward(&mut self, x: Self::ModelInput) -> [Self::Scalar; Y];

    /// Propagates the loss gradient of `y_out` against `y_test` through every
    /// layer in reverse order and updates the parameters.
    fn backprop(&mut self, y_out: [Self::Scalar; Y], y_test: [Self::Scalar; Y]);

    /// The cost of predicting `y_out` where `y_test` was expected.
    fn loss(y_out: &[Self::Scalar; Y], y_test: &[Self::Scalar; Y]) -> Self::Scalar;
}

/// How many loss samples a training run aims at.
pub const LOSS_SAMPLES: usize = 400;

/// Whether the loss of example `i` of `n` is sampled: every example of a
/// short run, every `n / 400`-th of a long one.
pub open spec fn sampled(i: nat, n: nat) -> bool {
    n < 400 || i % (n / 400) == 0
}

/// The sampled examples among the first `i` of `n`, in order.
pub open spec fn sampled_indices(i: nat, n: nat) -> Seq<int>
    decreases i,
{
    if i == 0 {
        Seq::empty()
    } else if sampled((i - 1) as nat, n) {
        sampled_indices((i - 1) as nat, n).push(i - 1)
    } else {
        sampled_indices((i - 1) as nat, n)
    }
}

/// Every sampled index names one of the first `i` examples.
pub proof fn lemma_sampled_indices_in_range(i: nat, n: nat)
    ensures
        sampled_indices(i, n).len() <= i,
        forall|k: int|
            0 <= k < sampled_indices(i, n).len() ==> 0 <= #[trigger] sampled_indices(i, n)[k] < i,
    decreases i,
{
    if i > 0 {
        lemma_sampled_indices_in_range((i - 1) as nat, n);
    }
}

/// Decides whether the loss of example `i` of `n` is sampled.
pub fn is_sampled(i: usize, n: usize) -> (r: bool)
    ensures
        r == sampled(i as nat, n as nat),
{
    n < LOSS_SAMPLES || i % (n / LOSS_SAMPLES) == 0
}

/// Whether `idx` can lead after the first `k` entries of `y` were scanned:
/// entry 0 leads at first, and a later entry takes the lead exactly when
/// `gt` says it is greater than the entry that leads so far.
pub open spec fn leads<S, F: Fn(S, S) -> bool, const Y: usize>(
    gt: F,
    y: [S; Y],
    k: int,
    idx: int,
) -> bool
    decreases k,
{
    if k <= 1 {
        idx == 0
    } else {
        exists|prev: int, wins: bool|
            {
                &&& 0 <= prev < k - 1
                &&& leads(gt, y, k - 1, prev)
                &&& #[trigger] call_ensures(gt, (y[k - 1], y[prev]), wins)
                &&& idx == if wins {
                    k - 1
                } else {
                    prev
                }
            }
    }
}

/// The index that leads after all of `y` was scanned from the front.
pub fn argmax<S: Copy, F: Fn(S, S) -> bool, const Y: usize>(y: &[S; Y], gt: &F) -> (r: usize)
    requires
        Y > 0,
        forall|a: S, b: S| call_requires(*gt, (a, b)),
    ensures
        r < Y,
        leads(*gt, *y, Y as int, r as int),
{
    let mut best: usize = 0;
    let mut k: usize = 1;
    while k < Y
        invariant
            1 <= k <= Y,
            best < k,
            forall|a: S, b: S| call_requires(*gt, (a, b)),
            leads(*gt, *y, k as int, best as int),
        decreases Y - k,
    {
        let wins = gt(y[k], y[best]);
        let ghost prev = best as int;
        if wins {
            best = k;
        }
        proof {
            assert(call_ensures(*gt, (y[k + 1 - 1], y[prev]), wins));
        }
        k += 1;
    }
    best
}

/// Where `gt` gives one answer only, a scan ends on one leader only.
pub proof fn lemma_leads_once<S, F: Fn(S, S) -> bool, const Y: usize>(
    gt: F,
    y: [S; Y],
    k: int,
    idx1: int,
    idx2: int,
)
    requires
        single_valued2(gt),
        leads(gt, y, k, idx1),
        leads(gt, y, k, idx2),
    ensures
        idx1 == idx2,
    decreases k,
{
    if k > 1 {
        let (prev1, wins1) = choose|prev: int, wins: bool|
            {
                &&& 0 <= prev < k - 1
                &&& leads(gt, y, k - 1, prev)
                &&& #[trigger] call_ensures(gt, (y[k - 1], y[prev]), wins)
                &&& idx1 == if wins {
                    k - 1
                } else {
                    prev
                }
            };
        let (prev2, wins2) = choose|prev: int, wins: bool|
            {
                &&& 0 <= prev < k - 1
                &&& leads(gt, y, k - 1, prev)
                &&& #[trigger] call_ensures(gt, (y[k - 1], y[prev]), wins)
                &&& idx2 == if wins {
                    k - 1
                } else {
                    prev
                }
            };
        lemma_leads_once(gt, y, k - 1, prev1, prev2);
    }
}

/// Where `gt` compares by an integer key, the leader is the first entry
/// whose key is the greatest among those scanned.
pub proof fn lemma_leader_is_first_maximum<S, F: Fn(S, S) -> bool, const Y: usize>(
    gt: F,
    key: spec_fn(S) -> int,
    y: [S; Y],
    k: int,
    idx: int,
)
    requires
        forall|a: S, b: S, r: bool| call_ensures(gt, (a, b), r) ==> r == (key(a) > key(b)),
        1 <= k <= Y,
        leads(gt, y, k, idx),
    ensures
        0 <= idx < k,
        forall|j: int| 0 <= j < k ==> key(#[trigger] y[j]) <= key(y[idx]),
        forall|j: int| 0 <= j < idx ==> key(#[trigger] y[j]) < key(y[idx]),
    decreases k,
{
    if k > 1 {
        let (prev, wins) = choose|prev: int, wins: bool|
            {
                &&& 0 <= prev < k - 1
                &&& leads(gt, y, k - 1, prev)
                &&& #[trigger] call_ensures(gt, (y[k - 1], y[prev]), wins)
                &&& idx == if wins {
                    k - 1
                } else {
                    prev
                }
            };
        lemma_leader_is_first_maximum(gt, key, y, k - 1, prev);
    }
}

/// The number of positions at which `predicted` and `labels` agree.
pub open spec fn agreements(predicted: Seq<usize>, labels: Seq<usize>) -> nat
    decreases predicted.len(),
{
    if predicted.len() == 0 || labels.len() == 0 {
        0
    } else {
        agreements(predicted.drop_last(), labels.drop_last()) + if predicted.last()
            == labels.last() {
            1nat
        } else {
            0nat
        }
    }
}

/// Counts the examples whose predicted class is the labelled one.
pub fn count_correct(predicted: &[usize], labels: &[usize]) -> (correct: usize)
    requires
        predicted.len() == labels.len(),
    ensures
        correct == agreements(predicted@, labels@),
        correct <= predicted.len(),
{
    let n = predicted.len();
    let mut correct: usize = 0;
    let mut i: usize = 0;
    while i < n
        invariant
            i <= n,
            n == predicted.len(),
            n == labels.len(),
            correct == agreements(predicted@.take(i as int), labels@.take(i as int)),
            correct <= i,
        decreases n - i,
    {
        proof {
            assert(predicted@.take(i + 1).drop_last() =~= predicted@.take(i as int));
            assert(labels@.take(i + 1).drop_last() =~= labels@.take(i as int));
        }
        if predicted[i] == labels[i] {
            correct += 1;
        }
        i += 1;
    }
    proof {
        assert(predicted@.take(n as int) =~= predicted@);
        assert(labels@.take(n as int) =~= labels@);
    }
    correct
}

/// Whether a run over `n` examples is unrolled in full: `n + 1` models,
/// and one entry per example of everything else.
pub open spec fn unrolled(n: int, models: nat, fed: nat, outs: nat, forward: nat, backward: nat) -> bool {
    models == n + 1 && fed == n && outs == n && forward == n && backward == n
}

/// A model together with the switch that turns loss sampling on.
pub struct NNClassifierModel<T, const Y: usize> {
    model: T,
    sample_loss: bool,
}

impl<T: NeuralNetwork<Y>, const Y: usize> NNClassifierModel<T, Y> where T::ModelInput: Clone {
    /// Whether `train` samples the loss.
    pub closed spec fn samples_loss(&self) -> bool {
        self.sample_loss
    }

    /// The model.
    pub closed spec fn model(&self) -> T {
        self.model
    }

    /// A classifier around a fresh model.
    pub fn new(sample_loss: bool) -> (r: Self)
        ensures
            r.samples_loss() == sample_loss,
            call_ensures(T::new, (), r.model()),
    {
        NNClassifierModel { model: T::new(), sample_loss }
    }

    /// Trains on one example: feeds `x` forward, takes the loss of the
    /// prediction against `y` where `sample` asks for it, and propagates the
    /// same prediction back against `y`.
    pub fn train_example(&mut self, x: T::ModelInput, y: [T::Scalar; Y], sample: bool) -> (cost:
        Option<T::Scalar>)
        ensures
            final(self).samples_loss() == old(self).samples_loss(),
            cost is Some <==> sample,
            exists|forward: &mut T, y_out: [T::Scalar; Y], backward: &mut T|
                {
                    &&& #[trigger] call_ensures(T::feedforward, (forward, x), y_out)
                    &&& *forward == old(self).model()
                    &&& *backward == *final(forward)
                    &&& #[trigger] call_ensures(T::backprop, (backward, y_out, y), ())
                    &&& *final(backward) == final(self).model()
                    &&& cost matches Some(c) ==> call_ensures(T::loss, (&y_out, &y), c)
                },
    {
        let y_out = self.model.feedforward(x);
        let cost = if sample {
            Some(T::loss(&y_out, &y))
        } else {
            None
        };
        self.model.backprop(y_out, y);
        cost
    }

    /// Trains on every example once, in order: feed it forward, sample the
    /// loss where it is due, then propagate back. Each sampled loss is handed
    /// to `report` as soon as it is taken; all of them are returned, in the
    /// order in which they were taken.
    ///
    /// The run is unrolled over the examples: `models[i]` is the model before
    /// example `i`, `fed[i]` the clone of the example that is fed forward
    /// under the borrow `forward[i]`, `outs[i]` the prediction, which is
    /// propagated back against the example's target under the borrow
    /// `backward[i]` and leaves `models[i + 1]`. Each sampled loss is that of
    /// the prediction just made, against its target.
    pub fn train<F: Fn(T::Scalar) -> ()>(
        &mut self,
        x_train: &[T::ModelInput],
        y_train: &[[T::Scalar; Y]],
        report: &F,
    ) -> (costs: Vec<T::Scalar>)
        requires
            x_train.len() == y_train.len(),
            forall|cost: T::Scalar| call_requires(*report, (cost,)),
        ensures
            final(self).samples_loss() == old(self).samples_loss(),
            costs.len() == if old(self).samples_loss() {
                sampled_indices(x_train.len() as nat, x_train.len() as nat).len()
            } else {
                0
            },
            exists|
                models: Seq<T>,
                fed: Seq<T::ModelInput>,
                outs: Seq<[T::Scalar; Y]>,
                forward: Seq<&mut T>,
                backward: Seq<&mut T>,
            |
                {
                    &&& #[trigger] unrolled(
                        x_train.len() as int,
                        models.len(),
                        fed.len(),
                        outs.len(),
                        forward.len(),
                        backward.len(),
                    )
                    &&& models[0] == old(self).model()
                    &&& models[x_train.len() as int] == final(self).model()
                    &&& forall|i: int|
                        0 <= i < x_train.len() ==> cloned(x_train[i], #[trigger] fed[i])
                    &&& forall|i: int|
                        0 <= i < x_train.len() ==> {
                            &&& call_ensures(
                                T::feedforward,
                                (#[trigger] forward[i], fed[i]),
                                outs[i],
                            )
                            &&& *forward[i] == models[i]
                        }
                    &&& forall|i: int|
                        0 <= i < x_train.len() ==> {
                            &&& *(#[trigger] backward[i]) == *final(forward[i])
                            &&& call_ensures(T::backprop, (backward[i], outs[i], y_train[i]), ())
                            &&& *final(backward[i]) == models[i + 1]
                        }
                    &&& forall|k: int|
                        0 <= k < costs.len() ==> call_ensures(
                            T::loss,
                            (
                                &outs[sampled_indices(
                                    x_train.len() as nat,
                                    x_train.len() as nat,
                                )[k]],
                                &y_train[sampled_indices(
                                    x_train.len() as nat,
                                    x_train.len() as nat,
                                )[k]],
                            ),
                            #[trigger] costs[k],
                        )
                },
    {
        let n = x_train.len();
        let mut costs: Vec<T::Scalar> = Vec::new();
        let ghost mut models: Seq<T> = seq![self.model];
        let ghost mut fed: Seq<T::ModelInput> = Seq::empty();
        let ghost mut outs: Seq<[T::Scalar; Y]> = Seq::empty();
        // The borrows under which the examples so far were fed forward and
        // propagated back. Which borrows they are depends on what the model
        // comes to, and so does their first, empty sequence.
        let ghost mut forward: Seq<&mut T> = Seq::new(
            0,
            |k: int| choose|m: &mut T| *final(m) == final(self).model(),
        );
        let ghost mut backward: Seq<&mut T> = Seq::new(
            0,
            |k: int| choose|m: &mut T| *final(m) == final(self).model(),
        );
        let mut i: usize = 0;
        while i < n
            invariant
                i <= n,
                n == x_train.len(),
                n == y_train.len(),
                forall|cost: T::Scalar| call_requires(*report, (cost,)),
                self.samples_loss() == old(self).samples_loss(),
                costs.len() == if self.samples_loss() {
                    sampled_indices(i as nat, n as nat).len()
                } else {
                    0
                },
                unrolled(
                    i as int,
                    models.len(),
                    fed.len(),
                    outs.len(),
                    forward.len(),
                    backward.len(),
                ),
                models[0] == old(self).model(),
                models[i as int] == self.model(),
                forall|k: int| 0 <= k < i ==> cloned(x_train[k], #[trigger] fed[k]),
                forall|k: int|
                    0 <= k < i ==> {
                        &&& call_ensures(T::feedforward, (#[trigger] forward[k], fed[k]), outs[k])
                        &&& *forward[k] == models[k]
                    },
                forall|k: int|
                    0 <= k < i ==> {
                        &&& *(#[trigger] backward[k]) == *final(forward[k])
                        &&& call_ensures(T::backprop, (backward[k], outs[k], y_train[k]), ())
                        &&& *final(backward[k]) == models[k + 1]
                    },
                forall|k: int|
                    0 <= k < costs.len() ==> call_ensures(
                        T::loss,
                        (
                            &outs[sampled_indices(i as nat, n as nat)[k]],
                            &y_train[sampled_indices(i as nat, n as nat)[k]],
                        ),
                        #[trigger] costs[k],
                    ),
            decreases n - i,
        {
            let x = x_train[i].clone();
            let y = y_train[i];
            let ghost x0 = x;
            let ghost costs0 = costs@;
            let ghost models0 = models;
            let ghost fed0 = fed;
            let ghost outs0 = outs;
            let ghost forward0 = forward;
            let ghost backward0 = backward;
            let ghost before = self.model;
            let y_out = self.model.feedforward(x);
            let ghost fed_model = self.model;
            if self.sample_loss && is_sampled(i, n) {
                let cost = T::loss(&y_out, &y);
                report(cost);
                costs.push(cost);
            }
            self.model.backprop(y_out, y);
            proof {
                let f = choose|m: &mut T|
                    {
                        &&& #[trigger] call_ensures(T::feedforward, (m, x0), y_out)
                        &&& *m == before
                        &&& *final(m) == fed_model
                    };
                let b = choose|m: &mut T|
                    {
                        &&& #[trigger] call_ensures(T::backprop, (m, y_out, y), ())
                        &&& *m == fed_model
                        &&& *final(m) == self.model
                    };
                models = models0.push(self.model);
                fed = fed0.push(x0);
                outs = outs0.push(y_out);
                forward = forward0.push(f);
                backward = backward0.push(b);
                lemma_sampled_indices_in_range(i as nat, n as nat);
                assert forall|k: int| 0 <= k < i + 1 implies cloned(x_train[k], #[trigger] fed[k]) by {
                    if k < i {
                        assert(fed[k] == fed0[k]);
                    }
                }
                assert forall|k: int| 0 <= k < i + 1 implies {
                    &&& call_ensures(T::feedforward, (#[trigger] forward[k], fed[k]), outs[k])
                    &&& *forward[k] == models[k]
                } by {
                    if k < i {
                        assert(forward[k] == forward0[k]);
                        assert(fed[k] == fed0[k]);
                        assert(outs[k] == outs0[k]);
                        assert(models[k] == models0[k]);
                    }
                }
                assert forall|k: int| 0 <= k < i + 1 implies {
                    &&& *(#[trigger] backward[k]) == *final(forward[k])
                    &&& call_ensures(T::backprop, (backward[k], outs[k], y_train[k]), ())
                    &&& *final(backward[k]) == models[k + 1]
                } by {
                    if k < i {
                        assert(backward[k] == backward0[k]);
                        assert(forward[k] == forward0[k]);
                        assert(outs[k] == outs0[k]);
                        assert(models[k + 1] == models0[k + 1]);
                    }
                }
                assert forall|k: int| 0 <= k < costs.len() implies call_ensures(
                    T::loss,
                    (
                        &outs[sampled_indices((i + 1) as nat, n as nat)[k]],
                        &y_train[sampled_indices((i + 1) as nat, n as nat)[k]],
                    ),
                    #[trigger] costs[k],
                ) by {
                    if k < costs0.len() {
                        assert(costs[k] == costs0[k]);
                        let at = sampled_indices(i as nat, n as nat)[k];
                        assert(sampled_indices((i + 1) as nat, n as nat)[k] == at);
                        assert(outs[at] == outs0[at]);
                    } else {
                        assert(sampled_indices((i + 1) as nat, n as nat)[k] == i);
                    }
                }
            }
            i += 1;
        }
        costs
    }

    /// The class the model predicts for `x`: the leading component of what
    /// feeding `x` forward gives.
    pub fn predict<F: Fn(T::Scalar, T::Scalar) -> bool>(&mut self, x: T::ModelInput, gt: &F) -> (r:
        usize)
        requires
            Y > 0,
            forall|a: T::Scalar, b: T::Scalar| call_requires(*gt, (a, b)),
        ensures
            r < Y,
            exists|model: &mut T, y: [T::Scalar; Y]|
                {
                    &&& #[trigger] call_ensures(T::feedforward, (model, x), y)
                    &&& *model == old(self).model()
                    &&& *final(model) == final(self).model()
                    &&& leads(*gt, y, Y as int, r as int)
                },
            final(self).samples_loss() == old(self).samples_loss(),
    {
        let y = self.model.feedforward(x);
        argmax(&y, gt)
    }

    /// Predicts every example and counts those whose prediction is the label.
    ///
    /// The run is unrolled over the examples: `models[i]` is the model before
    /// example `i`, `fed[i]` the clone of the example that is fed forward
    /// under the borrow `passes[i]`, `outs[i]` what comes out, whose leading
    /// component is `predicted[i]`, and `models[i + 1]` the model it leaves.
    pub fn validate<F: Fn(T::Scalar, T::Scalar) -> bool>(
        &mut self,
        x_test: &[T::ModelInput],
        y_test: &[usize],
        gt: &F,
    ) -> (correct: usize)
        requires
            Y > 0,
            x_test.len() == y_test.len(),
            forall|a: T::Scalar, b: T::Scalar| call_requires(*gt, (a, b)),
        ensures
            correct <= x_test.len(),
            final(self).samples_loss() == old(self).samples_loss(),
            exists|
                models: Seq<T>,
                fed: Seq<T::ModelInput>,
                outs: Seq<[T::Scalar; Y]>,
                passes: Seq<&mut T>,
                predicted: Seq<usize>,
            |
                {
                    &&& #[trigger] unrolled(
                        x_test.len() as int,
                        models.len(),
                        fed.len(),
                        outs.len(),
                        passes.len(),
                        predicted.len(),
                    )
                    &&& models[0] == old(self).model()
                    &&& models[x_test.len() as int] == final(self).model()
                    &&& forall|i: int|
                        0 <= i < x_test.len() ==> cloned(x_test[i], #[trigger] fed[i])
                    &&& forall|i: int|
                        0 <= i < x_test.len() ==> {
                            &&& call_ensures(T::feedforward, (#[trigger] passes[i], fed[i]), outs[i])
                            &&& *passes[i] == models[i]
                            &&& *final(passes[i]) == models[i + 1]
                        }
                    &&& forall|i: int|
                        0 <= i < x_test.len() ==> leads(
                            *gt,
                            outs[i],
                            Y as int,
                            #[trigger] predicted[i] as int,
                        )
                    &&& correct == agreements(predicted, y_test@)
                },
    {
        let n = x_test.len();
        let mut predicted: Vec<usize> = Vec::new();
        let ghost mut models: Seq<T> = seq![self.model];
        let ghost mut fed: Seq<T::ModelInput> = Seq::empty();
        let ghost mut outs: Seq<[T::Scalar; Y]> = Seq::empty();
        // The borrows under which the examples so far were fed forward. Which
        // borrows they are depends on what the model comes to, and so does
        // their first, empty sequence.
        let ghost mut passes: Seq<&mut T> = Seq::new(
            0,
            |k: int| choose|m: &mut T| *final(m) == final(self).model(),
        );
        let mut i: usize = 0;
        while i < n
            invariant
                i <= n,
                n == x_test.len(),
                Y > 0,
                forall|a: T::Scalar, b: T::Scalar| call_requires(*gt, (a, b)),
                self.samples_loss() == old(self).samples_loss(),
                unrolled(
                    i as int,
                    models.len(),
                    fed.len(),
                    outs.len(),
                    passes.len(),
                    predicted.len() as nat,
                ),
                models[0] == old(self).model(),
                models[i as int] == self.model(),
                forall|k: int| 0 <= k < i ==> cloned(x_test[k], #[trigger] fed[k]),
                forall|k: int|
                    0 <= k < i ==> {
                        &&& call_ensures(T::feedforward, (#[trigger] passes[k], fed[k]), outs[k])
                        &&& *passes[k] == models[k]
                        &&& *final(passes[k]) == models[k + 1]
                    },
                forall|k: int|
                    0 <= k < i ==> leads(*gt, outs[k], Y as int, #[trigger] predicted[k] as int),
            decreases n - i,
        {
            let x = x_test[i].clone();
            let ghost x0 = x;
            let ghost models0 = models;
            let ghost fed0 = fed;
            let ghost outs0 = outs;
            let ghost passes0 = passes;
            let ghost predicted0 = predicted@;
            let ghost before = self.model;
            let y = self.model.feedforward(x);
            let p = argmax(&y, gt);
            predicted.push(p);
            proof {
                let pass = choose|m: &mut T|
                    {
                        &&& #[trigger] call_ensures(T::feedforward, (m, x0), y)
                        &&& *m == before
                        &&& *final(m) == self.model
                    };
                models = models0.push(self.model);
                fed = fed0.push(x0);
                outs = outs0.push(y);
                passes = passes0.push(pass);
                assert forall|k: int| 0 <= k < i + 1 implies cloned(x_test[k], #[trigger] fed[k]) by {
                    if k < i {
                        assert(fed[k] == fed0[k]);
                    }
                }
                assert forall|k: int| 0 <= k < i + 1 implies {
                    &&& call_ensures(T::feedforward, (#[trigger] passes[k], fed[k]), outs[k])
                    &&& *passes[k] == models[k]
                    &&& *final(passes[k]) == models[k + 1]
                } by {
                    if k < i {
                        assert(passes[k] == passes0[k]);
                        assert(fed[k] == fed0[k]);
                        assert(outs[k] == outs0[k]);
                        assert(models[k] == models0[k]);
                        assert(models[k + 1] == models0[k + 1]);
                    }
                }
                assert forall|k: int| 0 <= k < i + 1 implies leads(
                    *gt,
                    outs[k],
                    Y as int,
                    #[trigger] predicted[k] as int,
                ) by {
                    if k < i {
                        assert(predicted[k] == predicted0[k]);
                        assert(outs[k] == outs0[k]);
                    }
                }
            }
            i += 1;
        }
        let correct = count_correct(predicted.as_slice(), y_test);
        proof {
            assert(unrolled(
                n as int,
                models.len(),
                fed.len(),
                outs.len(),
                passes.len(),
                predicted@.len(),
            ));
        }
        correct
    }
}

} // verus!
