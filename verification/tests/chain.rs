use neuralnet::layers::{learn, Layer, Stack, Then};

/// `y = tanh(k * x)`, with a log of the order in which it is updated.
#[derive(Clone, Debug, PartialEq)]
struct Unit {
    name: char,
    k: f64,
}

impl Layer for Unit {
    type In = f64;
    type Out = f64;
    type Cache = (char, f64);
    type Grad = (char, f64);

    fn ff(&self, x: f64) -> (f64, (char, f64)) {
        ((self.k * x).tanh(), (self.name, x))
    }

    fn bp(&self, cache: &(char, f64), g: f64) -> (f64, (char, f64)) {
        let d = g * (1. - (self.k * cache.1).tanh().powi(2));
        (d * self.k, (self.name, d * cache.1))
    }

    fn update(&mut self, grad: (char, f64)) {
        assert_eq!(grad.0, self.name);
        self.k -= 0.5 * grad.1;
    }
}

/// Doubles a number and widens it to a pair, so that the types along a
/// chain differ.
struct Widen;

impl Layer for Widen {
    type In = f64;
    type Out = [f64; 2];
    type Cache = ();
    type Grad = ();

    fn ff(&self, x: f64) -> ([f64; 2], ()) {
        ([x, 2. * x], ())
    }

    fn bp(&self, _cache: &(), g: [f64; 2]) -> (f64, ()) {
        (g[0] + 2. * g[1], ())
    }

    fn update(&mut self, _grad: ()) {}
}

fn unit(name: char, k: f64) -> Unit {
    Unit { name, k }
}

#[test]
fn then_feeds_the_first_into_the_second() {
    let chain = Then { first: unit('a', 0.5), second: unit('b', -2.) };
    let (y, cache) = chain.ff(0.8);
    assert_eq!(y, (-2. * (0.5f64 * 0.8).tanh()).tanh());
    assert_eq!(cache, (('a', 0.8), ('b', (0.5f64 * 0.8).tanh())));
}

#[test]
fn then_propagates_back_through_the_second_first() {
    let a = unit('a', 0.5);
    let b = unit('b', -2.);
    let chain = Then { first: a.clone(), second: b.clone() };
    let (_, cache) = chain.ff(0.8);
    let (gx, grad) = chain.bp(&cache, 1.5);
    let (mid, gb) = b.bp(&cache.1, 1.5);
    let (expected, ga) = a.bp(&cache.0, mid);
    assert_eq!(gx, expected);
    assert_eq!(grad, (ga, gb));
}

#[test]
fn then_joins_layers_of_different_shapes() {
    let chain = Then { first: unit('a', 1.), second: Widen };
    let (y, cache) = chain.ff(0.5);
    assert_eq!(y, [0.5f64.tanh(), 2. * 0.5f64.tanh()]);
    let (gx, _) = chain.bp(&cache, [1., 10.]);
    assert_eq!(gx, 21. * (1. - 0.5f64.tanh().powi(2)));
}

#[test]
fn then_updates_each_layer_with_its_own_gradient() {
    let mut chain = Then { first: unit('a', 0.5), second: unit('b', -2.) };
    chain.update((('a', 1.), ('b', -1.)));
    assert_eq!(chain.first.k, 0.);
    assert_eq!(chain.second.k, -1.5);
}

#[test]
fn stack_runs_forward_in_order_and_backward_in_reverse() {
    let stack = Stack { layers: [unit('a', 0.5), unit('b', -2.), unit('c', 1.5)] };
    let (y, caches) = stack.ff(0.8);
    let h1 = (0.5f64 * 0.8).tanh();
    let h2 = (-2. * h1).tanh();
    assert_eq!(y, (1.5 * h2).tanh());
    assert_eq!(caches, vec![('a', 0.8), ('b', h1), ('c', h2)]);
    let (gx, grads) = stack.bp(&caches, 1.);
    let names: Vec<char> = grads.iter().map(|g| g.0).collect();
    assert_eq!(names, vec!['c', 'b', 'a']);
    let (g2, gc) = stack.layers[2].bp(&caches[2], 1.);
    let (g1, gb) = stack.layers[1].bp(&caches[1], g2);
    let (g0, ga) = stack.layers[0].bp(&caches[0], g1);
    assert_eq!(gx, g0);
    assert_eq!(grads, vec![gc, gb, ga]);
}

#[test]
fn stack_gradients_match_finite_differences() {
    let stack = Stack { layers: [unit('a', 0.5), unit('b', -2.), unit('c', 1.5)] };
    let (_, caches) = stack.ff(0.8);
    let (gx, grads) = stack.bp(&caches, 1.);
    let eps = 1e-6;
    let base = stack.ff(0.8).0;
    assert!((stack.ff(0.8 + eps).0 - base - eps * gx).abs() < 1e-10);
    for l in 0..3 {
        let mut moved = Stack { layers: stack.layers.clone() };
        moved.layers[l].k += eps;
        assert!((moved.ff(0.8).0 - base - eps * grads[2 - l].1).abs() < 1e-10);
    }
}

#[test]
fn stack_updates_every_layer_once() {
    let mut stack = Stack { layers: [unit('a', 0.5), unit('b', -2.), unit('c', 1.5)] };
    let (_, caches) = stack.ff(0.8);
    let (_, grads) = stack.bp(&caches, 1.);
    let expected = [
        0.5 - 0.5 * grads[2].1,
        -2. - 0.5 * grads[1].1,
        1.5 - 0.5 * grads[0].1,
    ];
    stack.update(grads);
    assert_eq!(stack.layers.clone().map(|u| u.k), expected);
}

#[test]
fn empty_stack_hands_everything_through() {
    let stack: Stack<Unit, 0> = Stack { layers: [] };
    let (y, caches) = stack.ff(0.8);
    assert_eq!(y, 0.8);
    assert_eq!(caches, vec![]);
    let (gx, grads) = stack.bp(&caches, 2.5);
    assert_eq!(gx, 2.5);
    assert_eq!(grads, vec![]);
}

#[test]
fn stack_with_a_short_cache_propagates_nothing() {
    let stack = Stack { layers: [unit('a', 0.5), unit('b', -2.)] };
    let (gx, grads) = stack.bp(&vec![('a', 0.8)], 2.5);
    assert_eq!(gx, 2.5);
    assert_eq!(grads, vec![]);
}

#[test]
fn learning_propagates_back_before_it_updates() {
    let mut layer = unit('a', 0.5);
    let (_, cache) = layer.ff(0.8);
    let (expected, grad) = layer.bp(&cache, 1.5);
    let gx = learn(&mut layer, &cache, 1.5);
    assert_eq!(gx, expected);
    assert_eq!(layer.k, 0.5 - 0.5 * grad.1);
}

#[test]
fn stack_looks_only_at_the_caches_of_its_layers() {
    let stack = Stack { layers: [unit('a', 0.5), unit('b', -2.)] };
    let (_, mut caches) = stack.ff(0.8);
    let (gx, grads) = stack.bp(&caches, 1.);
    caches.push(('z', 9.));
    let (gx2, grads2) = stack.bp(&caches, 1.);
    assert_eq!(gx, gx2);
    assert_eq!(grads, grads2);
}
