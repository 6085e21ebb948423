//! The contract every layer meets, the combinators that chain layers, and
//! the kernels of the layers themselves.
use vstd::prelude::*;

pub mod conv;
pub mod lstm;
pub mod maxpool;
pub mod relu2d;
pub mod rnncell;
pub mod softmax;

verus! {

/// Whether `f` gives one result only for each pair of arguments.
pub open spec fn single_valued2<A, B, R, F: Fn(A, B) -> R>(f: F) -> bool {
    forall|a: A, b: B, r1: R, r2: R|
        #![trigger call_ensures(f, (a, b), r1), call_ensures(f, (a, b), r2)]
        call_ensures(f, (a, b), r1) && call_ensures(f, (a, b), r2) ==> r1 == r2
}

/// Whether `f` gives one result only for each triple of arguments.
pub open spec fn single_valued3<A, B, C, R, F: Fn(A, B, C) -> R>(f: F) -> bool {
    forall|a: A, b: B, c: C, r1: R, r2: R|
        #![trigger call_ensures(f, (a, b, c), r1), call_ensures(f, (a, b, c), r2)]
        call_ensures(f, (a, b, c), r1) && call_ensures(f, (a, b, c), r2) ==> r1 == r2
}

/// A layer: it feeds an input forward and keeps what the way back needs,
/// it propagates a gradient on its output back to one on its input and one
/// on its parameters, and it updates its parameters with such a gradient.
///
/// Inputs and the gradients on them share a type, and so do outputs and the
/// gradients on them: the shapes along a chain fit by construction.
pub trait Layer: Sized {
    /// What the layer reads, and the gradient it hands back.
    type In;

    /// What the layer gives, and the gradient it is handed.
    type Out;

    /// What the forward pass keeps for the backward pass.
    type Cache;

    /// The gradient on the layer's own parameters.
    type Grad;

    /// The output for `x`, and what the backward pass needs of this pass.
    fn ff(&self, x: Self::In) -> (Self::Out, Self::Cache);

    /// The gradient on the input and the gradient on the parameters, for
    /// the gradient `g` on the output of the forward pass that left `cache`.
    fn bp(&self, cache: &Self::Cache, g: Self::Out) -> (Self::In, Self::Grad);

    /// One optimizer update of the parameters.
    fn update(&mut self, grad: Self::Grad);
}

/// Two layers in a row: the second reads what the first gives.
pub struct Then<A, B> {
    pub first: A,
    pub second: B,
}

impl<A: Layer, B: Layer<In = A::Out>> Layer for Then<A, B> {
    type In = A::In;

    type Out = B::Out;

    type Cache = (A::Cache, B::Cache);

    type Grad = (A::Grad, B::Grad);

    /// Feeds `x` through the first layer and what comes out through the
    /// second.
    fn ff(&self, x: A::In) -> (r: (B::Out, (A::Cache, B::Cache)))
        ensures
            exists|mid: A::Out|
                {
                    &&& #[trigger] call_ensures(A::ff, (&self.first, x), (mid, r.1.0))
                    &&& call_ensures(B::ff, (&self.second, mid), (r.0, r.1.1))
                },
    {
        let (mid, ca) = self.first.ff(x);
        let ghost mid0 = mid;
        let (out, cb) = self.second.ff(mid);
        let r = (out, (ca, cb));
        proof {
            assert(call_ensures(A::ff, (&self.first, x), (mid0, r.1.0)));
            assert(call_ensures(B::ff, (&self.second, mid0), (r.0, r.1.1)));
        }
        r
    }

    /// Propagates `g` back through the second layer and what comes out
    /// through the first.
    fn bp(&self, cache: &(A::Cache, B::Cache), g: B::Out) -> (r: (A::In, (A::Grad, B::Grad)))
        ensures
            exists|mid: A::Out|
                {
                    &&& #[trigger] call_ensures(B::bp, (&self.second, &cache.1, g), (mid, r.1.1))
                    &&& call_ensures(A::bp, (&self.first, &cache.0, mid), (r.0, r.1.0))
                },
    {
        let (mid, gb) = self.second.bp(&cache.1, g);
        let ghost mid0 = mid;
        let (gx, ga) = self.first.bp(&cache.0, mid);
        let r = (gx, (ga, gb));
        proof {
            assert(call_ensures(B::bp, (&self.second, &cache.1, g), (mid0, r.1.1)));
            assert(call_ensures(A::bp, (&self.first, &cache.0, mid0), (r.0, r.1.0)));
        }
        r
    }

    /// Updates both layers, each with its own gradient.
    fn update(&mut self, grad: (A::Grad, B::Grad))
        ensures
            exists|first: &mut A|
                {
                    &&& #[trigger] call_ensures(A::update, (first, grad.0), ())
                    &&& *first == old(self).first
                    &&& *final(first) == final(self).first
                },
            exists|second: &mut B|
                {
                    &&& #[trigger] call_ensures(B::update, (second, grad.1), ())
                    &&& *second == old(self).second
                    &&& *final(second) == final(self).second
                },
    {
        self.first.update(grad.0);
        self.second.update(grad.1);
    }
}

/// `L` layers of one kind in a row, each reading what the one before gives.
pub struct Stack<M, const L: usize> {
    pub layers: [M; L],
}

impl<M: Layer<Out = <M as Layer>::In>, const L: usize> Stack<M, L> {
    /// Whether `xs` are the values between the layers of a forward pass
    /// that left `caches`: `xs[l]` goes into layer `l` and `xs[l + 1]` comes
    /// out of it.
    pub open spec fn feeds(&self, xs: Seq<M::In>, caches: Seq<M::Cache>) -> bool {
        &&& xs.len() == L + 1
        &&& caches.len() == L
        &&& forall|l: int|
            0 <= l < L ==> #[trigger] call_ensures(
                M::ff,
                (&self.layers[l], xs[l]),
                (xs[l + 1], caches[l]),
            )
    }

    /// Whether `gs` are the gradients between the layers of a backward
    /// pass over `caches` that gave `grads`: `gs[l + 1]` goes into layer `l`
    /// and `gs[l]` comes out of it, and the parameter gradients stand in the
    /// order in which the pass meets the layers, the last layer first.
    pub open spec fn propagates(
        &self,
        caches: Seq<M::Cache>,
        gs: Seq<M::In>,
        grads: Seq<M::Grad>,
    ) -> bool {
        &&& gs.len() == L + 1
        &&& grads.len() == L
        &&& caches.len() == L
        &&& forall|l: int|
            0 <= l < L ==> #[trigger] call_ensures(
                M::bp,
                (&self.layers[l], &caches[l], gs[l + 1]),
                (gs[l], grads[L - 1 - l]),
            )
    }
}

impl<M: Layer<Out = <M as Layer>::In>, const L: usize> Layer for Stack<M, L> {
    type In = M::In;

    type Out = M::In;

    type Cache = Vec<M::Cache>;

    type Grad = Vec<M::Grad>;

    /// Feeds `x` through the layers from the first to the last.
    fn ff(&self, x: M::In) -> (r: (M::In, Vec<M::Cache>))
        ensures
            exists|xs: Seq<M::In>|
                {
                    &&& #[trigger] self.feeds(xs, r.1@)
                    &&& xs[0] == x
                    &&& xs[L as int] == r.0
                },
    {
        let mut caches: Vec<M::Cache> = Vec::new();
        let ghost x0 = x;
        let mut x = x;
        let ghost mut xs: Seq<M::In> = seq![x];
        let mut l: usize = 0;
        while l < L
            invariant
                l <= L,
                xs.len() == l + 1,
                xs[0] == x0,
                caches.len() == l,
                xs[l as int] == x,
                forall|k: int|
                    0 <= k < l ==> #[trigger] call_ensures(
                        M::ff,
                        (&self.layers[k], xs[k]),
                        (xs[k + 1], caches[k]),
                    ),
            decreases L - l,
        {
            let ghost before = x;
            let ghost old_xs = xs;
            let ghost old_caches = caches@;
            let (y, c) = self.layers[l].ff(x);
            x = y;
            caches.push(c);
            proof {
                xs = old_xs.push(x);
                assert(call_ensures(
                    M::ff,
                    (&self.layers[l as int], xs[l as int]),
                    (xs[l + 1], caches[l as int]),
                ));
                assert forall|k: int| 0 <= k < l + 1 implies #[trigger] call_ensures(
                    M::ff,
                    (&self.layers[k], xs[k]),
                    (xs[k + 1], caches[k]),
                ) by {
                    if k < l {
                        assert(xs[k] == old_xs[k]);
                        assert(xs[k + 1] == old_xs[k + 1]);
                        assert(caches[k] == old_caches[k]);
                    }
                }
            }
            l += 1;
        }
        let r = (x, caches);
        proof {
            assert(self.feeds(xs, r.1@));
        }
        r
    }

    /// Propagates `g` back through the layers from the last to the first,
    /// layer `l` under entry `l` of `cache`; entries beyond the layers are
    /// not looked at. Where `cache` holds fewer entries than there are
    /// layers, nothing is propagated: `g` comes back as it is, with no
    /// gradients.
    fn bp(&self, cache: &Vec<M::Cache>, g: M::In) -> (r: (M::In, Vec<M::Grad>))
        ensures
            cache.len() >= L ==> exists|gs: Seq<M::In>|
                {
                    &&& #[trigger] self.propagates(cache@.take(L as int), gs, r.1@)
                    &&& gs[L as int] == g
                    &&& gs[0] == r.0
                },
            cache.len() < L ==> r.0 == g && r.1.len() == 0,
    {
        let mut grads: Vec<M::Grad> = Vec::new();
        let ghost g0 = g;
        let mut g = g;
        let ghost mut gs: Seq<M::In> = Seq::new((L + 1) as nat, |k: int| g0);
        let mut l: usize = L;
        while l > 0 && L <= cache.len()
            invariant
                l <= L,
                gs.len() == L + 1,
                grads.len() == if L <= cache.len() {
                    L - l
                } else {
                    0
                },
                gs[l as int] == g,
                gs[L as int] == g0,
                L > cache.len() ==> g == g0,
                forall|k: int|
                    l <= k < L && cache.len() >= L ==> #[trigger] call_ensures(
                        M::bp,
                        (&self.layers[k], &cache[k], gs[k + 1]),
                        (gs[k], grads[L - 1 - k]),
                    ),
            decreases l,
        {
            l -= 1;
            let ghost old_gs = gs;
            let ghost old_grads = grads@;
            let ghost g_in = g;
            let (gx, gr) = self.layers[l].bp(&cache[l], g);
            g = gx;
            grads.push(gr);
            proof {
                gs = old_gs.update(l as int, g);
                assert forall|k: int| l <= k < L && cache.len() >= L implies #[trigger] call_ensures(
                    M::bp,
                    (&self.layers[k], &cache[k], gs[k + 1]),
                    (gs[k], grads[L - 1 - k]),
                ) by {
                    if k > l {
                        assert(gs[k + 1] == old_gs[k + 1]);
                        assert(gs[k] == old_gs[k]);
                        assert(grads[L - 1 - k] == old_grads[L - 1 - k]);
                    } else {
                        assert(gs[k + 1] == g_in);
                        assert(grads[L - 1 - k] == gr);
                    }
                }
            }
        }
        let r = (g, grads);
        proof {
            if cache.len() >= L {
                let caches = cache@.take(L as int);
                assert forall|k: int| 0 <= k < L implies #[trigger] call_ensures(
                    M::bp,
                    (&self.layers[k], &caches[k], gs[k + 1]),
                    (gs[k], r.1@[L - 1 - k]),
                ) by {
                    assert(caches[k] == cache[k]);
                    assert(call_ensures(
                        M::bp,
                        (&self.layers[k], &cache[k], gs[k + 1]),
                        (gs[k], grads[L - 1 - k]),
                    ));
                }
                assert(self.propagates(caches, gs, r.1@));
            }
        }
        r
    }

    /// Updates the layers from the first on, each with the gradient that
    /// the backward pass found for it: the last of `grad` is the first
    /// layer's. Layers for which `grad` holds nothing stay as they are.
    ///
    /// `updated[l]` is the borrow of layer `l` under which it was updated:
    /// it starts at the layer as it was and ends at the layer as it is left.
    fn update(&mut self, grad: Vec<M::Grad>)
        ensures
            exists|updated: Seq<&mut M>|
                {
                    &&& #[trigger] updated.len() == if grad.len() < L {
                        grad.len() as int
                    } else {
                        L as int
                    }
                    &&& forall|l: int|
                        0 <= l < updated.len() ==> {
                            &&& call_ensures(
                                M::update,
                                (#[trigger] updated[l], grad[grad.len() - 1 - l]),
                                (),
                            )
                            &&& *updated[l] == old(self).layers[l]
                            &&& *final(updated[l]) == final(self).layers[l]
                        }
                },
            forall|l: int|
                grad.len() <= l < L ==> #[trigger] final(self).layers[l] == old(self).layers[l],
    {
        let ghost grad0 = grad@;
        // The borrows of the layers updated so far. Which borrows they are
        // depends on what the layers come to, and so does their first, empty
        // sequence.
        let ghost mut updated: Seq<&mut M> = Seq::new(
            0,
            |k: int| choose|layer: &mut M| *final(layer) == final(self).layers[k],
        );
        let mut grad = grad;
        let mut l: usize = 0;
        while l < L
            invariant
                l <= L,
                grad@ == if l <= grad0.len() {
                    grad0.take(grad0.len() - l)
                } else {
                    Seq::empty()
                },
                updated.len() == if grad0.len() < l {
                    grad0.len() as int
                } else {
                    l as int
                },
                forall|k: int|
                    0 <= k < updated.len() ==> {
                        &&& call_ensures(
                            M::update,
                            (#[trigger] updated[k], grad0[grad0.len() - 1 - k]),
                            (),
                        )
                        &&& *updated[k] == old(self).layers[k]
                        &&& *final(updated[k]) == self.layers[k]
                    },
                forall|k: int|
                    l <= k < L || grad0.len() <= k < L ==> #[trigger] self.layers[k] == old(
                        self,
                    ).layers[k],
            decreases L - l,
        {
            let ghost before = self.layers;
            let ghost seen = updated;
            match grad.pop() {
                Some(g) => {
                    self.layers[l].update(g);
                    proof {
                        assert(g == grad0[grad0.len() - 1 - l]);
                        let borrow = choose|layer: &mut M|
                            #![trigger call_ensures(M::update, (layer, g), ())]
                            {
                                &&& call_ensures(M::update, (layer, g), ())
                                &&& *layer == before[l as int]
                                &&& *final(layer) == self.layers[l as int]
                            };
                        updated = seen.push(borrow);
                        assert forall|k: int| 0 <= k < updated.len() implies {
                            &&& call_ensures(
                                M::update,
                                (#[trigger] updated[k], grad0[grad0.len() - 1 - k]),
                                (),
                            )
                            &&& *updated[k] == old(self).layers[k]
                            &&& *final(updated[k]) == self.layers[k]
                        } by {
                            if k < l {
                                assert(updated[k] == seen[k]);
                                assert(self.layers[k] == before[k]);
                            }
                        }
                    }
                },
                None => {},
            }
            l += 1;
        }
    }
}

/// One learning step of a layer: the gradient `g` on the output of the
/// forward pass that left `cache` is propagated back under the parameters
/// as they are, then the parameters are updated once with their gradient.
/// Returns the gradient on the input.
pub fn learn<L: Layer>(layer: &mut L, cache: &L::Cache, g: L::Out) -> (gx: L::In)
    ensures
        exists|grad: L::Grad, updated: &mut L|
            {
                &&& #[trigger] call_ensures(L::bp, (&*old(layer), cache, g), (gx, grad))
                &&& #[trigger] call_ensures(L::update, (updated, grad), ())
                &&& *updated == *old(layer)
                &&& *final(updated) == *final(layer)
            },
{
    let (gx, grad) = layer.bp(cache, g);
    let ghost grad0 = grad;
    proof {
        assert(call_ensures(L::bp, (&*old(layer), cache, g), (gx, grad0)));
    }
    layer.update(grad);
    gx
}

} // verus!
