//! Turning labelled rows into the examples and one-hot targets a classifier
//! trains on.
use vstd::prelude::*;

verus! {

/// Whether `target` is `one` at `label` and `zero` elsewhere.
pub open spec fn one_hot<const N: usize, T>(label: int, zero: T, one: T, target: [T; N]) -> bool {
    forall|i: int|
        0 <= i < N ==> #[trigger] target[i] == if i == label {
            one
        } else {
            zero
        }
}

/// The examples as they are, and for each label its one-hot target.
pub fn preprocess<const L1: usize, const L4: usize, T: Copy>(
    x: &[[T; L1]],
    y: &[usize],
    zero: T,
    one: T,
) -> (out: (Vec<[T; L1]>, Vec<[T; L4]>))
    requires
        forall|i: int| 0 <= i < y.len() ==> #[trigger] y[i] < L4,
    ensures
        out.0@ == x@,
        out.1.len() == y.len(),
        forall|i: int|
            0 <= i < y.len() ==> one_hot(y[i] as int, zero, one, #[trigger] out.1[i]),
{
    let mut xs: Vec<[T; L1]> = Vec::new();
    let mut i: usize = 0;
    while i < x.len()
        invariant
            i <= x.len(),
            xs@ == x@.take(i as int),
        decreases x.len() - i,
    {
        xs.push(x[i]);
        proof {
            assert(x@.take(i + 1) =~= x@.take(i as int).push(x[i as int]));
        }
        i += 1;
    }
    proof {
        assert(x@.take(x.len() as int) =~= x@);
    }
    let mut ys: Vec<[T; L4]> = Vec::new();
    let mut i: usize = 0;
    while i < y.len()
        invariant
            i <= y.len(),
            ys.len() == i,
            forall|k: int| 0 <= k < y.len() ==> #[trigger] y[k] < L4,
            forall|k: int| 0 <= k < i ==> one_hot(y[k] as int, zero, one, #[trigger] ys[k]),
        decreases y.len() - i,
    {
        let mut target = [zero; L4];
        target[y[i]] = one;
        ys.push(target);
        i += 1;
    }
    (xs, ys)
}

} // verus!
