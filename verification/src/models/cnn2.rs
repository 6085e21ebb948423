//! The boundary between one feature map and the vector that the dense
//! layers read.
use vstd::prelude::*;
use crate::models::cnn::{flat_index, lemma_flat_index_in_range};

verus! {

/// Whether `flat` holds the cells of `map` row by row.
pub open spec fn flattens_map<const R: usize, const C: usize, const N: usize, T>(
    map: [[T; C]; R],
    flat: [T; N],
) -> bool {
    forall|i: int, j: int|
        0 <= i < R && 0 <= j < C ==> flat[flat_index(R as int, C as int, 0, i, j)]
            == #[trigger] map[i][j]
}

/// Lays the cells of `v` out in one vector, row by row.
pub fn flatten<const R: usize, const C: usize, const N: usize, T: Copy>(
    v: &[[T; C]; R],
    zero: T,
) -> (out: [T; N])
    requires
        R * C == N,
    ensures
        flattens_map(*v, out),
{
    let mut out = [zero; N];
    let mut i: usize = 0;
    while i < R
        invariant
            i <= R,
            R * C == N,
            forall|i0: int, j0: int|
                0 <= i0 < i && 0 <= j0 < C ==> out[flat_index(R as int, C as int, 0, i0, j0)]
                    == #[trigger] v[i0][j0],
        decreases R - i,
    {
        let mut j: usize = 0;
        while j < C
            invariant
                i < R,
                j <= C,
                R * C == N,
                forall|i0: int, j0: int|
                    (0 <= i0 < i && 0 <= j0 < C) || (i0 == i && 0 <= j0 < j) ==> out[flat_index(
                        R as int,
                        C as int,
                        0,
                        i0,
                        j0,
                    )] == #[trigger] v[i0][j0],
            decreases C - j,
        {
            proof {
                lemma_flat_index_in_range(1, R as int, C as int, 0, i as int, j as int);
            }
            let at = i * C + j;
            let ghost before = out;
            out[at] = v[i][j];
            proof {
                assert forall|i0: int, j0: int|
                    (0 <= i0 < i && 0 <= j0 < C) || (i0 == i && 0 <= j0 < j + 1) implies out[flat_index(
                    R as int,
                    C as int,
                    0,
                    i0,
                    j0,
                )] == #[trigger] v[i0][j0] by {
                    if !(i0 == i && j0 == j) {
                        lemma_flat_index_in_range(1, R as int, C as int, 0, i0, j0);
                        if i0 < i {
                            assert(i0 * C + C <= i * C) by (nonlinear_arith)
                                requires
                                    0 <= i0 < i,
                                    0 <= C,
                            ;
                        }
                        assert(flat_index(R as int, C as int, 0, i0, j0) != at);
                        assert(out[flat_index(R as int, C as int, 0, i0, j0)] == before[flat_index(
                            R as int,
                            C as int,
                            0,
                            i0,
                            j0,
                        )]);
                    }
                }
            }
            j += 1;
        }
        i += 1;
    }
    out
}

/// Cuts a flat vector back into a map: the inverse of `flatten`.
pub fn unflatten<const R: usize, const C: usize, const N: usize, T: Copy>(
    v: &[T; N],
    zero: T,
) -> (out: [[T; C]; R])
    requires
        R * C == N,
    ensures
        flattens_map(out, *v),
{
    let mut out = [[zero; C]; R];
    let mut i: usize = 0;
    while i < R
        invariant
            i <= R,
            R * C == N,
            forall|i0: int, j0: int|
                0 <= i0 < i && 0 <= j0 < C ==> v[flat_index(R as int, C as int, 0, i0, j0)]
                    == #[trigger] out[i0][j0],
        decreases R - i,
    {
        let mut j: usize = 0;
        while j < C
            invariant
                i < R,
                j <= C,
                R * C == N,
                forall|i0: int, j0: int|
                    (0 <= i0 < i && 0 <= j0 < C) || (i0 == i && 0 <= j0 < j) ==> v[flat_index(
                        R as int,
                        C as int,
                        0,
                        i0,
                        j0,
                    )] == #[trigger] out[i0][j0],
            decreases C - j,
        {
            proof {
                lemma_flat_index_in_range(1, R as int, C as int, 0, i as int, j as int);
            }
            let at = i * C + j;
            out[i][j] = v[at];
            j += 1;
        }
        i += 1;
    }
    out
}

} // verus!
