//! The boundary between a stack of feature maps and the vector that the
//! dense layers read.
use vstd::prelude::*;

verus! {

/// The place of cell `(i, j)` of map `k` in the flat vector, for maps of
/// `r` by `c` cells laid out one after another, each row by row.
pub open spec fn flat_index(r: int, c: int, k: int, i: int, j: int) -> int {
    k * (r * c) + i * c + j
}

/// Whether `flat` holds the cells of `maps`, each at its flat index.
pub open spec fn flattens<const K: usize, const R: usize, const C: usize, const N: usize, T>(
    maps: [[[T; C]; R]; K],
    flat: [T; N],
) -> bool {
    forall|k: int, i: int, j: int|
        0 <= k < K && 0 <= i < R && 0 <= j < C ==> flat[flat_index(R as int, C as int, k, i, j)]
            == #[trigger] maps[k][i][j]
}

/// A flat index lies within `k * r * c` cells.
pub proof fn lemma_flat_index_in_range(kk: int, r: int, c: int, k: int, i: int, j: int)
    requires
        0 <= k < kk,
        0 <= i < r,
        0 <= j < c,
    ensures
        0 <= k * (r * c),
        0 <= i * c,
        k * (r * c) + r * c <= kk * (r * c),
        i * c + c <= r * c,
        0 <= flat_index(r, c, k, i, j) < kk * (r * c),
{
    assert(0 <= i * c && i * c + c <= r * c) by (nonlinear_arith)
        requires
            0 <= i < r,
            0 <= c,
    ;
    assert(0 <= r * c) by (nonlinear_arith)
        requires
            0 <= r,
            0 <= c,
    ;
    assert(0 <= k * (r * c) && k * (r * c) + r * c <= kk * (r * c)) by (nonlinear_arith)
        requires
            0 <= k < kk,
            0 <= r * c,
    ;
}

/// Two cells with the same flat index are the same cell.
pub proof fn lemma_flat_index_unique(
    r: int,
    c: int,
    k1: int,
    i1: int,
    j1: int,
    k2: int,
    i2: int,
    j2: int,
)
    requires
        0 <= k1,
        0 <= k2,
        0 <= i1 < r,
        0 <= i2 < r,
        0 <= j1 < c,
        0 <= j2 < c,
        flat_index(r, c, k1, i1, j1) == flat_index(r, c, k2, i2, j2),
    ensures
        k1 == k2,
        i1 == i2,
        j1 == j2,
{
    lemma_flat_index_in_range(k1 + 1, r, c, k1, i1, j1);
    lemma_flat_index_in_range(k2 + 1, r, c, k2, i2, j2);
    if k1 < k2 {
        assert(k1 * (r * c) + r * c <= k2 * (r * c)) by (nonlinear_arith)
            requires
                0 <= k1 < k2,
                0 <= r * c,
        ;
    } else if k2 < k1 {
        assert(k2 * (r * c) + r * c <= k1 * (r * c)) by (nonlinear_arith)
            requires
                0 <= k2 < k1,
                0 <= r * c,
        ;
    }
    assert(k1 == k2);
    if i1 < i2 {
        assert(i1 * c + c <= i2 * c) by (nonlinear_arith)
            requires
                0 <= i1 < i2,
                0 <= c,
        ;
    } else if i2 < i1 {
        assert(i2 * c + c <= i1 * c) by (nonlinear_arith)
            requires
                0 <= i2 < i1,
                0 <= c,
        ;
    }
}

/// Every place below `kk * r * c` is the flat index of a cell.
pub proof fn lemma_flat_index_covers(kk: int, r: int, c: int, n: int) -> (cell: (int, int, int))
    requires
        0 <= n < kk * (r * c),
        0 < r,
        0 < c,
    ensures
        0 <= cell.0 < kk,
        0 <= cell.1 < r,
        0 <= cell.2 < c,
        flat_index(r, c, cell.0, cell.1, cell.2) == n,
{
    let rc = r * c;
    assert(0 < rc) by (nonlinear_arith)
        requires
            0 < r,
            0 < c,
            rc == r * c,
    ;
    let k = n / rc;
    let rest = n % rc;
    let i = rest / c;
    let j = rest % c;
    vstd::arithmetic::div_mod::lemma_fundamental_div_mod(n, rc);
    vstd::arithmetic::div_mod::lemma_fundamental_div_mod(rest, c);
    vstd::arithmetic::div_mod::lemma_mod_bound(n, rc);
    vstd::arithmetic::div_mod::lemma_mod_bound(rest, c);
    assert(0 <= k < kk) by (nonlinear_arith)
        requires
            0 <= n < kk * rc,
            0 < rc,
            n == rc * k + rest,
            0 <= rest < rc,
    ;
    assert(0 <= i < r) by (nonlinear_arith)
        requires
            0 <= rest < r * c,
            0 < c,
            rest == c * i + j,
            0 <= j < c,
    ;
    assert(k * rc == rc * k && i * c == c * i) by (nonlinear_arith);
    (k, i, j)
}

/// Lays the cells of `v` out in one vector: map after map, each row by row.
pub fn flatten<const K: usize, const R: usize, const C: usize, const N: usize, T: Copy>(
    v: &[[[T; C]; R]; K],
    zero: T,
) -> (out: [T; N])
    requires
        K * R * C == N,
    ensures
        flattens(*v, out),
{
    let mut out = [zero; N];
    let mut k: usize = 0;
    while k < K
        invariant
            k <= K,
            K * R * C == N,
            forall|k0: int, i0: int, j0: int|
                0 <= k0 < k && 0 <= i0 < R && 0 <= j0 < C ==> out[flat_index(
                    R as int,
                    C as int,
                    k0,
                    i0,
                    j0,
                )] == #[trigger] v[k0][i0][j0],
        decreases K - k,
    {
        let mut i: usize = 0;
        while i < R
            invariant
                k < K,
                i <= R,
                K * R * C == N,
                forall|k0: int, i0: int, j0: int|
                    (0 <= k0 < k && 0 <= i0 < R && 0 <= j0 < C) || (k0 == k && 0 <= i0 < i && 0
                        <= j0 < C) ==> out[flat_index(R as int, C as int, k0, i0, j0)]
                        == #[trigger] v[k0][i0][j0],
            decreases R - i,
        {
            let mut j: usize = 0;
            while j < C
                invariant
                    k < K,
                    i < R,
                    j <= C,
                    K * R * C == N,
                    forall|k0: int, i0: int, j0: int|
                        (0 <= k0 < k && 0 <= i0 < R && 0 <= j0 < C) || (k0 == k && 0 <= i0 < i
                            && 0 <= j0 < C) || (k0 == k && i0 == i && 0 <= j0 < j) ==> out[flat_index(
                            R as int,
                            C as int,
                            k0,
                            i0,
                            j0,
                        )] == #[trigger] v[k0][i0][j0],
                decreases C - j,
            {
                proof {
                    lemma_flat_index_in_range(K as int, R as int, C as int, k as int, i as int, j as int);
                    assert(K * R * C == K * (R * C)) by (nonlinear_arith);
                }
                let at = k * (R * C) + i * C + j;
                let ghost before = out;
                out[at] = v[k][i][j];
                proof {
                    assert forall|k0: int, i0: int, j0: int|
                        (0 <= k0 < k && 0 <= i0 < R && 0 <= j0 < C) || (k0 == k && 0 <= i0 < i
                            && 0 <= j0 < C) || (k0 == k && i0 == i && 0 <= j0 < j + 1) implies out[flat_index(
                        R as int,
                        C as int,
                        k0,
                        i0,
                        j0,
                    )] == #[trigger] v[k0][i0][j0] by {
                        if !(k0 == k && i0 == i && j0 == j) {
                            if flat_index(R as int, C as int, k0, i0, j0) == at {
                                lemma_flat_index_unique(
                                    R as int,
                                    C as int,
                                    k0,
                                    i0,
                                    j0,
                                    k as int,
                                    i as int,
                                    j as int,
                                );
                            }
                            lemma_flat_index_in_range(K as int, R as int, C as int, k0, i0, j0);
                            assert(out[flat_index(R as int, C as int, k0, i0, j0)] == before[flat_index(
                                R as int,
                                C as int,
                                k0,
                                i0,
                                j0,
                            )]);
                        }
                    }
                }
                j += 1;
            }
            i += 1;
        }
        k += 1;
    }
    out
}

/// Cuts a flat vector back into maps: the inverse of `flatten`.
pub fn unflatten<const K: usize, const R: usize, const C: usize, const N: usize, T: Copy>(
    v: &[T; N],
    zero: T,
) -> (out: [[[T; C]; R]; K])
    requires
        K * R * C == N,
    ensures
        flattens(out, *v),
{
    let mut out = [[[zero; C]; R]; K];
    let mut k: usize = 0;
    while k < K
        invariant
            k <= K,
            K * R * C == N,
            forall|k0: int, i0: int, j0: int|
                0 <= k0 < k && 0 <= i0 < R && 0 <= j0 < C ==> v[flat_index(
                    R as int,
                    C as int,
                    k0,
                    i0,
                    j0,
                )] == #[trigger] out[k0][i0][j0],
        decreases K - k,
    {
        let mut i: usize = 0;
        while i < R
            invariant
                k < K,
                i <= R,
                K * R * C == N,
                forall|k0: int, i0: int, j0: int|
                    (0 <= k0 < k && 0 <= i0 < R && 0 <= j0 < C) || (k0 == k && 0 <= i0 < i && 0
                        <= j0 < C) ==> v[flat_index(R as int, C as int, k0, i0, j0)]
                        == #[trigger] out[k0][i0][j0],
            decreases R - i,
        {
            let mut j: usize = 0;
            while j < C
                invariant
                    k < K,
                    i < R,
                    j <= C,
                    K * R * C == N,
                    forall|k0: int, i0: int, j0: int|
                        (0 <= k0 < k && 0 <= i0 < R && 0 <= j0 < C) || (k0 == k && 0 <= i0 < i
                            && 0 <= j0 < C) || (k0 == k && i0 == i && 0 <= j0 < j) ==> v[flat_index(
                            R as int,
                            C as int,
                            k0,
                            i0,
                            j0,
                        )] == #[trigger] out[k0][i0][j0],
                decreases C - j,
            {
                proof {
                    lemma_flat_index_in_range(K as int, R as int, C as int, k as int, i as int, j as int);
                    assert(K * R * C == K * (R * C)) by (nonlinear_arith);
                }
                let at = k * (R * C) + i * C + j;
                out[k][i][j] = v[at];
                j += 1;
            }
            i += 1;
        }
        k += 1;
    }
    out
}

/// Cutting up what was laid out gives the maps back.
pub proof fn lemma_unflatten_of_flatten<
    const K: usize,
    const R: usize,
    const C: usize,
    const N: usize,
    T,
>(maps: [[[T; C]; R]; K], flat: [T; N], back: [[[T; C]; R]; K])
    requires
        flattens(maps, flat),
        flattens(back, flat),
    ensures
        back == maps,
{
    assert forall|k: int| 0 <= k < K implies back[k] == maps[k] by {
        assert forall|i: int| 0 <= i < R implies back[k][i] == maps[k][i] by {
            assert forall|j: int| 0 <= j < C implies back[k][i][j] == maps[k][i][j] by {
                assert(flat[flat_index(R as int, C as int, k, i, j)] == maps[k][i][j]);
                assert(flat[flat_index(R as int, C as int, k, i, j)] == back[k][i][j]);
            }
            assert(back[k][i] =~= maps[k][i]);
        }
        assert(back[k] =~= maps[k]);
    }
    assert(back =~= maps);
}

/// Laying out what was cut up gives the vector back.
pub proof fn lemma_flatten_of_unflatten<
    const K: usize,
    const R: usize,
    const C: usize,
    const N: usize,
    T,
>(flat: [T; N], maps: [[[T; C]; R]; K], again: [T; N])
    requires
        K * R * C == N,
        flattens(maps, flat),
        flattens(maps, again),
    ensures
        again == flat,
{
    assert(K * R * C == K * (R * C)) by (nonlinear_arith);
    assert forall|n: int| 0 <= n < N implies again[n] == flat[n] by {
        if R > 0 && C > 0 {
            let cell = lemma_flat_index_covers(K as int, R as int, C as int, n);
            assert(flat[flat_index(R as int, C as int, cell.0, cell.1, cell.2)]
                == maps[cell.0][cell.1][cell.2]);
            assert(again[flat_index(R as int, C as int, cell.0, cell.1, cell.2)]
                == maps[cell.0][cell.1][cell.2]);
        } else {
            assert(K * (R * C) == 0) by (nonlinear_arith)
                requires
                    R == 0 || C == 0,
            ;
        }
    }
    assert(again =~= flat);
}

} // verus!
