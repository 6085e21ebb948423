//! Two-dimensional cross-correlation without padding, and the scatter that
//! carries a gradient back through it.
use vstd::prelude::*;
use crate::layers::single_valued3;
use crate::optimizers::Optimizer;

verus! {

/// Whether accumulating the first `n` cells of kernel row `i2` onto `init`
/// can give `acc`, for the window whose corner is at `(i1, j1)`.
pub open spec fn row_folds<
    const R1: usize,
    const C1: usize,
    const R2: usize,
    const C2: usize,
    T,
    F: Fn(T, T, T) -> T,
>(
    mul_add: F,
    a: [[T; C1]; R1],
    b: [[T; C2]; R2],
    i1: int,
    j1: int,
    i2: int,
    n: int,
    init: T,
    acc: T,
) -> bool
    decreases n,
{
    if n <= 0 {
        acc == init
    } else {
        exists|prev: T|
            {
                &&& row_folds(mul_add, a, b, i1, j1, i2, n - 1, init, prev)
                &&& #[trigger] call_ensures(
                    mul_add,
                    (prev, a[i1 + i2][j1 + n - 1], b[i2][n - 1]),
                    acc,
                )
            }
    }
}

/// Whether accumulating the first `m` kernel rows onto `init`, row by row
/// and within a row from left to right, can give `acc`.
pub open spec fn window_folds<
    const R1: usize,
    const C1: usize,
    const R2: usize,
    const C2: usize,
    T,
    F: Fn(T, T, T) -> T,
>(
    mul_add: F,
    a: [[T; C1]; R1],
    b: [[T; C2]; R2],
    i1: int,
    j1: int,
    m: int,
    init: T,
    acc: T,
) -> bool
    decreases m,
{
    if m <= 0 {
        acc == init
    } else {
        exists|prev: T|
            {
                &&& window_folds(mul_add, a, b, i1, j1, m - 1, init, prev)
                &&& #[trigger] row_folds(mul_add, a, b, i1, j1, m - 1, C2 as int, prev, acc)
            }
    }
}

/// Where `mul_add` gives one result only, accumulating part of a kernel
/// row gives one result only.
pub proof fn lemma_row_folds_once<
    const R1: usize,
    const C1: usize,
    const R2: usize,
    const C2: usize,
    T,
    F: Fn(T, T, T) -> T,
>(
    mul_add: F,
    a: [[T; C1]; R1],
    b: [[T; C2]; R2],
    i1: int,
    j1: int,
    i2: int,
    n: int,
    init: T,
    acc1: T,
    acc2: T,
)
    requires
        single_valued3(mul_add),
        row_folds(mul_add, a, b, i1, j1, i2, n, init, acc1),
        row_folds(mul_add, a, b, i1, j1, i2, n, init, acc2),
    ensures
        acc1 == acc2,
    decreases n,
{
    if n > 0 {
        let prev1 = choose|prev: T|
            {
                &&& row_folds(mul_add, a, b, i1, j1, i2, n - 1, init, prev)
                &&& #[trigger] call_ensures(
                    mul_add,
                    (prev, a[i1 + i2][j1 + n - 1], b[i2][n - 1]),
                    acc1,
                )
            };
        let prev2 = choose|prev: T|
            {
                &&& row_folds(mul_add, a, b, i1, j1, i2, n - 1, init, prev)
                &&& #[trigger] call_ensures(
                    mul_add,
                    (prev, a[i1 + i2][j1 + n - 1], b[i2][n - 1]),
                    acc2,
                )
            };
        lemma_row_folds_once(mul_add, a, b, i1, j1, i2, n - 1, init, prev1, prev2);
    }
}

/// Where `mul_add` gives one result only, a window determines its output
/// cell.
pub proof fn lemma_window_folds_once<
    const R1: usize,
    const C1: usize,
    const R2: usize,
    const C2: usize,
    T,
    F: Fn(T, T, T) -> T,
>(
    mul_add: F,
    a: [[T; C1]; R1],
    b: [[T; C2]; R2],
    i1: int,
    j1: int,
    m: int,
    init: T,
    acc1: T,
    acc2: T,
)
    requires
        single_valued3(mul_add),
        window_folds(mul_add, a, b, i1, j1, m, init, acc1),
        window_folds(mul_add, a, b, i1, j1, m, init, acc2),
    ensures
        acc1 == acc2,
    decreases m,
{
    if m > 0 {
        let prev1 = choose|prev: T|
            {
                &&& window_folds(mul_add, a, b, i1, j1, m - 1, init, prev)
                &&& #[trigger] row_folds(mul_add, a, b, i1, j1, m - 1, C2 as int, prev, acc1)
            };
        let prev2 = choose|prev: T|
            {
                &&& window_folds(mul_add, a, b, i1, j1, m - 1, init, prev)
                &&& #[trigger] row_folds(mul_add, a, b, i1, j1, m - 1, C2 as int, prev, acc2)
            };
        lemma_window_folds_once(mul_add, a, b, i1, j1, m - 1, init, prev1, prev2);
        lemma_row_folds_once(mul_add, a, b, i1, j1, m - 1, C2 as int, prev1, acc1, acc2);
    }
}

/// Valid cross-correlation of `a` with the kernel `b`: output cell
/// `(i1, j1)` accumulates, from `zero`, the kernel cells laid over the input
/// with their corner at `(i1, j1)`.
///
/// `mul_add(acc, x, w)` stands for `acc + x * w`.
pub fn conv<
    const R1: usize,
    const C1: usize,
    const R2: usize,
    const C2: usize,
    const R3: usize,
    const C3: usize,
    T: Copy,
    F: Fn(T, T, T) -> T,
>(a: &[[T; C1]; R1], b: &[[T; C2]; R2], zero: T, mul_add: F) -> (c: [[T; C3]; R3])
    requires
        R3 == 0 || C3 == 0 || R2 == 0 || C2 == 0 || (R3 + R2 <= R1 + 1 && C3 + C2 <= C1 + 1),
        forall|p: T, x: T, w: T| call_requires(mul_add, (p, x, w)),
    ensures
        forall|i1: int, j1: int|
            0 <= i1 < R3 && 0 <= j1 < C3 ==> window_folds(
                mul_add,
                *a,
                *b,
                i1,
                j1,
                R2 as int,
                zero,
                #[trigger] c[i1][j1],
            ),
{
    let mut c = [[zero; C3]; R3];
    let mut i1: usize = 0;
    while i1 < R3
        invariant
            i1 <= R3,
            R3 == 0 || C3 == 0 || R2 == 0 || C2 == 0 || (R3 + R2 <= R1 + 1 && C3 + C2 <= C1 + 1),
            forall|p: T, x: T, w: T| call_requires(mul_add, (p, x, w)),
            forall|i: int, j: int|
                0 <= i < i1 && 0 <= j < C3 ==> window_folds(
                    mul_add,
                    *a,
                    *b,
                    i,
                    j,
                    R2 as int,
                    zero,
                    #[trigger] c[i][j],
                ),
        decreases R3 - i1,
    {
        let mut j1: usize = 0;
        while j1 < C3
            invariant
                i1 < R3,
                j1 <= C3,
                R3 == 0 || C3 == 0 || R2 == 0 || C2 == 0 || (R3 + R2 <= R1 + 1 && C3 + C2 <= C1
                    + 1),
                forall|p: T, x: T, w: T| call_requires(mul_add, (p, x, w)),
                forall|i: int, j: int|
                    0 <= i < i1 && 0 <= j < C3 ==> window_folds(
                        mul_add,
                        *a,
                        *b,
                        i,
                        j,
                        R2 as int,
                        zero,
                        #[trigger] c[i][j],
                    ),
                forall|j: int|
                    0 <= j < j1 ==> window_folds(
                        mul_add,
                        *a,
                        *b,
                        i1 as int,
                        j,
                        R2 as int,
                        zero,
                        #[trigger] c[i1 as int][j],
                    ),
            decreases C3 - j1,
        {
            let mut acc = zero;
            let mut i2: usize = 0;
            while i2 < R2
                invariant
                    i1 < R3,
                    j1 < C3,
                    i2 <= R2,
                    R2 == 0 || C2 == 0 || (R3 + R2 <= R1 + 1 && C3 + C2 <= C1 + 1),
                    forall|p: T, x: T, w: T| call_requires(mul_add, (p, x, w)),
                    window_folds(mul_add, *a, *b, i1 as int, j1 as int, i2 as int, zero, acc),
                decreases R2 - i2,
            {
                let ghost row_start = acc;
                let mut j2: usize = 0;
                while j2 < C2
                    invariant
                        i1 < R3,
                        j1 < C3,
                        i2 < R2,
                        j2 <= C2,
                        C2 == 0 || (R3 + R2 <= R1 + 1 && C3 + C2 <= C1 + 1),
                        forall|p: T, x: T, w: T| call_requires(mul_add, (p, x, w)),
                        row_folds(
                            mul_add,
                            *a,
                            *b,
                            i1 as int,
                            j1 as int,
                            i2 as int,
                            j2 as int,
                            row_start,
                            acc,
                        ),
                    decreases C2 - j2,
                {
                    let ghost prev = acc;
                    acc = mul_add(acc, a[i1 + i2][j1 + j2], b[i2][j2]);
                    proof {
                        assert(call_ensures(
                            mul_add,
                            (prev, a[i1 + i2][j1 + (j2 + 1) - 1], b[i2 as int][j2 + 1 - 1]),
                            acc,
                        ));
                    }
                    j2 += 1;
                }
                proof {
                    assert(row_folds(
                        mul_add,
                        *a,
                        *b,
                        i1 as int,
                        j1 as int,
                        i2 + 1 - 1,
                        C2 as int,
                        row_start,
                        acc,
                    ));
                }
                i2 += 1;
            }
            c[i1][j1] = acc;
            j1 += 1;
        }
        i1 += 1;
    }
    c
}

/// One step of the scatter as seen from output cell `(r, q)`: input cell
/// `(i1, j1)` adds its product with kernel cell `(r - i1, q - j1)` where the
/// kernel has such a cell, and leaves the output cell alone where not.
pub open spec fn spread_step<
    const R1: usize,
    const C1: usize,
    const R2: usize,
    const C2: usize,
    T,
    F: Fn(T, T, T) -> T,
>(
    mul_add: F,
    a: [[T; C1]; R1],
    b: [[T; C2]; R2],
    r: int,
    q: int,
    i1: int,
    j1: int,
    prev: T,
    acc: T,
) -> bool {
    if 0 <= r - i1 < R2 && 0 <= q - j1 < C2 {
        call_ensures(mul_add, (prev, a[i1][j1], b[r - i1][q - j1]), acc)
    } else {
        acc == prev
    }
}

/// Whether the first `n` cells of input row `i1` can take output cell
/// `(r, q)` from `init` to `acc`.
pub open spec fn spread_row_folds<
    const R1: usize,
    const C1: usize,
    const R2: usize,
    const C2: usize,
    T,
    F: Fn(T, T, T) -> T,
>(
    mul_add: F,
    a: [[T; C1]; R1],
    b: [[T; C2]; R2],
    r: int,
    q: int,
    i1: int,
    n: int,
    init: T,
    acc: T,
) -> bool
    decreases n,
{
    if n <= 0 {
        acc == init
    } else {
        exists|prev: T|
            {
                &&& spread_row_folds(mul_add, a, b, r, q, i1, n - 1, init, prev)
                &&& #[trigger] spread_step(mul_add, a, b, r, q, i1, n - 1, prev, acc)
            }
    }
}

/// Whether the first `m` input rows, each taken from left to right, can
/// take output cell `(r, q)` from `init` to `acc`.
pub open spec fn spread_folds<
    const R1: usize,
    const C1: usize,
    const R2: usize,
    const C2: usize,
    T,
    F: Fn(T, T, T) -> T,
>(
    mul_add: F,
    a: [[T; C1]; R1],
    b: [[T; C2]; R2],
    r: int,
    q: int,
    m: int,
    init: T,
    acc: T,
) -> bool
    decreases m,
{
    if m <= 0 {
        acc == init
    } else {
        exists|prev: T|
            {
                &&& spread_folds(mul_add, a, b, r, q, m - 1, init, prev)
                &&& #[trigger] spread_row_folds(mul_add, a, b, r, q, m - 1, C1 as int, prev, acc)
            }
    }
}

/// Where `mul_add` gives one result only, part of an input row takes an
/// output cell to one result only.
pub proof fn lemma_spread_row_folds_once<
    const R1: usize,
    const C1: usize,
    const R2: usize,
    const C2: usize,
    T,
    F: Fn(T, T, T) -> T,
>(
    mul_add: F,
    a: [[T; C1]; R1],
    b: [[T; C2]; R2],
    r: int,
    q: int,
    i1: int,
    n: int,
    init: T,
    acc1: T,
    acc2: T,
)
    requires
        single_valued3(mul_add),
        spread_row_folds(mul_add, a, b, r, q, i1, n, init, acc1),
        spread_row_folds(mul_add, a, b, r, q, i1, n, init, acc2),
    ensures
        acc1 == acc2,
    decreases n,
{
    if n > 0 {
        let prev1 = choose|prev: T|
            {
                &&& spread_row_folds(mul_add, a, b, r, q, i1, n - 1, init, prev)
                &&& #[trigger] spread_step(mul_add, a, b, r, q, i1, n - 1, prev, acc1)
            };
        let prev2 = choose|prev: T|
            {
                &&& spread_row_folds(mul_add, a, b, r, q, i1, n - 1, init, prev)
                &&& #[trigger] spread_step(mul_add, a, b, r, q, i1, n - 1, prev, acc2)
            };
        lemma_spread_row_folds_once(mul_add, a, b, r, q, i1, n - 1, init, prev1, prev2);
    }
}

/// Where `mul_add` gives one result only, the scatter determines every
/// output cell.
pub proof fn lemma_spread_folds_once<
    const R1: usize,
    const C1: usize,
    const R2: usize,
    const C2: usize,
    T,
    F: Fn(T, T, T) -> T,
>(
    mul_add: F,
    a: [[T; C1]; R1],
    b: [[T; C2]; R2],
    r: int,
    q: int,
    m: int,
    init: T,
    acc1: T,
    acc2: T,
)
    requires
        single_valued3(mul_add),
        spread_folds(mul_add, a, b, r, q, m, init, acc1),
        spread_folds(mul_add, a, b, r, q, m, init, acc2),
    ensures
        acc1 == acc2,
    decreases m,
{
    if m > 0 {
        let prev1 = choose|prev: T|
            {
                &&& spread_folds(mul_add, a, b, r, q, m - 1, init, prev)
                &&& #[trigger] spread_row_folds(mul_add, a, b, r, q, m - 1, C1 as int, prev, acc1)
            };
        let prev2 = choose|prev: T|
            {
                &&& spread_folds(mul_add, a, b, r, q, m - 1, init, prev)
                &&& #[trigger] spread_row_folds(mul_add, a, b, r, q, m - 1, C1 as int, prev, acc2)
            };
        lemma_spread_folds_once(mul_add, a, b, r, q, m - 1, init, prev1, prev2);
        lemma_spread_row_folds_once(mul_add, a, b, r, q, m - 1, C1 as int, prev1, acc1, acc2);
    }
}

/// Full cross-correlation of `a` with `b`: every input cell `(i1, j1)`
/// spreads its product with every kernel cell `(i2, j2)` onto output cell
/// `(i1 + i2, j1 + j2)`, input cells taken row by row.
///
/// `mul_add(acc, x, w)` stands for `acc + x * w`.
pub fn grad_conv<
    const R1: usize,
    const C1: usize,
    const R2: usize,
    const C2: usize,
    const R3: usize,
    const C3: usize,
    T: Copy,
    F: Fn(T, T, T) -> T,
>(a: &[[T; C1]; R1], b: &[[T; C2]; R2], zero: T, mul_add: F) -> (out: [[T; C3]; R3])
    requires
        R1 == 0 || C1 == 0 || R2 == 0 || C2 == 0 || (R1 + R2 <= R3 + 1 && C1 + C2 <= C3 + 1),
        forall|p: T, x: T, w: T| call_requires(mul_add, (p, x, w)),
    ensures
        forall|r: int, q: int|
            0 <= r < R3 && 0 <= q < C3 ==> spread_folds(
                mul_add,
                *a,
                *b,
                r,
                q,
                R1 as int,
                zero,
                #[trigger] out[r][q],
            ),
{
    let mut out = [[zero; C3]; R3];
    let mut i1: usize = 0;
    while i1 < R1
        invariant
            i1 <= R1,
            R1 == 0 || C1 == 0 || R2 == 0 || C2 == 0 || (R1 + R2 <= R3 + 1 && C1 + C2 <= C3 + 1),
            forall|p: T, x: T, w: T| call_requires(mul_add, (p, x, w)),
            forall|r: int, q: int|
                0 <= r < R3 && 0 <= q < C3 ==> spread_folds(
                    mul_add,
                    *a,
                    *b,
                    r,
                    q,
                    i1 as int,
                    zero,
                    #[trigger] out[r][q],
                ),
        decreases R1 - i1,
    {
        let ghost row0 = out;
        let mut j1: usize = 0;
        while j1 < C1
            invariant
                i1 < R1,
                j1 <= C1,
                R1 == 0 || C1 == 0 || R2 == 0 || C2 == 0 || (R1 + R2 <= R3 + 1 && C1 + C2 <= C3
                    + 1),
                forall|p: T, x: T, w: T| call_requires(mul_add, (p, x, w)),
                forall|r: int, q: int|
                    0 <= r < R3 && 0 <= q < C3 ==> spread_folds(
                        mul_add,
                        *a,
                        *b,
                        r,
                        q,
                        i1 as int,
                        zero,
                        #[trigger] row0[r][q],
                    ),
                forall|r: int, q: int|
                    0 <= r < R3 && 0 <= q < C3 ==> spread_row_folds(
                        mul_add,
                        *a,
                        *b,
                        r,
                        q,
                        i1 as int,
                        j1 as int,
                        row0[r][q],
                        #[trigger] out[r][q],
                    ),
            decreases C1 - j1,
        {
            let ghost cell0 = out;
            let mut i2: usize = 0;
            while i2 < R2
                invariant
                    i1 < R1,
                    j1 < C1,
                    i2 <= R2,
                    R2 == 0 || C2 == 0 || (R1 + R2 <= R3 + 1 && C1 + C2 <= C3 + 1),
                    forall|p: T, x: T, w: T| call_requires(mul_add, (p, x, w)),
                    forall|r: int, q: int|
                        0 <= r < R3 && 0 <= q < C3 ==> if i1 <= r < i1 + i2 && 0 <= q - j1 < C2 {
                            call_ensures(
                                mul_add,
                                (cell0[r][q], a[i1 as int][j1 as int], b[r - i1][q - j1]),
                                #[trigger] out[r][q],
                            )
                        } else {
                            out[r][q] == cell0[r][q]
                        },
                decreases R2 - i2,
            {
                let mut j2: usize = 0;
                while j2 < C2
                    invariant
                        i1 < R1,
                        j1 < C1,
                        i2 < R2,
                        j2 <= C2,
                        C2 == 0 || (R1 + R2 <= R3 + 1 && C1 + C2 <= C3 + 1),
                        forall|p: T, x: T, w: T| call_requires(mul_add, (p, x, w)),
                        forall|r: int, q: int|
                            0 <= r < R3 && 0 <= q < C3 ==> if (i1 <= r < i1 + i2 && 0 <= q - j1
                                < C2) || (r == i1 + i2 && 0 <= q - j1 < j2) {
                                call_ensures(
                                    mul_add,
                                    (cell0[r][q], a[i1 as int][j1 as int], b[r - i1][q - j1]),
                                    #[trigger] out[r][q],
                                )
                            } else {
                                out[r][q] == cell0[r][q]
                            },
                    decreases C2 - j2,
                {
                    let v = mul_add(out[i1 + i2][j1 + j2], a[i1][j1], b[i2][j2]);
                    out[i1 + i2][j1 + j2] = v;
                    j2 += 1;
                }
                i2 += 1;
            }
            proof {
                assert forall|r: int, q: int| 0 <= r < R3 && 0 <= q < C3 implies spread_row_folds(
                    mul_add,
                    *a,
                    *b,
                    r,
                    q,
                    i1 as int,
                    j1 + 1,
                    row0[r][q],
                    #[trigger] out[r][q],
                ) by {
                    assert(spread_step(
                        mul_add,
                        *a,
                        *b,
                        r,
                        q,
                        i1 as int,
                        j1 + 1 - 1,
                        cell0[r][q],
                        out[r][q],
                    ));
                }
            }
            j1 += 1;
        }
        proof {
            assert forall|r: int, q: int| 0 <= r < R3 && 0 <= q < C3 implies spread_folds(
                mul_add,
                *a,
                *b,
                r,
                q,
                i1 + 1,
                zero,
                #[trigger] out[r][q],
            ) by {
                assert(spread_row_folds(
                    mul_add,
                    *a,
                    *b,
                    r,
                    q,
                    i1 + 1 - 1,
                    C1 as int,
                    row0[r][q],
                    out[r][q],
                ));
            }
        }
        i1 += 1;
    }
    out
}

/// A convolution layer from `RX` by `CX` inputs to `RY` by `CY` outputs
/// with one kernel of `RW` by `CW` cells. It holds the kernel and remembers
/// the input of the last forward pass.
#[derive(Clone, Copy)]
pub struct Conv2d<
    const RX: usize,
    const CX: usize,
    const RY: usize,
    const CY: usize,
    const RW: usize,
    const CW: usize,
    T,
> {
    x: [[T; CX]; RX],
    w: [[T; CW]; RW],
}

/// What one backward pass of a convolution layer gives: the gradient of
/// the kernel and the gradient on the input.
pub struct ConvGradients<
    const RX: usize,
    const CX: usize,
    const RW: usize,
    const CW: usize,
    T,
> {
    pub kernel: [[T; CW]; RW],
    pub input: [[T; CX]; RX],
}

impl<
    const RX: usize,
    const CX: usize,
    const RY: usize,
    const CY: usize,
    const RW: usize,
    const CW: usize,
    T: Copy,
> Conv2d<RX, CX, RY, CY, RW, CW, T> {
    /// The kernel.
    pub closed spec fn kernel(&self) -> [[T; CW]; RW] {
        self.w
    }

    /// The input of the last forward pass.
    pub closed spec fn input(&self) -> [[T; CX]; RX] {
        self.x
    }

    /// Whether the output shape is the one the kernel, moved one cell at a
    /// time without padding, leaves of the input.
    pub open spec fn shaped() -> bool {
        RW <= RX && CW <= CX && RY == RX - RW + 1 && CY == CX - CW + 1
    }

    /// Whether `grads` are the gradients of a backward pass under the
    /// output gradient `g`: the gradient of the kernel is the valid
    /// cross-correlation of the remembered input with `g`, and the gradient on
    /// the input is the full cross-correlation of the kernel with `g`.
    pub open spec fn propagates<F: Fn(T, T, T) -> T>(
        &self,
        g: [[T; CY]; RY],
        zero: T,
        mul_add: F,
        grads: ConvGradients<RX, CX, RW, CW, T>,
    ) -> bool {
        &&& forall|i: int, j: int|
            0 <= i < RW && 0 <= j < CW ==> window_folds(
                mul_add,
                self.input(),
                g,
                i,
                j,
                RY as int,
                zero,
                #[trigger] grads.kernel[i][j],
            )
        &&& forall|r: int, q: int|
            0 <= r < RX && 0 <= q < CX ==> spread_folds(
                mul_add,
                self.kernel(),
                g,
                r,
                q,
                RW as int,
                zero,
                #[trigger] grads.input[r][q],
            )
    }

    /// A layer with the kernel `w` that remembers an input of `zero`.
    pub fn new(w: [[T; CW]; RW], zero: T) -> (layer: Self)
        requires
            Self::shaped(),
        ensures
            layer.kernel() == w,
            layer.input() == [[zero; CX]; RX],
    {
        Conv2d { x: [[zero; CX]; RX], w }
    }

    /// The forward pass: remembers `x` and gives its valid
    /// cross-correlation with the kernel.
    pub fn ff<F: Fn(T, T, T) -> T>(&mut self, x: [[T; CX]; RX], zero: T, mul_add: F) -> (y: [[T;
        CY]; RY])
        requires
            Self::shaped(),
            forall|p: T, a: T, b: T| call_requires(mul_add, (p, a, b)),
        ensures
            final(self).input() == x,
            final(self).kernel() == old(self).kernel(),
            forall|i: int, j: int|
                0 <= i < RY && 0 <= j < CY ==> window_folds(
                    mul_add,
                    x,
                    old(self).kernel(),
                    i,
                    j,
                    RW as int,
                    zero,
                    #[trigger] y[i][j],
                ),
    {
        self.x = x;
        conv::<RX, CX, RW, CW, RY, CY, T, F>(&self.x, &self.w, zero, mul_add)
    }

    /// The gradients of the backward pass under the output gradient `g`;
    /// nothing is updated.
    pub fn gradients<F: Fn(T, T, T) -> T + Copy>(&self, g: [[T; CY]; RY], zero: T, mul_add: F) -> (grads:
        ConvGradients<RX, CX, RW, CW, T>)
        requires
            Self::shaped(),
            forall|p: T, a: T, b: T| call_requires(mul_add, (p, a, b)),
        ensures
            self.propagates(g, zero, mul_add, grads),
    {
        let kernel = conv::<RX, CX, RY, CY, RW, CW, T, F>(&self.x, &g, zero, mul_add);
        let input = grad_conv::<RW, CW, RY, CY, RX, CX, T, F>(&self.w, &g, zero, mul_add);
        ConvGradients { kernel, input }
    }

    /// The backward pass under the output gradient `g`: the gradients are
    /// taken under the kernel as it is, then the kernel is updated once,
    /// through `opt`, with its gradient. Returns the gradient on the input.
    pub fn bp<F: Fn(T, T, T) -> T + Copy, P: Optimizer<T, RW, CW>>(
        &mut self,
        g: [[T; CY]; RY],
        zero: T,
        mul_add: F,
        opt: &mut P,
    ) -> (gx: [[T; CX]; RX])
        requires
            Self::shaped(),
            forall|p: T, a: T, b: T| call_requires(mul_add, (p, a, b)),
        ensures
            final(self).input() == old(self).input(),
            exists|
                grads: ConvGradients<RX, CX, RW, CW, T>,
                optimizer: &mut P,
                kernel: &mut [[T; CW]; RW],
            |
                {
                    &&& #[trigger] old(self).propagates(g, zero, mul_add, grads)
                    &&& gx == grads.input
                    &&& #[trigger] call_ensures(
                        P::update_param,
                        (optimizer, kernel, &grads.kernel),
                        (),
                    )
                    &&& *optimizer == *old(opt)
                    &&& *final(optimizer) == *final(opt)
                    &&& *kernel == old(self).kernel()
                    &&& *final(kernel) == final(self).kernel()
                },
    {
        let grads = self.gradients(g, zero, mul_add);
        opt.update_param(&mut self.w, &grads.kernel);
        grads.input
    }
}

} // verus!
