//! Max-pooling over sliding windows: the forward pass records where each
//! window's maximum sits, the backward pass sends each output gradient there.
use vstd::prelude::*;
use crate::layers::single_valued2;

verus! {

/// One look of the scan at the input cell at `(r, q)`: it becomes the best
/// exactly when `gt` says it is greater than the best value so far.
pub open spec fn pick_step<T, F: Fn(T, T) -> bool>(
    gt: F,
    cell: T,
    r: int,
    q: int,
    prev: (T, (usize, usize)),
    best: (T, (usize, usize)),
) -> bool {
    exists|wins: bool|
        {
            &&& #[trigger] call_ensures(gt, (cell, prev.0), wins)
            &&& if wins {
                best.0 == cell && best.1.0 == r && best.1.1 == q
            } else {
                best == prev
            }
        }
}

/// Whether looking at the first `n` cells of window row `i2` can take the
/// best from `init` to `best`, for the window whose corner is at `(i1, j1)`.
pub open spec fn row_picks<const RX: usize, const CX: usize, T, F: Fn(T, T) -> bool>(
    gt: F,
    a: [[T; CX]; RX],
    i1: int,
    j1: int,
    i2: int,
    n: int,
    init: (T, (usize, usize)),
    best: (T, (usize, usize)),
) -> bool
    decreases n,
{
    if n <= 0 {
        best == init
    } else {
        exists|prev: (T, (usize, usize))|
            {
                &&& row_picks(gt, a, i1, j1, i2, n - 1, init, prev)
                &&& #[trigger] pick_step(
                    gt,
                    a[i1 + i2][j1 + n - 1],
                    i1 + i2,
                    j1 + n - 1,
                    prev,
                    best,
                )
            }
    }
}

/// Whether looking at the first `m` rows of a window that is `wc` cells
/// wide, row by row and within a row from left to right, can take the best
/// from `init` to `best`.
pub open spec fn window_picks<const RX: usize, const CX: usize, T, F: Fn(T, T) -> bool>(
    gt: F,
    a: [[T; CX]; RX],
    i1: int,
    j1: int,
    wc: int,
    m: int,
    init: (T, (usize, usize)),
    best: (T, (usize, usize)),
) -> bool
    decreases m,
{
    if m <= 0 {
        best == init
    } else {
        exists|prev: (T, (usize, usize))|
            {
                &&& window_picks(gt, a, i1, j1, wc, m - 1, init, prev)
                &&& #[trigger] row_picks(gt, a, i1, j1, m - 1, wc, prev, best)
            }
    }
}

/// Where `gt` gives one answer only, scanning part of a window row ends on
/// one best only.
pub proof fn lemma_row_picks_once<const RX: usize, const CX: usize, T, F: Fn(T, T) -> bool>(
    gt: F,
    a: [[T; CX]; RX],
    i1: int,
    j1: int,
    i2: int,
    n: int,
    init: (T, (usize, usize)),
    best1: (T, (usize, usize)),
    best2: (T, (usize, usize)),
)
    requires
        single_valued2(gt),
        row_picks(gt, a, i1, j1, i2, n, init, best1),
        row_picks(gt, a, i1, j1, i2, n, init, best2),
    ensures
        best1 == best2,
    decreases n,
{
    if n > 0 {
        let prev1 = choose|prev: (T, (usize, usize))|
            {
                &&& row_picks(gt, a, i1, j1, i2, n - 1, init, prev)
                &&& #[trigger] pick_step(
                    gt,
                    a[i1 + i2][j1 + n - 1],
                    i1 + i2,
                    j1 + n - 1,
                    prev,
                    best1,
                )
            };
        let prev2 = choose|prev: (T, (usize, usize))|
            {
                &&& row_picks(gt, a, i1, j1, i2, n - 1, init, prev)
                &&& #[trigger] pick_step(
                    gt,
                    a[i1 + i2][j1 + n - 1],
                    i1 + i2,
                    j1 + n - 1,
                    prev,
                    best2,
                )
            };
        lemma_row_picks_once(gt, a, i1, j1, i2, n - 1, init, prev1, prev2);
        let cell = a[i1 + i2][j1 + n - 1];
        let wins1 = choose|wins: bool|
            {
                &&& #[trigger] call_ensures(gt, (cell, prev1.0), wins)
                &&& if wins {
                    best1.0 == cell && best1.1.0 == i1 + i2 && best1.1.1 == j1 + n - 1
                } else {
                    best1 == prev1
                }
            };
        let wins2 = choose|wins: bool|
            {
                &&& #[trigger] call_ensures(gt, (cell, prev2.0), wins)
                &&& if wins {
                    best2.0 == cell && best2.1.0 == i1 + i2 && best2.1.1 == j1 + n - 1
                } else {
                    best2 == prev2
                }
            };
        assert(wins1 == wins2);
    }
}

/// Where `gt` gives one answer only, a window determines its best value
/// and the coordinate recorded for it.
pub proof fn lemma_window_picks_once<const RX: usize, const CX: usize, T, F: Fn(T, T) -> bool>(
    gt: F,
    a: [[T; CX]; RX],
    i1: int,
    j1: int,
    wc: int,
    m: int,
    init: (T, (usize, usize)),
    best1: (T, (usize, usize)),
    best2: (T, (usize, usize)),
)
    requires
        single_valued2(gt),
        window_picks(gt, a, i1, j1, wc, m, init, best1),
        window_picks(gt, a, i1, j1, wc, m, init, best2),
    ensures
        best1 == best2,
    decreases m,
{
    if m > 0 {
        let prev1 = choose|prev: (T, (usize, usize))|
            {
                &&& window_picks(gt, a, i1, j1, wc, m - 1, init, prev)
                &&& #[trigger] row_picks(gt, a, i1, j1, m - 1, wc, prev, best1)
            };
        let prev2 = choose|prev: (T, (usize, usize))|
            {
                &&& window_picks(gt, a, i1, j1, wc, m - 1, init, prev)
                &&& #[trigger] row_picks(gt, a, i1, j1, m - 1, wc, prev, best2)
            };
        lemma_window_picks_once(gt, a, i1, j1, wc, m - 1, init, prev1, prev2);
        lemma_row_picks_once(gt, a, i1, j1, m - 1, wc, prev1, best1, best2);
    }
}

/// What a scan starts from: the first cell of the window whose corner is
/// at `(i1, j1)`, and its coordinate.
pub open spec fn first_cell<const RX: usize, const CX: usize, T>(
    a: [[T; CX]; RX],
    i1: int,
    j1: int,
) -> (T, (usize, usize)) {
    (a[i1][j1], (i1 as usize, j1 as usize))
}

/// Whether `at` lies in the window of `wr` by `wc` cells whose corner is at
/// `(i1, j1)`, and `v` is the cell of `a` that sits there.
pub open spec fn sits_in_window<const RX: usize, const CX: usize, T>(
    a: [[T; CX]; RX],
    v: T,
    at: (usize, usize),
    i1: int,
    j1: int,
    wr: int,
    wc: int,
) -> bool {
    &&& i1 <= at.0 < i1 + wr
    &&& j1 <= at.1 < j1 + wc
    &&& v == a[at.0 as int][at.1 as int]
}

/// Whether `at` is the window's first cell or lies in its first `rows` rows,
/// and `v` is the cell of `a` that sits there.
pub open spec fn sits_in_scan<const RX: usize, const CX: usize, T>(
    a: [[T; CX]; RX],
    v: T,
    at: (usize, usize),
    i1: int,
    j1: int,
    rows: int,
    wc: int,
) -> bool {
    &&& (at.0 == i1 && at.1 == j1) || (i1 <= at.0 < i1 + rows && j1 <= at.1 < j1 + wc)
    &&& v == a[at.0 as int][at.1 as int]
}

/// Pools `a` with windows of `RX - RY + 1` by `CX - CY + 1` cells that
/// move one cell at a time. Each window is scanned from its first cell:
/// the output cell gets the best value of the window, and `m` gets the
/// coordinate, within the window, at which that value sits.
pub fn maxpool<
    const RX: usize,
    const CX: usize,
    const RY: usize,
    const CY: usize,
    T: Copy + Default,
    F: Fn(T, T) -> bool,
>(a: &[[T; CX]; RX], m: &mut [[(usize, usize); CY]; RY], gt: F) -> (c: [[T; CY]; RY])
    requires
        RY == 0 || CY == 0 || (RY <= RX && CY <= CX),
        forall|x: T, y: T| call_requires(gt, (x, y)),
    ensures
        forall|i1: int, j1: int|
            0 <= i1 < RY && 0 <= j1 < CY ==> window_picks(
                gt,
                *a,
                i1,
                j1,
                CX - CY + 1,
                RX - RY + 1,
                first_cell(*a, i1, j1),
                (#[trigger] c[i1][j1], final(m)[i1][j1]),
            ),
        forall|i1: int, j1: int|
            0 <= i1 < RY && 0 <= j1 < CY ==> sits_in_window(
                *a,
                c[i1][j1],
                #[trigger] final(m)[i1][j1],
                i1,
                j1,
                RX - RY + 1,
                CX - CY + 1,
            ),
{
    let mut c = [[T::default(); CY]; RY];
    let mut i1: usize = 0;
    while i1 < RY
        invariant
            i1 <= RY,
            RY == 0 || CY == 0 || (RY <= RX && CY <= CX),
            forall|x: T, y: T| call_requires(gt, (x, y)),
            forall|i: int, j: int|
                0 <= i < i1 && 0 <= j < CY ==> window_picks(
                gt,
                *a,
                i,
                j,
                CX - CY + 1,
                RX - RY + 1,
                first_cell(*a, i, j),
                    (#[trigger] c[i][j], m[i][j]),
                ),
            forall|i: int, j: int|
                0 <= i < i1 && 0 <= j < CY ==> sits_in_window(
                *a,
                c[i][j],
                #[trigger] m[i][j],
                i,
                j,
                RX - RY + 1,
                CX - CY + 1,
            ),
        decreases RY - i1,
    {
        let mut j1: usize = 0;
        while j1 < CY
            invariant
                i1 < RY,
                j1 <= CY,
                RY == 0 || CY == 0 || (RY <= RX && CY <= CX),
                forall|x: T, y: T| call_requires(gt, (x, y)),
                forall|i: int, j: int|
                    0 <= i < i1 && 0 <= j < CY ==> window_picks(
                gt,
                *a,
                i,
                j,
                CX - CY + 1,
                RX - RY + 1,
                first_cell(*a, i, j),
                        (#[trigger] c[i][j], m[i][j]),
                    ),
                forall|i: int, j: int|
                    0 <= i < i1 && 0 <= j < CY ==> sits_in_window(
                *a,
                c[i][j],
                #[trigger] m[i][j],
                i,
                j,
                RX - RY + 1,
                CX - CY + 1,
            ),
                forall|j: int|
                    0 <= j < j1 ==> window_picks(
                gt,
                *a,
                i1 as int,
                j,
                CX - CY + 1,
                RX - RY + 1,
                first_cell(*a, i1 as int, j),
                        (#[trigger] c[i1 as int][j], m[i1 as int][j]),
                    ),
                forall|j: int|
                    0 <= j < j1 ==> sits_in_window(
                *a,
                c[i1 as int][j],
                #[trigger] m[i1 as int][j],
                i1 as int,
                j,
                RX - RY + 1,
                CX - CY + 1,
            ),
            decreases CY - j1,
        {
            let mut curmax = a[i1][j1];
            let mut curidx: (usize, usize) = (i1, j1);
            let wr: usize = RX - RY + 1;
            let wc: usize = CX - CY + 1;
            let mut i2: usize = 0;
            while i2 < wr
                invariant
                    i1 < RY,
                    j1 < CY,
                    RY <= RX,
                    CY <= CX,
                    wr == RX - RY + 1,
                    wc == CX - CY + 1,
                    i2 <= wr,
                    forall|x: T, y: T| call_requires(gt, (x, y)),
                    window_picks(
                gt,
                *a,
                i1 as int,
                j1 as int,
                wc as int,
                i2 as int,
                first_cell(*a, i1 as int, j1 as int),
                        (curmax, curidx),
                    ),
                    sits_in_scan(*a, curmax, curidx, i1 as int, j1 as int, i2 as int, wc as int),
                decreases wr - i2,
            {
                let ghost row_start = (curmax, curidx);
                let mut j2: usize = 0;
                while j2 < wc
                    invariant
                        i1 < RY,
                        j1 < CY,
                        RY <= RX,
                        CY <= CX,
                        wr == RX - RY + 1,
                        wc == CX - CY + 1,
                        i2 < wr,
                        j2 <= wc,
                        forall|x: T, y: T| call_requires(gt, (x, y)),
                        row_picks(
                            gt,
                            *a,
                            i1 as int,
                            j1 as int,
                            i2 as int,
                            j2 as int,
                            row_start,
                            (curmax, curidx),
                        ),
                        sits_in_scan(*a, curmax, curidx, i1 as int, j1 as int, i2 + 1, wc as int),
                    decreases wc - j2,
                {
                    let ghost prev = (curmax, curidx);
                    let cell = a[i1 + i2][j1 + j2];
                    let wins = gt(cell, curmax);
                    if wins {
                        curmax = cell;
                        curidx = (i1 + i2, j1 + j2);
                    }
                    proof {
                        assert(pick_step(
                            gt,
                            a[i1 + i2][j1 + (j2 + 1) - 1],
                            i1 + i2,
                            j1 + (j2 + 1) - 1,
                            prev,
                            (curmax, curidx),
                        ));
                    }
                    j2 += 1;
                }
                proof {
                    assert(row_picks(
                        gt,
                        *a,
                        i1 as int,
                        j1 as int,
                        i2 + 1 - 1,
                        wc as int,
                        row_start,
                        (curmax, curidx),
                    ));
                }
                i2 += 1;
            }
            m[i1][j1] = curidx;
            c[i1][j1] = curmax;
            j1 += 1;
        }
        i1 += 1;
    }
    c
}

/// Whether input cell `(r, q)` has been looked at once `m` full rows and
/// `n` more cells of the window at `(i1, j1)`, `wc` cells wide, were scanned.
pub open spec fn scanned(i1: int, j1: int, wc: int, m: int, n: int, r: int, q: int) -> bool {
    (i1 <= r < i1 + m && j1 <= q < j1 + wc) || (r == i1 + m && j1 <= q < j1 + n)
}

/// What `best` is while a window is scanned under a comparison by `key`:
/// it sits at the window's first cell or at a scanned cell, no scanned cell
/// and not the first cell has a greater key, and every such cell before it,
/// in row-major order, has a smaller key.
pub open spec fn champion<const RX: usize, const CX: usize, T>(
    key: spec_fn(T) -> int,
    a: [[T; CX]; RX],
    i1: int,
    j1: int,
    wc: int,
    m: int,
    n: int,
    best: (T, (usize, usize)),
) -> bool {
    &&& best.0 == a[best.1.0 as int][best.1.1 as int]
    &&& (best.1.0 == i1 && best.1.1 == j1) || scanned(
        i1,
        j1,
        wc,
        m,
        n,
        best.1.0 as int,
        best.1.1 as int,
    )
    &&& key(a[i1][j1]) <= key(best.0)
    &&& (best.1.0 != i1 || best.1.1 != j1) ==> key(a[i1][j1]) < key(best.0)
    &&& forall|r: int, q: int|
        scanned(i1, j1, wc, m, n, r, q) ==> key(#[trigger] a[r][q]) <= key(best.0)
    &&& forall|r: int, q: int|
        scanned(i1, j1, wc, m, n, r, q) && (r < best.1.0 || (r == best.1.0 && q < best.1.1))
            ==> key(#[trigger] a[r][q]) < key(best.0)
}

/// Whether `best` is the first greatest cell of the window of `wr` by `wc`
/// cells whose corner is at `(i1, j1)`: it sits in the window, no cell of the
/// window has a greater key, and every cell of the window before it, in
/// row-major order, has a smaller key.
pub open spec fn first_maximum<const RX: usize, const CX: usize, T>(
    key: spec_fn(T) -> int,
    a: [[T; CX]; RX],
    i1: int,
    j1: int,
    wr: int,
    wc: int,
    best: (T, (usize, usize)),
) -> bool {
    &&& sits_in_window(a, best.0, best.1, i1, j1, wr, wc)
    &&& forall|r: int, q: int|
        i1 <= r < i1 + wr && j1 <= q < j1 + wc ==> key(#[trigger] a[r][q]) <= key(best.0)
    &&& forall|r: int, q: int|
        i1 <= r < i1 + wr && j1 <= q < j1 + wc && (r < best.1.0 || (r == best.1.0 && q
            < best.1.1)) ==> key(#[trigger] a[r][q]) < key(best.0)
}

/// Scanning part of a row keeps the best a champion.
proof fn lemma_row_keeps_champion<const RX: usize, const CX: usize, T, F: Fn(T, T) -> bool>(
    gt: F,
    key: spec_fn(T) -> int,
    a: [[T; CX]; RX],
    i1: int,
    j1: int,
    wc: int,
    i2: int,
    n: int,
    init: (T, (usize, usize)),
    best: (T, (usize, usize)),
)
    requires
        forall|x: T, y: T, r: bool| call_ensures(gt, (x, y), r) ==> r == (key(x) > key(y)),
        0 <= i1,
        0 <= i2,
        i1 + i2 < RX,
        0 <= j1,
        0 <= n <= wc,
        j1 + wc <= CX,
        row_picks(gt, a, i1, j1, i2, n, init, best),
        champion(key, a, i1, j1, wc, i2, 0, init),
    ensures
        champion(key, a, i1, j1, wc, i2, n, best),
    decreases n,
{
    if n > 0 {
        let prev = choose|prev: (T, (usize, usize))|
            {
                &&& row_picks(gt, a, i1, j1, i2, n - 1, init, prev)
                &&& #[trigger] pick_step(
                    gt,
                    a[i1 + i2][j1 + n - 1],
                    i1 + i2,
                    j1 + n - 1,
                    prev,
                    best,
                )
            };
        lemma_row_keeps_champion(gt, key, a, i1, j1, wc, i2, n - 1, init, prev);
        let cell = a[i1 + i2][j1 + n - 1];
        let wins = choose|wins: bool|
            {
                &&& #[trigger] call_ensures(gt, (cell, prev.0), wins)
                &&& if wins {
                    best.0 == cell && best.1.0 == i1 + i2 && best.1.1 == j1 + n - 1
                } else {
                    best == prev
                }
            };
        assert(scanned(i1, j1, wc, i2, n, i1 + i2, j1 + n - 1));
        assert forall|r: int, q: int| scanned(i1, j1, wc, i2, n, r, q) implies key(
            #[trigger] a[r][q],
        ) <= key(best.0) by {
            if !scanned(i1, j1, wc, i2, n - 1, r, q) {
                assert(r == i1 + i2 && q == j1 + n - 1);
            }
        }
        assert forall|r: int, q: int|
            scanned(i1, j1, wc, i2, n, r, q) && (r < best.1.0 || (r == best.1.0 && q
                < best.1.1)) implies key(#[trigger] a[r][q]) < key(best.0) by {
            if !scanned(i1, j1, wc, i2, n - 1, r, q) {
                assert(r == i1 + i2 && q == j1 + n - 1);
            }
        }
        if !wins {
            if scanned(i1, j1, wc, i2, n - 1, best.1.0 as int, best.1.1 as int) {
                assert(scanned(i1, j1, wc, i2, n, best.1.0 as int, best.1.1 as int));
            }
        }
    }
}

/// Scanning whole rows keeps the best a champion.
proof fn lemma_rows_keep_champion<const RX: usize, const CX: usize, T, F: Fn(T, T) -> bool>(
    gt: F,
    key: spec_fn(T) -> int,
    a: [[T; CX]; RX],
    i1: int,
    j1: int,
    wc: int,
    m: int,
    best: (T, (usize, usize)),
)
    requires
        forall|x: T, y: T, r: bool| call_ensures(gt, (x, y), r) ==> r == (key(x) > key(y)),
        0 <= i1 < RX,
        0 <= m,
        i1 + m <= RX,
        0 <= j1 < CX,
        0 <= wc,
        j1 + wc <= CX,
        window_picks(gt, a, i1, j1, wc, m, first_cell(a, i1, j1), best),
    ensures
        champion(key, a, i1, j1, wc, m, 0, best),
    decreases m,
{
    if m > 0 {
        let prev = choose|prev: (T, (usize, usize))|
            {
                &&& window_picks(gt, a, i1, j1, wc, m - 1, first_cell(a, i1, j1), prev)
                &&& #[trigger] row_picks(gt, a, i1, j1, m - 1, wc, prev, best)
            };
        lemma_rows_keep_champion(gt, key, a, i1, j1, wc, m - 1, prev);
        lemma_row_keeps_champion(gt, key, a, i1, j1, wc, m - 1, wc, prev, best);
        assert forall|r: int, q: int| scanned(i1, j1, wc, m, 0, r, q) implies scanned(
            i1,
            j1,
            wc,
            m - 1,
            wc,
            r,
            q,
        ) by {}
        assert(scanned(i1, j1, wc, m - 1, wc, best.1.0 as int, best.1.1 as int) ==> scanned(
            i1,
            j1,
            wc,
            m,
            0,
            best.1.0 as int,
            best.1.1 as int,
        ));
    }
}

/// Where `gt` compares by an integer key, the scan of a window ends on the
/// window's first greatest cell.
pub proof fn lemma_window_picks_first_maximum<
    const RX: usize,
    const CX: usize,
    T,
    F: Fn(T, T) -> bool,
>(
    gt: F,
    key: spec_fn(T) -> int,
    a: [[T; CX]; RX],
    i1: int,
    j1: int,
    wr: int,
    wc: int,
    best: (T, (usize, usize)),
)
    requires
        forall|x: T, y: T, r: bool| call_ensures(gt, (x, y), r) ==> r == (key(x) > key(y)),
        0 <= i1,
        1 <= wr,
        i1 + wr <= RX,
        0 <= j1,
        1 <= wc,
        j1 + wc <= CX,
        window_picks(gt, a, i1, j1, wc, wr, first_cell(a, i1, j1), best),
    ensures
        first_maximum(key, a, i1, j1, wr, wc, best),
{
    lemma_rows_keep_champion(gt, key, a, i1, j1, wc, wr, best);
    assert forall|r: int, q: int| i1 <= r < i1 + wr && j1 <= q < j1 + wc implies scanned(
        i1,
        j1,
        wc,
        wr,
        0,
        r,
        q,
    ) by {}
}

/// One step of the backward pass as seen from input cell `(r, q)`: output
/// cell `(i, j)` adds its gradient where `(r, q)` is its recorded
/// coordinate, and leaves the input cell alone where not.
pub open spec fn gather_step<const RY: usize, const CY: usize, T, F: Fn(T, T) -> T>(
    plus: F,
    m: [[(usize, usize); CY]; RY],
    g: [[T; CY]; RY],
    r: int,
    q: int,
    i: int,
    j: int,
    prev: T,
    acc: T,
) -> bool {
    if m[i][j].0 == r && m[i][j].1 == q {
        call_ensures(plus, (prev, g[i][j]), acc)
    } else {
        acc == prev
    }
}

/// Whether the first `n` cells of output row `i` can take input cell
/// `(r, q)` from `init` to `acc`.
pub open spec fn gather_row_folds<const RY: usize, const CY: usize, T, F: Fn(T, T) -> T>(
    plus: F,
    m: [[(usize, usize); CY]; RY],
    g: [[T; CY]; RY],
    r: int,
    q: int,
    i: int,
    n: int,
    init: T,
    acc: T,
) -> bool
    decreases n,
{
    if n <= 0 {
        acc == init
    } else {
        exists|prev: T|
            {
                &&& gather_row_folds(plus, m, g, r, q, i, n - 1, init, prev)
                &&& #[trigger] gather_step(plus, m, g, r, q, i, n - 1, prev, acc)
            }
    }
}

/// Whether the first `k` output rows, each taken from left to right, can
/// take input cell `(r, q)` from `init` to `acc`.
pub open spec fn gather_folds<const RY: usize, const CY: usize, T, F: Fn(T, T) -> T>(
    plus: F,
    m: [[(usize, usize); CY]; RY],
    g: [[T; CY]; RY],
    r: int,
    q: int,
    k: int,
    init: T,
    acc: T,
) -> bool
    decreases k,
{
    if k <= 0 {
        acc == init
    } else {
        exists|prev: T|
            {
                &&& gather_folds(plus, m, g, r, q, k - 1, init, prev)
                &&& #[trigger] gather_row_folds(plus, m, g, r, q, k - 1, CY as int, prev, acc)
            }
    }
}

/// Where `plus` gives one result only, part of an output row takes an
/// input cell to one result only.
pub proof fn lemma_gather_row_folds_once<const RY: usize, const CY: usize, T, F: Fn(T, T) -> T>(
    plus: F,
    m: [[(usize, usize); CY]; RY],
    g: [[T; CY]; RY],
    r: int,
    q: int,
    i: int,
    n: int,
    init: T,
    acc1: T,
    acc2: T,
)
    requires
        single_valued2(plus),
        gather_row_folds(plus, m, g, r, q, i, n, init, acc1),
        gather_row_folds(plus, m, g, r, q, i, n, init, acc2),
    ensures
        acc1 == acc2,
    decreases n,
{
    if n > 0 {
        let prev1 = choose|prev: T|
            {
                &&& gather_row_folds(plus, m, g, r, q, i, n - 1, init, prev)
                &&& #[trigger] gather_step(plus, m, g, r, q, i, n - 1, prev, acc1)
            };
        let prev2 = choose|prev: T|
            {
                &&& gather_row_folds(plus, m, g, r, q, i, n - 1, init, prev)
                &&& #[trigger] gather_step(plus, m, g, r, q, i, n - 1, prev, acc2)
            };
        lemma_gather_row_folds_once(plus, m, g, r, q, i, n - 1, init, prev1, prev2);
    }
}

/// Where `plus` gives one result only, the backward pass determines every
/// input cell.
pub proof fn lemma_gather_folds_once<const RY: usize, const CY: usize, T, F: Fn(T, T) -> T>(
    plus: F,
    m: [[(usize, usize); CY]; RY],
    g: [[T; CY]; RY],
    r: int,
    q: int,
    k: int,
    init: T,
    acc1: T,
    acc2: T,
)
    requires
        single_valued2(plus),
        gather_folds(plus, m, g, r, q, k, init, acc1),
        gather_folds(plus, m, g, r, q, k, init, acc2),
    ensures
        acc1 == acc2,
    decreases k,
{
    if k > 0 {
        let prev1 = choose|prev: T|
            {
                &&& gather_folds(plus, m, g, r, q, k - 1, init, prev)
                &&& #[trigger] gather_row_folds(plus, m, g, r, q, k - 1, CY as int, prev, acc1)
            };
        let prev2 = choose|prev: T|
            {
                &&& gather_folds(plus, m, g, r, q, k - 1, init, prev)
                &&& #[trigger] gather_row_folds(plus, m, g, r, q, k - 1, CY as int, prev, acc2)
            };
        lemma_gather_folds_once(plus, m, g, r, q, k - 1, init, prev1, prev2);
        lemma_gather_row_folds_once(plus, m, g, r, q, k - 1, CY as int, prev1, acc1, acc2);
    }
}

/// A pooling layer from `RX` by `CX` inputs to `RY` by `CY` outputs with a
/// window of `RW` by `CW` cells. It remembers, for each output cell, the
/// input coordinate that the last forward pass picked.
#[derive(Clone, Copy)]
pub struct MaxPool2d<
    const RX: usize,
    const CX: usize,
    const RY: usize,
    const CY: usize,
    const RW: usize,
    const CW: usize,
> {
    m: [[(usize, usize); CY]; RY],
}

impl<
    const RX: usize,
    const CX: usize,
    const RY: usize,
    const CY: usize,
    const RW: usize,
    const CW: usize,
> MaxPool2d<RX, CX, RY, CY, RW, CW> {
    /// The recorded coordinate of each output cell.
    pub closed spec fn coordinates(&self) -> [[(usize, usize); CY]; RY] {
        self.m
    }

    /// Whether the output shape is the one a window of `RW` by `CW` cells,
    /// moved one cell at a time, leaves of the input.
    pub open spec fn shaped() -> bool {
        RW <= RX && CW <= CX && RY == RX - RW + 1 && CY == CX - CW + 1
    }

    /// The shape fits, and every recorded coordinate names an input cell.
    pub open spec fn wf(&self) -> bool {
        &&& Self::shaped()
        &&& forall|i: int, j: int|
            0 <= i < RY && 0 <= j < CY ==> {
                let at = #[trigger] self.coordinates()[i][j];
                at.0 < RX && at.1 < CX
            }
    }

    /// A layer whose recorded coordinates are all the origin, which names
    /// an input cell wherever the input has one.
    pub fn new() -> (layer: Self)
        requires
            Self::shaped(),
        ensures
            RX >= 1 && CX >= 1 ==> layer.wf(),
            forall|i: int, j: int|
                0 <= i < RY && 0 <= j < CY ==> #[trigger] layer.coordinates()[i][j] == (
                    0usize,
                    0usize,
                ),
    {
        MaxPool2d { m: [[(0usize, 0usize); CY]; RY] }
    }

    /// The forward pass: pools `x` and records where each maximum sits.
    pub fn ff<T: Copy + Default, F: Fn(T, T) -> bool>(&mut self, x: [[T; CX]; RX], gt: F) -> (y:
        [[T; CY]; RY])
        requires
            Self::shaped(),
            RW >= 1,
            CW >= 1,
            forall|a: T, b: T| call_requires(gt, (a, b)),
        ensures
            final(self).wf(),
            forall|i1: int, j1: int|
                0 <= i1 < RY && 0 <= j1 < CY ==> window_picks(
                    gt,
                    x,
                    i1,
                    j1,
                    CW as int,
                    RW as int,
                    first_cell(x, i1, j1),
                    (#[trigger] y[i1][j1], final(self).coordinates()[i1][j1]),
                ),
            forall|i1: int, j1: int|
                0 <= i1 < RY && 0 <= j1 < CY ==> sits_in_window(
                    x,
                    y[i1][j1],
                    #[trigger] final(self).coordinates()[i1][j1],
                    i1,
                    j1,
                    RW as int,
                    CW as int,
                ),
    {
        maxpool(&x, &mut self.m, gt)
    }

    /// The backward pass: every output gradient is added, from `zero`, onto
    /// the input cell that the forward pass recorded for it, output cells
    /// taken row by row.
    pub fn bp<T: Copy, F: Fn(T, T) -> T>(&mut self, g: [[T; CY]; RY], zero: T, plus: F) -> (out:
        [[T; CX]; RX])
        requires
            old(self).wf(),
            forall|a: T, b: T| call_requires(plus, (a, b)),
        ensures
            final(self).coordinates() == old(self).coordinates(),
            final(self).wf(),
            forall|r: int, q: int|
                0 <= r < RX && 0 <= q < CX ==> gather_folds(
                    plus,
                    old(self).coordinates(),
                    g,
                    r,
                    q,
                    RY as int,
                    zero,
                    #[trigger] out[r][q],
                ),
    {
        let mut out = [[zero; CX]; RX];
        let mut i: usize = 0;
        while i < RY
            invariant
                i <= RY,
                self.wf(),
                self.coordinates() == old(self).coordinates(),
                forall|a: T, b: T| call_requires(plus, (a, b)),
                forall|r: int, q: int|
                    0 <= r < RX && 0 <= q < CX ==> gather_folds(
                        plus,
                        self.coordinates(),
                        g,
                        r,
                        q,
                        i as int,
                        zero,
                        #[trigger] out[r][q],
                    ),
            decreases RY - i,
        {
            let ghost row0 = out;
            let mut j: usize = 0;
            while j < CY
                invariant
                    i < RY,
                    j <= CY,
                    self.wf(),
                    self.coordinates() == old(self).coordinates(),
                    forall|a: T, b: T| call_requires(plus, (a, b)),
                    forall|r: int, q: int|
                        0 <= r < RX && 0 <= q < CX ==> gather_folds(
                            plus,
                            self.coordinates(),
                            g,
                            r,
                            q,
                            i as int,
                            zero,
                            #[trigger] row0[r][q],
                        ),
                    forall|r: int, q: int|
                        0 <= r < RX && 0 <= q < CX ==> gather_row_folds(
                            plus,
                            self.coordinates(),
                            g,
                            r,
                            q,
                            i as int,
                            j as int,
                            row0[r][q],
                            #[trigger] out[r][q],
                        ),
                decreases CY - j,
            {
                let ghost cell0 = out;
                let at = self.m[i][j];
                assert(at == self.coordinates()[i as int][j as int]);
                let v = plus(out[at.0][at.1], g[i][j]);
                out[at.0][at.1] = v;
                proof {
                    assert forall|r: int, q: int| 0 <= r < RX && 0 <= q < CX implies gather_row_folds(
                        plus,
                        self.coordinates(),
                        g,
                        r,
                        q,
                        i as int,
                        j + 1,
                        row0[r][q],
                        #[trigger] out[r][q],
                    ) by {
                        assert(gather_step(
                            plus,
                            self.coordinates(),
                            g,
                            r,
                            q,
                            i as int,
                            j + 1 - 1,
                            cell0[r][q],
                            out[r][q],
                        ));
                    }
                }
                j += 1;
            }
            proof {
                assert forall|r: int, q: int| 0 <= r < RX && 0 <= q < CX implies gather_folds(
                    plus,
                    self.coordinates(),
                    g,
                    r,
                    q,
                    i + 1,
                    zero,
                    #[trigger] out[r][q],
                ) by {
                    assert(gather_row_folds(
                        plus,
                        self.coordinates(),
                        g,
                        r,
                        q,
                        i + 1 - 1,
                        CY as int,
                        row0[r][q],
                        out[r][q],
                    ));
                }
            }
            i += 1;
        }
        out
    }
}

} // verus!
