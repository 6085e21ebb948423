//! The Jacobian of a softmax, laid out from its forward output.
use vstd::prelude::*;

verus! {

/// The Jacobian of a softmax whose forward output is `s`: cell `(i, i)` is
/// what `diag` makes of `s[i]`, and cell `(i, j)` off the diagonal is what
/// `off` makes of `s[i]` and `s[j]`.
///
/// `diag(p)` stands for `p * (1 - p)` and `off(p, q)` for `-p * q`.
pub fn jacobian<const N: usize, T: Copy, D: Fn(T) -> T, O: Fn(T, T) -> T>(
    s: &[T; N],
    zero: T,
    diag: D,
    off: O,
) -> (ds: [[T; N]; N])
    requires
        forall|p: T| call_requires(diag, (p,)),
        forall|p: T, q: T| call_requires(off, (p, q)),
    ensures
        forall|i: int| 0 <= i < N ==> call_ensures(diag, (s[i],), #[trigger] ds[i][i]),
        forall|i: int, j: int|
            0 <= i < N && 0 <= j < N && i != j ==> call_ensures(
                off,
                (s[i], s[j]),
                #[trigger] ds[i][j],
            ),
{
    let mut ds = [[zero; N]; N];
    let mut i: usize = 0;
    while i < N
        invariant
            i <= N,
            forall|p: T| call_requires(diag, (p,)),
            forall|p: T, q: T| call_requires(off, (p, q)),
            forall|i0: int| 0 <= i0 < i ==> call_ensures(diag, (s[i0],), #[trigger] ds[i0][i0]),
            forall|i0: int, j0: int|
                0 <= i0 < i && 0 <= j0 < N && i0 != j0 ==> call_ensures(
                    off,
                    (s[i0], s[j0]),
                    #[trigger] ds[i0][j0],
                ),
        decreases N - i,
    {
        let mut j: usize = 0;
        while j < N
            invariant
                i < N,
                j <= N,
                forall|p: T| call_requires(diag, (p,)),
                forall|p: T, q: T| call_requires(off, (p, q)),
                forall|i0: int|
                    0 <= i0 < i || (i0 == i && i < j) ==> call_ensures(
                        diag,
                        (s[i0],),
                        #[trigger] ds[i0][i0],
                    ),
                forall|i0: int, j0: int|
                    ((0 <= i0 < i && 0 <= j0 < N) || (i0 == i && 0 <= j0 < j)) && i0 != j0
                        ==> call_ensures(off, (s[i0], s[j0]), #[trigger] ds[i0][j0]),
            decreases N - j,
        {
            let v = if i == j {
                diag(s[i])
            } else {
                off(s[i], s[j])
            };
            ds[i][j] = v;
            j += 1;
        }
        i += 1;
    }
    ds
}

} // verus!
