//! Buffer contents as the GPU reads them: records of `N` components, one
//! after another, each record's components in order.

use vstd::prelude::*;

verus! {

/// Component `c` of record `k` of `rows` stands in `flat` at position `N * k + c`.
pub open spec fn record_placed<T, const N: usize>(
    flat: Seq<T>,
    rows: Seq<[T; N]>,
    k: int,
    c: int,
) -> bool {
    &&& 0 <= N * k + c < flat.len()
    &&& flat[N * k + c] == rows[k][c]
}

/// The records of `rows` laid end to end: component `c` of record `k`
/// lands at position `N * k + c`.
pub fn flatten_rows<T: Copy, const N: usize>(rows: &Vec<[T; N]>) -> (flat: Vec<T>)
    requires
        N * rows@.len() <= usize::MAX,
    ensures
        flat@.len() == N * rows@.len(),
        forall|k: int, c: int|
            0 <= k < rows@.len() && 0 <= c < N ==> #[trigger] record_placed(flat@, rows@, k, c),
{
    let mut flat: Vec<T> = Vec::new();
    let mut k: usize = 0;
    while k < rows.len()
        invariant
            k <= rows@.len(),
            N * rows@.len() <= usize::MAX,
            flat@.len() == N * k,
            forall|kk: int, c: int|
                0 <= kk < k && 0 <= c < N ==> #[trigger] record_placed(flat@, rows@, kk, c),
        decreases rows@.len() - k,
    {
        assert(N * k + N == N * (k + 1) && N * (k + 1) <= N * rows@.len()) by (nonlinear_arith)
            requires
                k < rows@.len(),
        ;
        let row: [T; N] = rows[k];
        let mut c: usize = 0;
        while c < N
            invariant
                k < rows@.len(),
                c <= N,
                N * k + N <= usize::MAX,
                row == rows@[k as int],
                flat@.len() == N * k + c,
                forall|kk: int, cc: int|
                    0 <= kk < k && 0 <= cc < N || kk == k && 0 <= cc < c ==> #[trigger] record_placed(
                        flat@,
                        rows@,
                        kk,
                        cc,
                    ),
            decreases N - c,
        {
            let ghost before = flat@;
            flat.push(row[c]);
            assert forall|kk: int, cc: int|
                0 <= kk < k && 0 <= cc < N || kk == k && 0 <= cc <= c implies #[trigger] record_placed(
                flat@,
                rows@,
                kk,
                cc,
            ) by {
                if kk != k || cc != c {
                    assert(record_placed(before, rows@, kk, cc));
                }
            }
            c = c + 1;
        }
        k = k + 1;
    }
    flat
}

} // verus!
