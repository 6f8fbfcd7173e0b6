//! Element layout of square matrices stored row by row as `m[row][column]`.
//!
//! Nothing here looks at the entries themselves, so the functions are
//! generic in the element type: the same code lays out matrices of
//! integers, of fixed-point values or of the renderer's floats.

use vstd::prelude::*;

verus! {

/// `t` is the transpose of `m`: entry `(i, j)` of `t` is entry `(j, i)` of `m`.
pub open spec fn is_transpose<T, const N: usize>(m: [[T; N]; N], t: [[T; N]; N]) -> bool {
    forall|i: int, j: int| 0 <= i < N && 0 <= j < N ==> #[trigger] t[i][j] == m[j][i]
}

/// The transpose of a 4x4 matrix.
pub fn transpose4<T: Copy>(m: [[T; 4]; 4]) -> (t: [[T; 4]; 4])
    ensures
        is_transpose(m, t),
{
    [
        [m[0][0], m[1][0], m[2][0], m[3][0]],
        [m[0][1], m[1][1], m[2][1], m[3][1]],
        [m[0][2], m[1][2], m[2][2], m[3][2]],
        [m[0][3], m[1][3], m[2][3], m[3][3]],
    ]
}

/// The transpose of a 3x3 matrix.
pub fn transpose3<T: Copy>(m: [[T; 3]; 3]) -> (t: [[T; 3]; 3])
    ensures
        is_transpose(m, t),
{
    [[m[0][0], m[1][0], m[2][0]], [m[0][1], m[1][1], m[2][1]], [m[0][2], m[1][2], m[2][2]]]
}

/// Transposing twice gives back the matrix one started from.
pub proof fn lemma_transpose_involution<T, const N: usize>(
    m: [[T; N]; N],
    t: [[T; N]; N],
    u: [[T; N]; N],
)
    requires
        is_transpose(m, t),
        is_transpose(t, u),
    ensures
        u == m,
{
    assert forall|i: int| 0 <= i < N implies u[i] == m[i] by {
        assert forall|j: int| 0 <= j < N implies u[i][j] == m[i][j] by {
            assert(u[i][j] == t[j][i]);
        }
        assert(u[i] =~= m[i]);
    }
    assert(u =~= m);
}

/// `flat` lists the entries of `m` row by row: entry `(i, j)` stands at
/// position `N * i + j`.
pub open spec fn is_row_major<T, const N: usize, const L: usize>(
    m: [[T; N]; N],
    flat: [T; L],
) -> bool {
    &&& L == N * N
    &&& forall|i: int, j: int|
        0 <= i < N && 0 <= j < N ==> flat[N * i + j] == #[trigger] m[i][j]
}

/// The entries of a 4x4 matrix in row-major order, as a renderer uploads them.
pub fn row_major4<T: Copy>(m: [[T; 4]; 4]) -> (flat: [T; 16])
    ensures
        is_row_major(m, flat),
{
    [
        m[0][0], m[0][1], m[0][2], m[0][3],
        m[1][0], m[1][1], m[1][2], m[1][3],
        m[2][0], m[2][1], m[2][2], m[2][3],
        m[3][0], m[3][1], m[3][2], m[3][3],
    ]
}

/// The entries of a 3x3 matrix in row-major order.
pub fn row_major3<T: Copy>(m: [[T; 3]; 3]) -> (flat: [T; 9])
    ensures
        is_row_major(m, flat),
{
    [m[0][0], m[0][1], m[0][2], m[1][0], m[1][1], m[1][2], m[2][0], m[2][1], m[2][2]]
}

/// The transpose of the upper-left 3x3 block of a 4x4 matrix: the block
/// that carries rotation and scale, without translation, laid out as the
/// matrix that transforms surface normals.
pub fn transposed_upper_left<T: Copy>(m: [[T; 4]; 4]) -> (b: [[T; 3]; 3])
    ensures
        forall|i: int, j: int| 0 <= i < 3 && 0 <= j < 3 ==> #[trigger] b[i][j] == m[j][i],
{
    [[m[0][0], m[1][0], m[2][0]], [m[0][1], m[1][1], m[2][1]], [m[0][2], m[1][2], m[2][2]]]
}

} // verus!
