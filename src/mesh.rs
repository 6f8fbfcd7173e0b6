//! Index buffers of procedurally generated meshes.
//!
//! Vertex positions are computed by the caller; these functions only decide
//! which vertices each line or triangle joins, so that every index buffer
//! refers to the vertex layout its generator documents.

use vstd::arithmetic::div_mod::{lemma_mod_pos_bound, lemma_small_mod};
use vstd::prelude::*;

verus! {

/// The `i`-th edge of a closed loop of `slice` vertices joins vertex `i`
/// to its successor, the last one wrapping round to vertex 0.
pub open spec fn loop_successor(slice: int, i: int) -> int {
    (i + 1) % slice
}

/// Line-segment indices of a circle drawn with `slice` vertices,
/// numbered `0 .. slice` in order round the circle.
pub fn circle_indices(slice: u32) -> (r: Vec<[u32; 2]>)
    ensures
        r@.len() == slice,
        forall|i: int|
            0 <= i < slice ==> (#[trigger] r@[i])[0] == i && r@[i][1] == loop_successor(
                slice as int,
                i,
            ),
        indices_below(r@, slice as int),
{
    let mut is: Vec<[u32; 2]> = Vec::new();
    let mut i: u32 = 0;
    while i < slice
        invariant
            i <= slice,
            is@.len() == i,
            forall|k: int|
                0 <= k < i ==> (#[trigger] is@[k])[0] == k && is@[k][1] == loop_successor(
                    slice as int,
                    k,
                ),
            indices_below(is@, slice as int),
        decreases slice - i,
    {
        proof {
            lemma_small_mod(i as nat, slice as nat);
            lemma_mod_pos_bound(i + 1, slice as int);
        }
        is.push([i % slice, (i + 1) % slice]);
        i = i + 1;
    }
    is
}

/// `t` is the triangle joining vertices `a`, `b` and `c`, in that order.
pub open spec fn triangle_is(t: [u32; 3], a: int, b: int, c: int) -> bool {
    t[0] == a && t[1] == b && t[2] == c
}

/// Vertices of a shaded sphere: `stack + 1` rings, from the north pole
/// (ring 0) to the south pole (ring `stack`), each of `slice + 1` vertices,
/// the last one at the place of the first.
pub open spec fn sphere_vertex_count(slice: int, stack: int) -> int {
    (slice + 1) * (stack + 1)
}

/// Vertex `i` of ring `j` of a shaded sphere.
pub open spec fn sphere_vertex(slice: int, j: int, i: int) -> int {
    j * (slice + 1) + i
}

/// Position in the index buffer of the first of the two triangles that
/// cover the quad between rings `j`, `j + 1` and meridians `i`, `i + 1`.
pub open spec fn sphere_quad_start(slice: int, j: int, i: int) -> int {
    2 * (j * slice + i)
}

/// The index buffer `t` covers the quad between rings `j`, `j + 1` and
/// meridians `i`, `i + 1` with its two triangles, at their place.
pub open spec fn sphere_quad_covered(t: Seq<[u32; 3]>, slice: int, j: int, i: int) -> bool {
    let q = sphere_quad_start(slice, j, i);
    &&& 0 <= q
    &&& q + 1 < t.len()
    &&& triangle_is(
        t[q],
        sphere_vertex(slice, j, i),
        sphere_vertex(slice, j + 1, i),
        sphere_vertex(slice, j, i + 1),
    )
    &&& triangle_is(
        t[q + 1],
        sphere_vertex(slice, j, i + 1),
        sphere_vertex(slice, j + 1, i),
        sphere_vertex(slice, j + 1, i + 1),
    )
}

/// Every index in `t` names one of the first `count` vertices.
pub open spec fn indices_below<const N: usize>(t: Seq<[u32; N]>, count: int) -> bool {
    forall|k: int, c: int| 0 <= k < t.len() && 0 <= c < N ==> (#[trigger] t[k][c]) < count
}

/// Triangle indices of a shaded sphere of `slice` meridians and `stack`
/// bands: each band quad, taken band by band from the north and meridian by
/// meridian within a band, is split into two triangles.
pub fn sphere_indices(slice: u32, stack: u32) -> (r: Vec<[u32; 3]>)
    requires
        sphere_vertex_count(slice as int, stack as int) <= u32::MAX,
    ensures
        r@.len() == 2 * slice * stack,
        forall|j: int, i: int|
            0 <= j < stack && 0 <= i < slice ==> #[trigger] sphere_quad_covered(
                r@,
                slice as int,
                j,
                i,
            ),
        indices_below(r@, sphere_vertex_count(slice as int, stack as int)),
{
    let ghost n = slice as int;
    let ghost m = stack as int;
    let mut is: Vec<[u32; 3]> = Vec::new();
    let mut j: u32 = 0;
    while j < stack
        invariant
            j <= stack,
            sphere_vertex_count(n, m) <= u32::MAX,
            n == slice,
            m == stack,
            is@.len() == sphere_quad_start(n, j as int, 0),
            forall|jj: int, ii: int|
                0 <= jj < j && 0 <= ii < slice ==> #[trigger] sphere_quad_covered(
                    is@,
                    n,
                    jj,
                    ii,
                ),
            indices_below(is@, sphere_vertex_count(n, m)),
        decreases stack - j,
    {
        assert((j + 1) * (n + 1) + n < sphere_vertex_count(n, m) && (j + 1) * (n + 1) == j * (n
            + 1) + n + 1) by (nonlinear_arith)
            requires
                j < m,
                0 <= n,
        ;
        let k1: u32 = j * (slice + 1);
        let k2: u32 = k1 + slice + 1;
        let mut i: u32 = 0;
        while i < slice
            invariant
                j < stack,
                i <= slice,
                n == slice,
                m == stack,
                k1 == j * (n + 1),
                k2 == (j + 1) * (n + 1),
                k2 == k1 + n + 1,
                k2 + n < sphere_vertex_count(n, m),
                sphere_vertex_count(n, m) <= u32::MAX,
                is@.len() == sphere_quad_start(n, j as int, i as int),
                forall|jj: int, ii: int|
                    0 <= jj < j && 0 <= ii < slice || jj == j && 0 <= ii < i
                        ==> #[trigger] sphere_quad_covered(is@, n, jj, ii),
                indices_below(is@, sphere_vertex_count(n, m)),
            decreases slice - i,
        {
            let ghost before = is@;
            is.push([k1 + i, k2 + i, k1 + 1 + i]);
            is.push([k1 + 1 + i, k2 + i, k2 + 1 + i]);
            assert forall|jj: int, ii: int|
                0 <= jj < j && 0 <= ii < slice || jj == j && 0 <= ii <= i implies #[trigger] sphere_quad_covered(
                is@,
                n,
                jj,
                ii,
            ) by {
                if jj != j || ii != i {
                    assert(sphere_quad_covered(before, n, jj, ii));
                }
            }
            i = i + 1;
        }
        assert(sphere_quad_start(n, j as int, n) == sphere_quad_start(n, j + 1, 0))
            by (nonlinear_arith);
        j = j + 1;
    }
    assert(sphere_quad_start(n, m, 0) == 2 * n * m) by (nonlinear_arith);
    is
}

/// `e` is the line segment joining vertices `a` and `b`, in that order.
pub open spec fn edge_is(e: [u32; 2], a: int, b: int) -> bool {
    e[0] == a && e[1] == b
}

/// Vertices of a wireframe sphere of `slice` meridians and `stack` bands:
/// the north pole (vertex 0), `stack - 1` rings of `slice` vertices each,
/// then the south pole. With no band at all there is the north pole alone.
pub open spec fn frame_sphere_vertex_count(slice: int, stack: int) -> int {
    if stack == 0 {
        1
    } else {
        2 + slice * (stack - 1)
    }
}

/// Vertex `i` of ring `j` (from 1) of a wireframe sphere.
pub open spec fn frame_ring_vertex(slice: int, j: int, i: int) -> int {
    1 + slice * (j - 1) + i
}

/// The south pole of a wireframe sphere, the vertex after the last ring.
pub open spec fn frame_south_pole(slice: int, stack: int) -> int {
    1 + slice * (stack - 1)
}

/// Upper end of the meridian segment of band `j` on meridian `i`: the north
/// pole for the first band, else vertex `i` of ring `j`.
pub open spec fn frame_meridian_top(slice: int, j: int, i: int) -> int {
    if j == 0 {
        0
    } else {
        frame_ring_vertex(slice, j, i)
    }
}

/// Lower end of the meridian segment of band `j` on meridian `i`: vertex
/// `i` of ring `j + 1`, or the south pole for the last band. The first band
/// always leads to ring 1, so a sphere of a single band, which has no ring,
/// gets segments to vertices it does not have.
pub open spec fn frame_meridian_bottom(slice: int, stack: int, j: int, i: int) -> int {
    if j == 0 || j + 1 < stack {
        frame_ring_vertex(slice, j + 1, i)
    } else {
        frame_south_pole(slice, stack)
    }
}

/// The index buffer `t` holds, at its place, the segment of ring `j` from
/// its vertex `i` to the next one round the ring.
pub open spec fn frame_ring_edge_at(t: Seq<[u32; 2]>, slice: int, j: int, i: int) -> bool {
    let q = slice * (j - 1) + i;
    &&& 0 <= q < t.len()
    &&& edge_is(
        t[q],
        frame_ring_vertex(slice, j, i),
        frame_ring_vertex(slice, j, loop_successor(slice, i)),
    )
}

/// The index buffer `t` holds, at its place after all ring segments, the
/// meridian segment of band `j` on meridian `i`.
pub open spec fn frame_meridian_edge_at(
    t: Seq<[u32; 2]>,
    slice: int,
    stack: int,
    j: int,
    i: int,
) -> bool {
    let q = slice * (stack - 1) + j * slice + i;
    &&& 0 <= q < t.len()
    &&& edge_is(
        t[q],
        frame_meridian_top(slice, j, i),
        frame_meridian_bottom(slice, stack, j, i),
    )
}

/// Line-segment indices of a wireframe sphere of `slice` meridians and
/// `stack` bands: first the segments round each ring, ring by ring from the
/// north, then the meridian segments, band by band from the north.
pub fn frame_sphere_indices(slice: u32, stack: u32) -> (r: Vec<[u32; 2]>)
    requires
        frame_sphere_vertex_count(slice as int, stack as int) <= u32::MAX,
    ensures
        r@.len() == if stack == 0 {
            0
        } else {
            slice * (stack - 1) + slice * stack
        },
        forall|j: int, i: int|
            1 <= j < stack && 0 <= i < slice ==> #[trigger] frame_ring_edge_at(
                r@,
                slice as int,
                j,
                i,
            ),
        forall|j: int, i: int|
            0 <= j < stack && 0 <= i < slice ==> #[trigger] frame_meridian_edge_at(
                r@,
                slice as int,
                stack as int,
                j,
                i,
            ),
        stack >= 2 ==> indices_below(r@, frame_sphere_vertex_count(slice as int, stack as int)),
{
    let ghost n = slice as int;
    let ghost m = stack as int;
    let ghost count = frame_sphere_vertex_count(n, m);
    let mut is: Vec<[u32; 2]> = Vec::new();
    let mut j: u32 = 1;
    while j < stack
        invariant
            1 <= j,
            j <= stack || stack == 0,
            stack == 0 ==> j == 1,
            n == slice,
            m == stack,
            count == frame_sphere_vertex_count(n, m),
            count <= u32::MAX,
            is@.len() == n * (j - 1),
            forall|jj: int, ii: int|
                1 <= jj < j && 0 <= ii < slice ==> #[trigger] frame_ring_edge_at(is@, n, jj, ii),
            m >= 2 ==> indices_below(is@, count),
        decreases stack - j,
    {
        assert(n * (j - 1) + n <= n * (m - 1) && n * (j - 1) + n == n * j)
            by (nonlinear_arith)
            requires
                1 <= j < m,
                0 <= n,
        ;
        let base: u32 = 1 + slice * (j - 1);
        let mut i: u32 = 0;
        while i < slice
            invariant
                1 <= j < stack,
                i <= slice,
                n == slice,
                m == stack,
                count == frame_sphere_vertex_count(n, m),
                count <= u32::MAX,
                base == frame_ring_vertex(n, j as int, 0),
                base + n <= count - 1,
                is@.len() == n * (j - 1) + i,
                forall|jj: int, ii: int|
                    1 <= jj < j && 0 <= ii < slice || jj == j && 0 <= ii < i
                        ==> #[trigger] frame_ring_edge_at(is@, n, jj, ii),
                m >= 2 ==> indices_below(is@, count),
            decreases slice - i,
        {
            proof {
                lemma_small_mod(i as nat, slice as nat);
            }
            let ghost before = is@;
            is.push([base + i % slice, base + (i + 1) % slice]);
            assert forall|jj: int, ii: int|
                1 <= jj < j && 0 <= ii < slice || jj == j && 0 <= ii <= i implies #[trigger] frame_ring_edge_at(
                is@,
                n,
                jj,
                ii,
            ) by {
                if jj != j || ii != i {
                    assert(frame_ring_edge_at(before, n, jj, ii));
                }
            }
            i = i + 1;
        }
        j = j + 1;
    }
    let ghost rings = is@.len();
    assert(rings == if m == 0 { 0 } else { n * (m - 1) }) by {
        if m == 0 {
            assert(n * 0 == 0);
        }
    }
    let mut j: u32 = 0;
    while j < stack
        invariant
            j <= stack,
            n == slice,
            m == stack,
            count == frame_sphere_vertex_count(n, m),
            count <= u32::MAX,
            rings == if m == 0 { 0 } else { n * (m - 1) },
            is@.len() == rings + j * n,
            forall|jj: int, ii: int|
                1 <= jj < m && 0 <= ii < slice ==> #[trigger] frame_ring_edge_at(is@, n, jj, ii),
            forall|jj: int, ii: int|
                0 <= jj < j && 0 <= ii < slice ==> #[trigger] frame_meridian_edge_at(
                    is@,
                    n,
                    m,
                    jj,
                    ii,
                ),
            m >= 2 ==> indices_below(is@, count),
        decreases stack - j,
    {
        assert(j * n + n == (j + 1) * n && (j >= 1 ==> n * (j - 1) + n == n * j) && (j + 1 < m
            ==> n * j + n <= n * (m - 1))) by (nonlinear_arith)
            requires
                j < m,
                0 <= n,
        ;
        let top: u32 = if j == 0 {
            0
        } else {
            1 + slice * (j - 1)
        };
        let mut i: u32 = 0;
        while i < slice
            invariant
                j < stack,
                i <= slice,
                n == slice,
                m == stack,
                count == frame_sphere_vertex_count(n, m),
                count <= u32::MAX,
                j == 0 ==> top == 0,
                j > 0 ==> top == frame_ring_vertex(n, j as int, 0),
                j > 0 ==> top + n <= count - 1,
                j + 1 < m ==> frame_ring_vertex(n, j + 1, 0) + n <= count - 1,
                j * n + n == (j + 1) * n,
                j >= 1 ==> n * (j - 1) + n == n * j,
                frame_ring_vertex(n, j + 1, 0) == 1 + n * j,
                rings == if m == 0 { 0 } else { n * (m - 1) },
                is@.len() == rings + j * n + i,
                forall|jj: int, ii: int|
                    1 <= jj < m && 0 <= ii < slice ==> #[trigger] frame_ring_edge_at(
                        is@,
                        n,
                        jj,
                        ii,
                    ),
                forall|jj: int, ii: int|
                    0 <= jj < j && 0 <= ii < slice || jj == j && 0 <= ii < i
                        ==> #[trigger] frame_meridian_edge_at(is@, n, m, jj, ii),
                m >= 2 ==> indices_below(is@, count),
            decreases slice - i,
        {
            proof {
                lemma_small_mod(i as nat, slice as nat);
            }
            let edge: [u32; 2] = if j == 0 {
                [0, 1 + i % slice]
            } else if j == stack - 1 {
                [top + i, 1 + slice * (stack - 1)]
            } else {
                [top + i, top + slice + i]
            };
            let ghost before = is@;
            is.push(edge);
            assert forall|jj: int, ii: int|
                1 <= jj < m && 0 <= ii < slice implies #[trigger] frame_ring_edge_at(
                is@,
                n,
                jj,
                ii,
            ) by {
                assert(frame_ring_edge_at(before, n, jj, ii));
            }
            assert forall|jj: int, ii: int|
                0 <= jj < j && 0 <= ii < slice || jj == j && 0 <= ii <= i implies #[trigger] frame_meridian_edge_at(
                is@,
                n,
                m,
                jj,
                ii,
            ) by {
                if jj != j || ii != i {
                    assert(frame_meridian_edge_at(before, n, m, jj, ii));
                }
            }
            i = i + 1;
        }
        j = j + 1;
    }
    assert(rings + m * n == if m == 0 { 0 } else { n * (m - 1) + n * m }) by (nonlinear_arith)
        requires
            rings == if m == 0 { 0 } else { n * (m - 1) },
    ;
    is
}

} // verus!
