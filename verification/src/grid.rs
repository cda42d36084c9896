//! Procedural grid meshes with an exact triangle count.

use crate::geometry::{Mesh, Vec3, Vertex};
use crate::single::Single;
use crate::viewport::Viewport;
use vstd::prelude::*;

verus! {

/// The `+Z` direction.
#[verifier::allow_in_spec]
pub fn unit_z() -> Vec3
    returns
        (Vec3 { x: Single::zero(), y: Single::zero(), z: Single::one() }),
{
    Vec3 { x: Single::zero(), y: Single::zero(), z: Single::one() }
}

/// Whether `d` divides `n`.
pub open spec fn divides(d: int, n: int) -> bool {
    d != 0 && n % d == 0
}

/// Factors `quads` into a near-square `(cols, rows)` grid whose product is exactly `quads`.
///
/// Picks the largest divisor of `quads` that is not above its square root as `rows`, giving the
/// most square-like grid available. Returns `(0, 0)` for no quads.
pub fn grid_dims(quads: usize) -> (d: (usize, usize))
    ensures
        d.0 * d.1 == quads,
        quads == 0 ==> d.0 == 0 && d.1 == 0,
        quads > 0 ==> divides(d.1 as int, quads as int) && d.1 * d.1 <= quads,
        forall|e: int|
            0 < e && e * e <= quads && #[trigger] divides(e, quads as int) ==> e <= d.1,
{
    if quads == 0 {
        assert forall|e: int|
            0 < e && e * e <= quads && #[trigger] divides(e, quads as int) implies e <= 0 by {
            assert(e * e > 0) by (nonlinear_arith)
                requires
                    0 < e,
            ;
        }
        let none: usize = 0;
        assert(none * none == 0) by (nonlinear_arith)
            requires
                none == 0,
        ;
        return (none, none);
    }
    let mut rows: usize = 1;
    let mut d: usize = 1;
    while d <= quads / d
        invariant
            0 < quads,
            1 <= d,
            d - 1 <= quads,
            1 <= rows,
            rows * rows <= quads,
            divides(rows as int, quads as int),
            forall|e: int| 0 < e < d && #[trigger] divides(e, quads as int) ==> e <= rows,
        decreases quads + 1 - d,
    {
        proof {
            vstd::arithmetic::div_mod::lemma_fundamental_div_mod(quads as int, d as int);
            vstd::arithmetic::div_mod::lemma_mod_bound(quads as int, d as int);
            let q = quads as int / d as int;
            assert(d * d <= d * q) by (nonlinear_arith)
                requires
                    d <= q,
                    1 <= d,
            ;
            assert(d <= d * d) by (nonlinear_arith)
                requires
                    1 <= d,
            ;
        }
        if quads % d == 0 {
            rows = d;
        }
        if d == usize::MAX {
            assert(d * d > usize::MAX) by (nonlinear_arith)
                requires
                    d == usize::MAX,
            ;
        }
        d = d + 1;
    }
    proof {
        vstd::arithmetic::div_mod::lemma_fundamental_div_mod(quads as int, rows as int);
        vstd::arithmetic::mul::lemma_mul_is_commutative(rows as int, quads as int / rows as int);
        assert forall|e: int|
            0 < e && e * e <= quads && #[trigger] divides(e, quads as int) implies e <= rows by {
            if e >= d {
                let q = quads as int / d as int;
                vstd::arithmetic::div_mod::lemma_fundamental_div_mod(quads as int, d as int);
                vstd::arithmetic::div_mod::lemma_mod_bound(quads as int, d as int);
                assert(quads < d * q + d);
                assert(d * (q + 1) == d * q + d) by (nonlinear_arith);
                assert(d * (q + 1) <= d * d) by (nonlinear_arith)
                    requires
                        q + 1 <= d,
                        1 <= d,
                ;
                assert(d * d <= e * e) by (nonlinear_arith)
                    requires
                        1 <= d <= e,
                ;
            }
        }
    }
    (quads / rows, rows)
}

/// The number of the grid point in column `i` of row `j`, where rows have `cols` quads.
pub open spec fn point(cols: nat, i: int, j: int) -> int {
    j * (cols + 1) + i
}

/// The six indices of quad number `q`: two triangles, counter-clockwise seen from `+Z`.
pub open spec fn quad_indices(cols: nat, q: int) -> Seq<u32> {
    let (i, j) = (q % cols as int, q / cols as int);
    let (v00, v10, v11, v01) = (
        point(cols, i, j) as u32,
        point(cols, i + 1, j) as u32,
        point(cols, i + 1, j + 1) as u32,
        point(cols, i, j + 1) as u32,
    );
    seq![v00, v10, v11, v00, v11, v01]
}

/// The indices of the first `n` quads.
pub open spec fn grid_indices(cols: nat, n: nat) -> Seq<u32>
    decreases n,
{
    if n == 0 {
        Seq::empty()
    } else {
        grid_indices(cols, (n - 1) as nat) + quad_indices(cols, n - 1)
    }
}

/// The vertices of the first `n` grid points of a grid with these coordinates on its axes.
pub open spec fn grid_points(xs: Seq<Single>, ys: Seq<Single>, n: nat) -> Seq<Vertex> {
    Seq::new(
        n,
        |k: int|
            Vertex {
                position: Vec3 {
                    x: xs[k % xs.len() as int],
                    y: ys[k / xs.len() as int],
                    z: Single::zero(),
                },
                normal: unit_z(),
            },
    )
}

proof fn lemma_grid_indices(cols: nat, rows: nat, n: nat)
    requires
        0 < cols,
        n <= cols * rows,
        (cols + 1) * (rows + 1) <= u32::MAX,
    ensures
        grid_indices(cols, n).len() == 6 * n,
        forall|k: int|
            0 <= k < 6 * n ==> (#[trigger] grid_indices(cols, n)[k]) < (cols + 1) * (rows + 1),
    decreases n,
{
    if n > 0 {
        lemma_grid_indices(cols, rows, (n - 1) as nat);
        lemma_quad_in_range(cols, rows, n - 1);
        let before = grid_indices(cols, (n - 1) as nat);
        let quad = quad_indices(cols, n - 1);
        assert forall|k: int| 0 <= k < 6 * n implies (#[trigger] grid_indices(cols, n)[k]) < (cols
            + 1) * (rows + 1) by {
            if k < before.len() {
                assert(grid_indices(cols, n)[k] == before[k]);
            } else {
                assert(grid_indices(cols, n)[k] == quad[k - before.len()]);
            }
        }
    }
}

proof fn lemma_quad_in_range(cols: nat, rows: nat, q: int)
    requires
        0 < cols,
        0 <= q < cols * rows,
        (cols + 1) * (rows + 1) <= u32::MAX,
    ensures
        0 <= q % cols as int,
        q % (cols as int) < cols,
        0 <= q / cols as int,
        q / (cols as int) < rows,
        point(cols, q % cols as int, q / cols as int) >= 0,
        point(cols, q % cols as int + 1, q / cols as int + 1) < (cols + 1) * (rows + 1),
        forall|k: int|
            0 <= k < 6 ==> (#[trigger] quad_indices(cols, q)[k]) < (cols + 1) * (rows + 1),
{
    crate::framebuffer::lemma_index_has_a_pixel(q, cols as int, rows as int);
    let (i, j) = (q % cols as int, q / cols as int);
    crate::framebuffer::lemma_index_in_plane(i + 1, j + 1, cols as int + 1, rows as int + 1);
    crate::framebuffer::lemma_index_in_plane(i, j + 1, cols as int + 1, rows as int + 1);
    crate::framebuffer::lemma_index_in_plane(i + 1, j, cols as int + 1, rows as int + 1);
    crate::framebuffer::lemma_index_in_plane(i, j, cols as int + 1, rows as int + 1);
}

/// Whether `m` is the grid over these coordinates.
pub open spec fn is_grid(xs: Seq<Single>, ys: Seq<Single>, m: Mesh) -> bool {
    &&& xs.len() <= 1 || ys.len() <= 1 ==> m.vertices@.len() == 0 && m.indices@.len() == 0
    &&& xs.len() > 1 && ys.len() > 1 ==> {
        let (cols, rows) = ((xs.len() - 1) as nat, (ys.len() - 1) as nat);
        &&& m.vertices@ == grid_points(xs, ys, xs.len() * ys.len())
        &&& m.indices@ == grid_indices(cols, cols * rows)
        &&& m.triangles() == cols * rows * 2
    }
}

/// Builds an indexed, triangulated grid mesh in the `z = 0` plane over the given coordinates on
/// both axes.
///
/// With `cols + 1` and `rows + 1` coordinates the grid has `cols * rows` quads, each split into two
/// triangles wound counter-clockwise as seen from `+Z`. Vertices are shared between adjacent quads.
/// Every vertex carries a `+Z` normal. Without a quad the mesh is empty.
pub fn grid_mesh(xs: &[Single], ys: &[Single]) -> (m: Mesh)
    requires
        xs@.len() * ys@.len() <= u32::MAX,
    ensures
        m.wf(),
        is_grid(xs@, ys@, m),
{
    let mut vertices: Vec<Vertex> = Vec::new();
    let mut indices: Vec<u32> = Vec::new();
    if xs.len() <= 1 || ys.len() <= 1 {
        return Mesh { vertices, indices };
    }
    let w: usize = xs.len();
    let h: usize = ys.len();
    let cols: usize = w - 1;
    let rows: usize = h - 1;
    let mut j: usize = 0;
    assert(0 * w == 0);
    while j < h
        invariant
            w == xs@.len(),
            h == ys@.len(),
            1 < w,
            w * h <= u32::MAX,
            j <= h,
            vertices@ == grid_points(xs@, ys@, (j * w) as nat),
        decreases h - j,
    {
        let mut i: usize = 0;
        while i < w
            invariant
                w == xs@.len(),
                h == ys@.len(),
                1 < w,
                w * h <= u32::MAX,
                j < h,
                i <= w,
                vertices@ == grid_points(xs@, ys@, (j * w + i) as nat),
            decreases w - i,
        {
            vertices.push(
                Vertex {
                    position: Vec3 { x: xs[i], y: ys[j], z: Single::zero() },
                    normal: unit_z(),
                },
            );
            proof {
                vstd::arithmetic::div_mod::lemma_fundamental_div_mod_converse(
                    j * w + i,
                    w as int,
                    j as int,
                    i as int,
                );
                assert(w * j == j * w) by (nonlinear_arith);
                assert(vertices@ =~= grid_points(xs@, ys@, (j * w + i + 1) as nat));
            }
            i = i + 1;
        }
        assert((j + 1) * w == j * w + w) by (nonlinear_arith);
        j = j + 1;
    }
    assert(h * w == w * h) by (nonlinear_arith);
    let mut j: usize = 0;
    assert(0 * cols == 0);
    while j < rows
        invariant
            w == cols + 1,
            h == rows + 1,
            0 < cols,
            w * h <= u32::MAX,
            j <= rows,
            indices@ == grid_indices(cols as nat, (j * cols) as nat),
        decreases rows - j,
    {
        let mut i: usize = 0;
        while i < cols
            invariant
                w == cols + 1,
                h == rows + 1,
                0 < cols,
                w * h <= u32::MAX,
                j < rows,
                i <= cols,
                indices@ == grid_indices(cols as nat, (j * cols + i) as nat),
            decreases cols - i,
        {
            let ghost q = j * cols + i;
            proof {
                crate::framebuffer::lemma_index_in_plane(
                    i as int,
                    j as int,
                    cols as int,
                    rows as int,
                );
                vstd::arithmetic::div_mod::lemma_fundamental_div_mod_converse(
                    q,
                    cols as int,
                    j as int,
                    i as int,
                );
                assert(cols * j == j * cols) by (nonlinear_arith);
                crate::framebuffer::lemma_index_in_plane(
                    i + 1,
                    j + 1,
                    w as int,
                    h as int,
                );
                assert((j + 1) * w == j * w + w) by (nonlinear_arith);
                assert(0 <= j * w) by (nonlinear_arith);
            }
            let v00: u32 = (j * w + i) as u32;
            let v10: u32 = v00 + 1;
            let v01: u32 = v00 + w as u32;
            let v11: u32 = v01 + 1;
            indices.push(v00);
            indices.push(v10);
            indices.push(v11);
            indices.push(v00);
            indices.push(v11);
            indices.push(v01);
            assert(indices@ =~= grid_indices(cols as nat, q as nat) + quad_indices(
                cols as nat,
                q,
            ));
            i = i + 1;
        }
        assert((j + 1) * cols == j * cols + cols) by (nonlinear_arith);
        j = j + 1;
    }
    assert(rows * cols == cols * rows) by (nonlinear_arith);
    assert(0 <= cols * rows) by (nonlinear_arith);
    proof {
        assert((cols + 1) * (rows + 1) == w * h);
        assert(cols * rows <= w * h) by (nonlinear_arith)
            requires
                w == cols + 1,
                h == rows + 1,
                0 <= cols,
                0 <= rows,
        ;
        lemma_grid_indices(cols as nat, rows as nat, (cols * rows) as nat);
    }
    Mesh { vertices, indices }
}

/// Builds a mesh with exactly `triangles` triangles, over the given coordinates on both axes of
/// the grid that `grid_dims` has for them.
///
/// Even counts are realized as a pure triangulated grid. An odd count adds a single independent
/// trailing triangle, so any count is reproduced exactly.
pub fn mesh_with_triangles(triangles: usize, xs: &[Single], ys: &[Single]) -> (m: Mesh)
    requires
        triangles >= 2 ==> xs@.len() > 1 && ys@.len() > 1 && (xs@.len() - 1) * (ys@.len() - 1)
            == triangles / 2,
        triangles < 2 ==> xs@.len() <= 1 || ys@.len() <= 1,
        xs@.len() * ys@.len() + 3 <= u32::MAX,
    ensures
        m.wf(),
        m.triangles() == triangles,
        ({
            let n = if triangles >= 2 {
                xs@.len() * ys@.len()
            } else {
                0
            };
            let k = if triangles >= 2 {
                6 * (triangles / 2)
            } else {
                0
            };
            &&& m.vertices@.take(n as int) == grid_points(xs@, ys@, n)
            &&& m.indices@.take(k as int) == grid_indices(
                (xs@.len() - 1) as nat,
                (triangles / 2) as nat,
            )
            &&& m.vertices@.len() == n + if triangles % 2 == 1 {
                3nat
            } else {
                0
            }
            &&& triangles % 2 == 1 ==> {
                &&& m.vertices@.skip(n as int) == odd_corners()
                &&& m.indices@.skip(k as int) == seq![n as u32, (n + 1) as u32, (n + 2) as u32]
            }
        }),
{
    let mut mesh = grid_mesh(xs, ys);
    let ghost n = mesh.vertices@.len();
    let ghost k = mesh.indices@.len();
    let ghost vertices = mesh.vertices@;
    let ghost indices = mesh.indices@;
    proof {
        if triangles >= 2 {
            let (cols, rows) = ((xs@.len() - 1) as nat, (ys@.len() - 1) as nat);
            assert(cols * rows <= xs@.len() * ys@.len()) by (nonlinear_arith)
                requires
                    cols == xs@.len() - 1,
                    rows == ys@.len() - 1,
            ;
            lemma_grid_indices(cols, rows, cols * rows);
        }
    }
    if triangles % 2 == 1 {
        let base: u32 = mesh.vertices.len() as u32;
        mesh.vertices.push(
            Vertex {
                position: Vec3 { x: minus_one(), y: minus_one(), z: Single::zero() },
                normal: unit_z(),
            },
        );
        mesh.vertices.push(
            Vertex {
                position: Vec3 { x: Single::one(), y: minus_one(), z: Single::zero() },
                normal: unit_z(),
            },
        );
        mesh.vertices.push(
            Vertex {
                position: Vec3 { x: Single::zero(), y: Single::one(), z: Single::zero() },
                normal: unit_z(),
            },
        );
        mesh.indices.push(base);
        mesh.indices.push(base + 1);
        mesh.indices.push(base + 2);
        assert(mesh.vertices@.skip(n as int) =~= odd_corners());
        assert(mesh.indices@.skip(k as int) =~= seq![n as u32, (n + 1) as u32, (n + 2) as u32]);
        assert forall|i: int| 0 <= i < mesh.indices@.len() implies (#[trigger] mesh.indices@[i])
            < mesh.vertices@.len() by {
            if i < k {
                assert(mesh.indices@[i] == indices[i]);
            }
        }
    }
    assert(mesh.vertices@.take(n as int) =~= vertices);
    assert(mesh.indices@.take(k as int) =~= indices);
    assert(triangles < 2 ==> grid_points(xs@, ys@, 0) =~= vertices);
    mesh
}

/// Minus one.
#[verifier::allow_in_spec]
pub fn minus_one() -> Single
    returns
        (Single { bits: 0xbf80_0000 }),
{
    Single { bits: 0xbf80_0000 }
}

/// The corners of the single triangle that makes a count odd.
pub open spec fn odd_corners() -> Seq<Vertex> {
    seq![
        Vertex {
            position: Vec3 { x: minus_one(), y: minus_one(), z: Single::zero() },
            normal: unit_z(),
        },
        Vertex {
            position: Vec3 { x: Single::one(), y: minus_one(), z: Single::zero() },
            normal: unit_z(),
        },
        Vertex {
            position: Vec3 { x: Single::zero(), y: Single::one(), z: Single::zero() },
            normal: unit_z(),
        },
    ]
}

/// The framebuffer pixel size a Braille encoder needs for a viewport of terminal cells.
pub fn braille_render_size(viewport: Viewport) -> (size: (usize, usize))
    ensures
        size.0 == viewport.cols * 2,
        size.1 == viewport.rows * 4,
{
    viewport.render_size(2, 4)
}

/// Whether corner `k` of the mesh's triangle list lies at these coordinates in the `z = 0` plane,
/// facing `+Z`.
pub open spec fn corner_is(m: Mesh, k: int, x: Single, y: Single) -> bool {
    let v = m.vertices@[m.indices@[k] as int];
    &&& v.position.x == x
    &&& v.position.y == y
    &&& v.position.z == Single::zero()
    &&& v.normal == (Vec3 { x: Single::zero(), y: Single::zero(), z: Single::one() })
}

proof fn lemma_quad_place(cols: nat, n: nat, q: int, k: int)
    requires
        0 <= q < n,
        0 <= k < 6,
    ensures
        grid_indices(cols, n).len() == 6 * n,
        grid_indices(cols, n)[6 * q + k] == quad_indices(cols, q)[k],
    decreases n,
{
    if n > 0 {
        let before = grid_indices(cols, (n - 1) as nat);
        if q < n - 1 {
            lemma_quad_place(cols, (n - 1) as nat, q, k);
        } else if n > 1 {
            lemma_quad_place(cols, (n - 1) as nat, 0, 0);
        }
        assert(before.len() == 6 * (n - 1));
    }
}

proof fn lemma_grid_corner(xs: Seq<Single>, ys: Seq<Single>, m: Mesh, i: int, j: int, k: int, di: int, dj: int)
    requires
        xs.len() > 1,
        ys.len() > 1,
        xs.len() * ys.len() <= u32::MAX,
        is_grid(xs, ys, m),
        0 <= i < xs.len() - 1,
        0 <= j < ys.len() - 1,
        0 <= k < 6,
        0 <= di <= 1,
        0 <= dj <= 1,
        di == 1 <==> k == 1 || k == 2 || k == 4,
        dj == 1 <==> k == 2 || k == 4 || k == 5,
    ensures
        corner_is(m, 6 * (j * (xs.len() - 1) + i) + k, xs[i + di], ys[j + dj]),
{
    let (cols, rows) = ((xs.len() - 1) as nat, (ys.len() - 1) as nat);
    let q = j * cols + i;
    crate::framebuffer::lemma_index_in_plane(i, j, cols as int, rows as int);
    lemma_quad_place(cols, cols * rows, q, k);
    vstd::arithmetic::div_mod::lemma_fundamental_div_mod_converse(q, cols as int, j, i);
    assert(cols * j == j * cols) by (nonlinear_arith);
    let at = point(cols, i + di, j + dj);
    crate::framebuffer::lemma_index_in_plane(i + di, j + dj, cols as int + 1, rows as int + 1);
    assert(at == (j + dj) * xs.len() + (i + di));
    vstd::arithmetic::div_mod::lemma_fundamental_div_mod_converse(
        at,
        xs.len() as int,
        j + dj,
        i + di,
    );
    assert(xs.len() * (j + dj) == (j + dj) * xs.len()) by (nonlinear_arith);
    assert(m.indices@[6 * q + k] == at as u32);
}

/// The quad in column `i` of row `j` spans the grid lines around it: its two triangles run
/// counter-clockwise from its lower corner, and together cover it.
pub proof fn law_quads_span_the_grid_lines(xs: Seq<Single>, ys: Seq<Single>, m: Mesh, i: int, j: int)
    requires
        xs.len() * ys.len() <= u32::MAX,
        is_grid(xs, ys, m),
        0 <= i < xs.len() - 1,
        0 <= j < ys.len() - 1,
    ensures
        ({
            let first = 6 * (j * (xs.len() - 1) + i);
            &&& corner_is(m, first, xs[i], ys[j])
            &&& corner_is(m, first + 1, xs[i + 1], ys[j])
            &&& corner_is(m, first + 2, xs[i + 1], ys[j + 1])
            &&& corner_is(m, first + 3, xs[i], ys[j])
            &&& corner_is(m, first + 4, xs[i + 1], ys[j + 1])
            &&& corner_is(m, first + 5, xs[i], ys[j + 1])
        }),
{
    lemma_grid_corner(xs, ys, m, i, j, 0, 0, 0);
    lemma_grid_corner(xs, ys, m, i, j, 1, 1, 0);
    lemma_grid_corner(xs, ys, m, i, j, 2, 1, 1);
    lemma_grid_corner(xs, ys, m, i, j, 3, 0, 0);
    lemma_grid_corner(xs, ys, m, i, j, 4, 1, 1);
    lemma_grid_corner(xs, ys, m, i, j, 5, 0, 1);
}

} // verus!
