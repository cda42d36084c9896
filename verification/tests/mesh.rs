//! Meshes: geometry, primitives, grids, rasterizer decisions, simplification and STL files.

use glam::{Mat4, Vec2, Vec3 as V, Vec4, Vec4Swizzles};
use rgfx::color::Color;
use rgfx::error::Error;
use rgfx::fill::{render_surfaces, Faces, Outline, RasterMath, Sample};
use rgfx::framebuffer::Framebuffer;
use rgfx::geometry::{BoundingBox, BoundingSphere, Mesh, Scene, Vec3, Vertex};
use rgfx::grid::{braille_render_size, grid_dims, grid_mesh, mesh_with_triangles};
use rgfx::primitives::{cube, smallest, tetrahedron, tetrahedron_radius};
use rgfx::raster::{
    clip_segment_near, clip_triangle_near, dedup_edges, edge_ok, fetch, in_front, is_top_left,
    pixel_range, triangle, winding, write_fragment, ClipVertex, ClippedSegment, Cull, FrontFace,
    Winding,
};
use rgfx::simplify::{
    axis_index, collapse_faces, keep_faces, needs_simplifying, simplify_scene, Blend, Face, Grid,
    GridSearch,
};
use rgfx::single::Single;
use rgfx::stl::{
    check_tolerance, face_positions, flat_mesh, parse_failure, parse_stl, weld_mesh, with_normals,
    StlMesh, StlOptions, StlStats,
};
use rgfx::viewport::Viewport;
use rgfx::weld::{weld, CellKey};
use rgfx::wire::{render_wireframe, WireMath};

fn single(x: f32) -> Single {
    Single::from_bits(x.to_bits())
}

fn float(x: Single) -> f32 {
    f32::from_bits(x.to_bits())
}

fn vec3(v: V) -> Vec3 {
    Vec3::new(single(v.x), single(v.y), single(v.z))
}

fn glam(v: Vec3) -> V {
    V::new(float(v.x), float(v.y), float(v.z))
}

// --- Geometry ---------------------------------------------------------------------------------

fn tri(a: V, b: V, c: V) -> Mesh {
    Mesh::new(
        vec![
            Vertex::from_position(vec3(a)),
            Vertex::from_position(vec3(b)),
            Vertex::from_position(vec3(c)),
        ],
        vec![0, 1, 2],
    )
}

#[test]
fn triangle_and_vertex_counts() {
    let scene = Scene::new(
        "t".to_string(),
        vec![tri(V::ZERO, V::X, V::Y), tri(V::ZERO, V::Y, V::Z)],
    );
    assert_eq!(scene.triangle_count(), 2);
    assert_eq!(scene.vertex_count(), 6);
}

#[test]
fn bounding_box_encloses_points() {
    let bb = BoundingBox::from_points(&[
        vec3(V::new(-1.0, 0.0, 2.0)),
        vec3(V::new(3.0, -4.0, 0.0)),
    ])
    .unwrap();
    assert_eq!(glam(bb.min), V::new(-1.0, -4.0, 0.0));
    assert_eq!(glam(bb.max), V::new(3.0, 0.0, 2.0));
    assert_eq!((glam(bb.min) + glam(bb.max)) * 0.5, V::new(1.0, -2.0, 1.0));
}

#[test]
fn empty_points_have_no_box() {
    assert!(BoundingBox::from_points(&[]).is_none());
    assert!(Scene::default().bounding_box().is_none());
}

#[test]
fn bounding_box_is_tight_on_every_axis() {
    let points: Vec<Vec3> = (0..20)
        .map(|i| vec3(V::new((i * 7 % 20) as f32, -(i as f32), (i % 3) as f32)))
        .collect();
    let bb = BoundingBox::from_points(&points).unwrap();
    assert_eq!(glam(bb.min), V::new(0.0, -19.0, 0.0));
    assert_eq!(glam(bb.max), V::new(19.0, 0.0, 2.0));
}

// --- Primitives -------------------------------------------------------------------------------

#[test]
fn cube_has_expected_topology() {
    let m = cube(single(1.0));
    assert_eq!(m.vertices.len(), 8, "cube uses 8 shared corner vertices");
    assert_eq!(m.triangle_count(), 12, "cube has two triangles per face");
}

#[test]
fn cube_is_centered_and_sized() {
    let m = cube(single(2.0));
    let bb = m.bounding_box().unwrap();
    assert_eq!(glam(bb.min), V::splat(-2.0));
    assert_eq!(glam(bb.max), V::splat(2.0));
    assert_eq!((glam(bb.min) + glam(bb.max)) * 0.5, V::ZERO);
}

fn corners(m: &Mesh, t: &[u32]) -> (V, V, V) {
    (
        glam(m.vertices[t[0] as usize].position),
        glam(m.vertices[t[1] as usize].position),
        glam(m.vertices[t[2] as usize].position),
    )
}

#[test]
fn cube_faces_wind_outward() {
    let m = cube(single(1.0));
    for t in m.indices.chunks_exact(3) {
        let (a, b, c) = corners(&m, t);
        let normal = (b - a).cross(c - a);
        let centroid = (a + b + c) / 3.0;
        assert!(
            normal.dot(centroid) > 0.0,
            "triangle {t:?} should be wound counter-clockwise as seen from outside"
        );
    }
}

#[test]
fn cube_clamps_nonpositive_extent() {
    let m = cube(single(0.0));
    let bb = m.bounding_box().unwrap();
    let size = glam(bb.max) - glam(bb.min);
    assert!(size.x > 0.0 && size.y > 0.0 && size.z > 0.0);
    assert_eq!(float(smallest()), 1e-4);
}

fn tetra(circumradius: f32) -> Mesh {
    let r = float(tetrahedron_radius(single(circumradius)));
    tetrahedron(single(r / 3.0_f32.sqrt()))
}

#[test]
fn tetrahedron_has_expected_topology() {
    let m = tetra(1.0);
    assert_eq!(m.vertices.len(), 4);
    assert_eq!(m.triangle_count(), 4);
}

#[test]
fn tetrahedron_vertices_sit_on_circumsphere() {
    let m = tetra(3.0);
    for v in &m.vertices {
        assert!(
            (glam(v.position).length() - 3.0).abs() < 1e-4,
            "vertex should sit at the requested circumradius"
        );
    }
}

#[test]
fn tetrahedron_faces_wind_outward() {
    let m = tetra(1.0);
    let center = m
        .vertices
        .iter()
        .fold(V::ZERO, |acc, v| acc + glam(v.position))
        / 4.0;
    for t in m.indices.chunks_exact(3) {
        let (a, b, c) = corners(&m, t);
        let normal = (b - a).cross(c - a);
        let centroid = (a + b + c) / 3.0;
        assert!(
            normal.dot(centroid - center) > 0.0,
            "triangle {t:?} should face outward"
        );
    }
}

#[test]
fn closed_surfaces_use_each_edge_in_both_directions() {
    for m in [cube(single(1.0)), tetra(1.0)] {
        let mut directed = Vec::new();
        for t in m.indices.chunks_exact(3) {
            directed.push((t[0], t[1]));
            directed.push((t[1], t[2]));
            directed.push((t[2], t[0]));
        }
        for &(a, b) in &directed {
            assert_eq!(directed.iter().filter(|&&e| e == (a, b)).count(), 1);
            assert_eq!(directed.iter().filter(|&&e| e == (b, a)).count(), 1);
        }
    }
}

// --- Benchmark grids --------------------------------------------------------------------------

fn axis(n: usize) -> Vec<Single> {
    if n == 0 {
        return Vec::new();
    }
    (0..=n)
        .map(|i| single(-1.0 + 2.0 * (i as f32 / n as f32)))
        .collect()
}

fn grid_of(cols: usize, rows: usize) -> Mesh {
    grid_mesh(&axis(cols), &axis(rows))
}

fn triangles_of(n: usize) -> Mesh {
    let (c, r) = grid_dims(n / 2);
    mesh_with_triangles(n, &axis(c), &axis(r))
}

#[test]
fn grid_mesh_has_exact_triangle_count() {
    // cols * rows * 2 triangles, and shared vertices => (cols+1)*(rows+1) vertices.
    for &(c, r) in &[(1usize, 1usize), (25, 20), (7, 3), (100, 50)] {
        let mesh = grid_of(c, r);
        assert_eq!(
            mesh.triangle_count(),
            c * r * 2,
            "grid {c}x{r} triangle count"
        );
        assert_eq!(mesh.vertices.len(), (c + 1) * (r + 1));
    }
}

#[test]
fn empty_dimension_yields_empty_mesh() {
    assert_eq!(grid_of(0, 10).triangle_count(), 0);
    assert_eq!(grid_of(10, 0).triangle_count(), 0);
    assert!(grid_of(0, 0).vertices.is_empty());
}

#[test]
fn grid_dims_multiply_back_to_quads() {
    for quads in [0usize, 1, 2, 3, 500, 5_000, 50_000, 500_000, 499_999] {
        let (c, r) = grid_dims(quads);
        assert_eq!(c * r, quads, "grid_dims({quads}) must factor exactly");
    }
}

#[test]
fn grid_dims_are_as_square_as_can_be() {
    assert_eq!(grid_dims(500), (25, 20));
    assert_eq!(grid_dims(36), (6, 6));
    assert_eq!(grid_dims(13), (13, 1));
    assert_eq!(grid_dims(0), (0, 0));
}

#[test]
fn standard_counts_are_exact() {
    for &n in &[1_000usize, 10_000, 100_000, 1_000_000] {
        let mesh = triangles_of(n);
        assert_eq!(mesh.triangle_count(), n, "mesh_with_triangles({n})");
    }
}

#[test]
fn arbitrary_counts_including_odd_are_exact() {
    for n in [0usize, 1, 2, 3, 7, 999, 1_001, 12_345, 250_001] {
        let mesh = triangles_of(n);
        assert_eq!(mesh.triangle_count(), n, "mesh_with_triangles({n})");
        assert_eq!(mesh.indices.len(), n * 3, "index count for {n} triangles");
    }
}

#[test]
fn generated_mesh_indices_are_all_in_range() {
    for n in [2usize, 7, 1_000, 4_321] {
        let mesh = triangles_of(n);
        let max = mesh.vertices.len() as u32;
        assert!(
            mesh.indices.iter().all(|&i| i < max),
            "all indices in range for {n} triangles"
        );
    }
}

#[test]
fn grid_cells_wind_counter_clockwise() {
    let mesh = grid_of(1, 1);
    assert_eq!(mesh.indices, vec![0, 1, 3, 0, 3, 2]);
    assert_eq!(glam(mesh.vertices[0].position), V::new(-1.0, -1.0, 0.0));
    assert_eq!(glam(mesh.vertices[3].position), V::new(1.0, 1.0, 0.0));
    assert!(mesh.vertices.iter().all(|v| glam(v.normal) == V::Z));
}

#[test]
fn odd_triangle_stands_alone() {
    let mesh = triangles_of(3);
    assert_eq!(mesh.indices[6..], [4, 5, 6]);
    assert_eq!(glam(mesh.vertices[6].position), V::new(0.0, 1.0, 0.0));
}

#[test]
fn braille_cells_hold_two_by_four_pixels() {
    assert_eq!(braille_render_size(Viewport::new(40, 20)), (80, 80));
}

// --- Rasterizer -------------------------------------------------------------------------------

#[derive(Clone, Copy)]
struct ScreenVertex {
    pos: Vec2,
    depth: f32,
}

fn sv(x: f32, y: f32, depth: f32) -> ScreenVertex {
    ScreenVertex {
        pos: Vec2::new(x, y),
        depth,
    }
}

fn orient(a: Vec2, b: Vec2, c: Vec2) -> f32 {
    (b.x - a.x) * (c.y - a.y) - (b.y - a.y) * (c.x - a.x)
}

fn outline(a: ScreenVertex, b: ScreenVertex, c: ScreenVertex) -> Outline {
    let edge = |from: Vec2, to: Vec2| (single(to.x - from.x), single(to.y - from.y));
    let extent = |a: f32, b: f32, c: f32| {
        let low = a.min(b).min(c).floor().max(0.0) as usize;
        (low, a.max(b).max(c).ceil() as usize)
    };
    Outline {
        first: edge(b.pos, c.pos),
        second: edge(c.pos, a.pos),
        third: edge(a.pos, b.pos),
        columns: extent(a.pos.x, b.pos.x, c.pos.x),
        rows: extent(a.pos.y, b.pos.y, c.pos.y),
    }
}

fn sample(a: ScreenVertex, b: ScreenVertex, c: ScreenVertex, x: usize, y: usize) -> Sample {
    let at = Vec2::new(x as f32 + 0.5, y as f32 + 0.5);
    let e = [
        orient(b.pos, c.pos, at),
        orient(c.pos, a.pos, at),
        orient(a.pos, b.pos, at),
    ];
    let inv_area = 1.0 / orient(a.pos, b.pos, c.pos);
    let depth = e[0] * inv_area * a.depth + e[1] * inv_area * b.depth + e[2] * inv_area * c.depth;
    Sample {
        edges: (single(e[0]), single(e[1]), single(e[2])),
        depth: single(depth),
    }
}

fn area(a: ScreenVertex, b: ScreenVertex, c: ScreenVertex) -> Single {
    single(orient(a.pos, b.pos, c.pos))
}

/// Fills one triangle in one colour.
fn fill_triangle(
    verts: [ScreenVertex; 3],
    front_face: FrontFace,
    cull: Cull,
    color: Color,
    target: &mut Framebuffer,
) {
    let math = RasterMath {
        transform: |_: Vertex, _: Vertex, _: Vertex| ((), (), ()),
        near: |_: ()| single(0.0),
        crossing: |_: (), _: ()| (),
        project: |_: (), _: usize, _: usize| -> Option<ScreenVertex> { None },
        area,
        outline,
        sample,
        shade: |_: ScreenVertex, _: ScreenVertex, _: ScreenVertex, _: usize, _: usize| color,
    };
    let faces = Faces { front_face, cull };
    rgfx::fill::fill_triangle((verts[0], verts[1], verts[2]), faces, target, &math);
}

fn project(clip: Vec4, w: usize, h: usize) -> Option<ScreenVertex> {
    if clip.w <= 0.0 || !clip.w.is_finite() {
        return None;
    }
    let ndc = clip.xyz() / clip.w;
    let x = (ndc.x * 0.5 + 0.5) * w as f32;
    let y = (1.0 - (ndc.y * 0.5 + 0.5)) * h as f32;
    (x.is_finite() && y.is_finite() && ndc.z.is_finite()).then(|| sv(x, y, ndc.z))
}

fn crossing(a: Vec4, b: Vec4) -> Vec4 {
    a.lerp(b, a.z / (a.z - b.z))
}

/// Renders a scene as seen by a camera, brighter where it is nearer.
fn render_depth(scene: &Scene, view_proj: Mat4, fb: &mut Framebuffer) -> Result<(), Error> {
    let clip = |v: Vertex| view_proj * glam(v.position).extend(1.0);
    let math = RasterMath {
        transform: |a: Vertex, b: Vertex, c: Vertex| (clip(a), clip(b), clip(c)),
        near: |c: Vec4| single(c.z),
        crossing,
        project,
        area,
        outline,
        sample,
        shade: |a: ScreenVertex, b: ScreenVertex, c: ScreenVertex, x: usize, y: usize| {
            let g = single((1.0 - float(sample(a, b, c, x, y).depth)).clamp(0.0, 1.0));
            Color::rgb(g, g, g)
        },
    };
    let faces = Faces {
        front_face: FrontFace::CounterClockwise,
        cull: Cull::Back,
    };
    render_surfaces(scene, faces, Color::transparent(), fb, &math)
}

/// Renders the edges of a scene as seen by a camera.
fn render_wires(scene: &Scene, view_proj: Mat4, fb: &mut Framebuffer) -> Result<(), Error> {
    let math = WireMath {
        transform: |v: Vertex| view_proj * glam(v.position).extend(1.0),
        near: |c: Vec4| single(c.z),
        crossing,
        place: |c: Vec4, w: usize, h: usize| {
            project(c, w, h).map(|s| (s.pos.x.round() as i32, s.pos.y.round() as i32))
        },
    };
    render_wireframe(scene, Color::white(), Color::transparent(), fb, &math)
}

fn unit_cube() -> Mesh {
    // 24 vertices (per-face normals), 12 triangles, wound CCW when viewed from outside.
    let faces = [
        (V::Z, V::X, V::Y),
        (V::NEG_Z, V::NEG_X, V::Y),
        (V::X, V::NEG_Z, V::Y),
        (V::NEG_X, V::Z, V::Y),
        (V::Y, V::X, V::NEG_Z),
        (V::NEG_Y, V::X, V::Z),
    ];
    let mut vertices = Vec::new();
    let mut indices = Vec::new();
    for (normal, right, up) in faces {
        let base = vertices.len() as u32;
        for (a, b) in [(-1.0, -1.0), (1.0, -1.0), (1.0, 1.0), (-1.0, 1.0)] {
            let p = normal + right * a + up * b;
            vertices.push(Vertex::new(vec3(p), vec3(normal)));
        }
        indices.extend_from_slice(&[base, base + 1, base + 2, base, base + 2, base + 3]);
    }
    Mesh::new(vertices, indices)
}

fn cube_scene() -> Scene {
    Scene::new("cube".to_string(), vec![unit_cube()])
}

fn camera(target: V) -> Mat4 {
    let projection = Mat4::perspective_rh(60_f32.to_radians(), 1.0, 0.1, 100.0);
    projection * Mat4::look_at_rh(V::new(0.0, 0.0, 5.0), target, V::Y)
}

fn opaque_pixels(fb: &Framebuffer) -> Vec<(usize, usize)> {
    let mut out = Vec::new();
    for y in 0..fb.height() {
        for x in 0..fb.width() {
            if fb.get(x, y).visible() {
                out.push((x, y));
            }
        }
    }
    out
}

#[test]
fn renders_cube_depth_into_small_framebuffer() {
    let mut fb = Framebuffer::new(24, 24);
    render_depth(&cube_scene(), camera(V::ZERO), &mut fb).unwrap();

    assert!(!opaque_pixels(&fb).is_empty(), "cube must cover some pixels");
    // The center pixel faces the camera and must be nearer than the far plane.
    let center = float(fb.depth()[12 * 24 + 12]);
    assert!(center < 1.0, "center of cube must be in front of far plane");
    // Depth shading makes the front face non-black (nearer => brighter).
    assert!(float(fb.get(12, 12).r) > 0.0);
}

#[test]
fn offscreen_and_empty_targets_do_not_panic() {
    // Empty framebuffer.
    let mut empty = Framebuffer::new(0, 0);
    render_depth(&cube_scene(), camera(V::ZERO), &mut empty).unwrap();

    // Camera looking away from the cube: nothing on screen, no panic, no writes.
    let mut fb = Framebuffer::new(16, 16);
    render_depth(&cube_scene(), camera(V::new(0.0, 0.0, 50.0)), &mut fb).unwrap();
    // Nothing should be nearer than far.
    assert!(fb.depth().iter().all(|d| float(*d) == 1.0));
}

#[test]
fn orthographic_camera_renders_without_divide_issues() {
    let mut fb = Framebuffer::new(16, 16);
    let view_proj = Mat4::orthographic_rh(-2.0, 2.0, -2.0, 2.0, 0.1, 100.0)
        * Mat4::look_at_rh(V::new(0.0, 0.0, 5.0), V::ZERO, V::Y);
    render_depth(&cube_scene(), view_proj, &mut fb).unwrap();
    assert!(!opaque_pixels(&fb).is_empty());
}

#[test]
fn triangle_order_does_not_change_the_nearest() {
    let mut scene = cube_scene();
    scene.meshes.push(tri(
        V::new(-2.0, -2.0, -3.0),
        V::new(2.0, -2.0, -3.0),
        V::new(0.0, 2.0, -3.0),
    ));
    let mut fb = Framebuffer::new(24, 24);
    render_depth(&scene, camera(V::ZERO), &mut fb).unwrap();
    scene.meshes.reverse();
    let mut other = Framebuffer::new(24, 24);
    render_depth(&scene, camera(V::ZERO), &mut other).unwrap();
    assert_eq!(fb.depth(), other.depth());
    assert_eq!(fb.color(), other.color());
}

#[test]
fn wireframe_draws_edges_but_leaves_interior_empty() {
    let mut fb = Framebuffer::new(24, 24);
    render_wires(&cube_scene(), camera(V::ZERO), &mut fb).unwrap();

    let lit = opaque_pixels(&fb);
    assert!(!lit.is_empty(), "wireframe must draw some edge pixels");

    // Within the bounding box of the drawn pixels there must be at least one empty pixel: a
    // solid fill would cover the whole box.
    let min_x = lit.iter().map(|p| p.0).min().unwrap();
    let max_x = lit.iter().map(|p| p.0).max().unwrap();
    let min_y = lit.iter().map(|p| p.1).min().unwrap();
    let max_y = lit.iter().map(|p| p.1).max().unwrap();
    let empty_inside = (min_y..=max_y)
        .flat_map(|y| (min_x..=max_x).map(move |x| (x, y)))
        .filter(|(x, y)| !fb.get(*x, *y).visible())
        .count();
    assert!(
        empty_inside > 0,
        "a wireframe must leave interior pixels empty"
    );

    // A solid render of the same scene covers strictly more pixels than the wireframe.
    let mut solid = Framebuffer::new(24, 24);
    render_depth(&cube_scene(), camera(V::ZERO), &mut solid).unwrap();
    assert!(
        opaque_pixels(&solid).len() > lit.len(),
        "solid fill must cover more pixels than the wireframe"
    );
}

#[test]
fn wireframe_snapshot_is_deterministic() {
    // The same scene and camera must produce an identical edge pixel set every time.
    let render = || {
        let mut fb = Framebuffer::new(20, 20);
        render_wires(&cube_scene(), camera(V::ZERO), &mut fb).unwrap();
        opaque_pixels(&fb)
    };
    assert_eq!(render(), render());
}

#[test]
fn wireframe_handles_empty_and_offscreen_targets() {
    // Zero-sized target: no panic, no writes.
    let mut empty = Framebuffer::new(0, 0);
    render_wires(&cube_scene(), camera(V::ZERO), &mut empty).unwrap();

    // Camera looking away: nothing drawn, no panic.
    let mut fb = Framebuffer::new(16, 16);
    render_wires(&cube_scene(), camera(V::new(0.0, 0.0, 50.0)), &mut fb).unwrap();
    assert!(opaque_pixels(&fb).is_empty());
}

#[test]
fn edges_and_fragments_are_told() {
    assert!(is_top_left(single(-1.0), single(0.0)) && !is_top_left(single(1.0), single(0.0)));
    assert!(is_top_left(single(1.0), single(-1.0)) && !is_top_left(single(1.0), single(1.0)));
    assert!(edge_ok(single(0.0), true) && !edge_ok(single(0.0), false));
    assert!(in_front(single(0.2), single(0.5)) && !in_front(single(0.5), single(0.5)));
}

fn unlit(tri: [ScreenVertex; 3], fb: &mut Framebuffer) {
    fill_triangle(
        tri,
        FrontFace::CounterClockwise,
        Cull::Neither,
        Color::white(),
        fb,
    );
}

#[test]
fn single_triangle_fills_expected_pixel_set() {
    let mut fb = Framebuffer::new(8, 8);
    // A right triangle with the right-angle at (1,1); hypotenuse from (5,1)->(1,5).
    unlit([sv(1.0, 1.0, 0.5), sv(5.0, 1.0, 0.5), sv(1.0, 5.0, 0.5)], &mut fb);

    // Pixel centers strictly inside must be covered.
    for &(x, y) in &[(1usize, 1usize), (2, 1), (1, 2), (2, 2), (1, 3)] {
        assert!(fb.get(x, y).visible(), "expected ({x},{y}) inside");
    }
    // Pixels clearly outside the triangle must not be.
    for &(x, y) in &[(5usize, 5usize), (4, 4), (0, 0), (6, 1), (1, 6)] {
        assert!(!fb.get(x, y).visible(), "expected ({x},{y}) outside");
    }
}

#[test]
fn shared_edge_has_no_gaps_or_double_cover() {
    // Two triangles split a rectangle along a diagonal; each interior pixel must be covered by
    // exactly one of them (top-left rule => watertight).
    let (w, h) = (16usize, 16usize);
    let (p00, p10) = (sv(2.0, 2.0, 0.5), sv(12.0, 2.0, 0.5));
    let (p01, p11) = (sv(2.0, 12.0, 0.5), sv(12.0, 12.0, 0.5));

    let mut fb_a = Framebuffer::new(w, h);
    let mut fb_b = Framebuffer::new(w, h);
    unlit([p00, p10, p01], &mut fb_a);
    unlit([p10, p11, p01], &mut fb_b);

    for y in 0..h {
        for x in 0..w {
            let a = fb_a.get(x, y).visible();
            let b = fb_b.get(x, y).visible();
            assert!(!(a && b), "double cover at ({x},{y})");
        }
    }
    // No gaps in the interior of the rectangle.
    for y in 3..11 {
        for x in 3..11 {
            let a = fb_a.get(x, y).visible();
            let b = fb_b.get(x, y).visible();
            assert!(a || b, "gap at ({x},{y})");
        }
    }
}

#[test]
fn nearer_triangle_occludes_farther() {
    let mut fb = Framebuffer::new(8, 8);
    let (zero, one) = (single(0.0), single(1.0));
    let paint = |tri, color, fb: &mut Framebuffer| {
        fill_triangle(tri, FrontFace::CounterClockwise, Cull::Neither, color, fb)
    };
    let far = [sv(0.0, 0.0, 0.9), sv(8.0, 0.0, 0.9), sv(0.0, 8.0, 0.9)];
    paint(far, Color::rgb(one, zero, zero), &mut fb);
    let near = [sv(0.0, 0.0, 0.2), sv(8.0, 0.0, 0.2), sv(0.0, 8.0, 0.2)];
    paint(near, Color::rgb(zero, one, zero), &mut fb);

    // Overlap region should show the nearer (green) triangle and its depth.
    let c = fb.get(1, 1);
    assert!(
        float(c.g) > 0.5 && float(c.r) < 0.5,
        "nearer triangle must win the depth test"
    );
    assert!((float(fb.depth()[8 + 1]) - 0.2).abs() < 1e-6);

    // Drawing the far triangle again must not overwrite the nearer one.
    paint(far, Color::rgb(zero, zero, one), &mut fb);
    let c = fb.get(1, 1);
    assert!(
        float(c.g) > 0.5,
        "farther triangle must not overwrite nearer"
    );
}

#[test]
fn backface_culling_respects_winding() {
    // Screen-space CCW triangle (Y-down): (0,0) -> (0,8) -> (8,0).
    let ccw = [sv(0.0, 0.0, 0.5), sv(0.0, 8.0, 0.5), sv(8.0, 0.0, 0.5)];
    // Reverse winding.
    let cw = [sv(0.0, 0.0, 0.5), sv(8.0, 0.0, 0.5), sv(0.0, 8.0, 0.5)];
    let drawn = |tri, cull| {
        let mut fb = Framebuffer::new(8, 8);
        fill_triangle(tri, FrontFace::CounterClockwise, cull, Color::white(), &mut fb);
        fb.color().iter().any(|c| c.visible())
    };
    // With CCW-in-NDC as front and back-face culling, exactly one of these is drawn.
    assert!(
        drawn(ccw, Cull::Back) != drawn(cw, Cull::Back),
        "exactly one winding must survive back-face culling"
    );
    // Disabling culling draws both.
    assert!(drawn(ccw, Cull::Neither) && drawn(cw, Cull::Neither));
    // Front-face culling keeps what back-face culling drops.
    let kept: Vec<bool> = [Cull::Neither, Cull::Back, Cull::Front]
        .iter()
        .map(|cull| drawn(ccw, *cull))
        .collect();
    assert_eq!(kept, vec![true, true, false]);
}

#[test]
fn degenerate_area_is_dropped() {
    for area in [0.0, -0.0, f32::NAN, f32::INFINITY, f32::NEG_INFINITY] {
        assert_eq!(
            winding(FrontFace::Clockwise, Cull::Neither, single(area)),
            Winding::Dropped
        );
    }
}

#[test]
fn depth_outside_the_volume_is_not_written() {
    let mut fb = Framebuffer::new(1, 1);
    for depth in [-0.1, 1.0, 1.5, f32::NAN] {
        assert!(!write_fragment(&mut fb, 0, 0, single(depth), Color::white()));
    }
    assert!(!fb.get(0, 0).visible());
    assert!(write_fragment(&mut fb, 0, 0, single(0.0), Color::white()));
    assert!(!write_fragment(&mut fb, 0, 0, single(0.0), Color::black()));
    assert_eq!(fb.get(0, 0), Color::white());
}

#[test]
fn pixel_ranges_stay_on_the_screen() {
    assert_eq!(pixel_range(2, 5, 8), Some((2, 5)));
    assert_eq!(pixel_range(2, 50, 8), Some((2, 7)));
    assert_eq!(pixel_range(9, 50, 8), None);
}

#[test]
fn near_clip_drops_fully_behind_triangle() {
    let poly = clip_triangle_near([single(-1.0), single(-1.0), single(-1.0)]);
    assert_eq!(
        poly.len(),
        0,
        "a triangle fully behind the near plane is removed"
    );
}

#[test]
fn near_clip_splits_crossing_triangle_into_quad() {
    // Two vertices in front (z >= 0), one behind: clipping yields a 4-vertex polygon.
    let z = [1.0f32, 1.0, -1.0];
    let poly = clip_triangle_near([single(z[0]), single(z[1]), single(z[2])]);
    assert_eq!(poly.len(), 4);
    for v in &poly {
        let clipped = match v {
            ClipVertex::Corner(i) => z[*i],
            ClipVertex::Crossing(i, j) => {
                let t = z[*i] / (z[*i] - z[*j]);
                z[*i] + (z[*j] - z[*i]) * t
            }
        };
        assert!(
            clipped >= -1e-6,
            "clipped vertices stay in front of near plane"
        );
    }
    assert_eq!(
        poly,
        vec![
            ClipVertex::Corner(0),
            ClipVertex::Corner(1),
            ClipVertex::Crossing(1, 2),
            ClipVertex::Crossing(2, 0),
        ]
    );
}

#[test]
fn visible_triangle_is_not_clipped() {
    let poly = clip_triangle_near([single(0.0), single(1.0), single(2.0)]);
    assert_eq!(
        poly,
        vec![
            ClipVertex::Corner(0),
            ClipVertex::Corner(1),
            ClipVertex::Corner(2)
        ]
    );
}

#[test]
fn clip_segment_near_trims_and_rejects() {
    // Fully behind the near plane -> rejected.
    assert_eq!(
        clip_segment_near(single(-1.0), single(-2.0)),
        ClippedSegment::Hidden
    );
    // Straddling the plane -> only the behind endpoint is moved.
    assert_eq!(
        clip_segment_near(single(1.0), single(-1.0)),
        ClippedSegment::Start,
        "the in-front endpoint is preserved"
    );
    assert_eq!(
        clip_segment_near(single(-1.0), single(1.0)),
        ClippedSegment::End
    );
    assert_eq!(
        clip_segment_near(single(0.0), single(1.0)),
        ClippedSegment::Whole
    );
}

#[test]
fn out_of_range_index_errors_without_panicking() {
    let mesh = Mesh::new(
        vec![Vertex::from_position(Vec3::zero())],
        vec![0, 1, 2],
    );
    let scene = Scene::new("bad".to_string(), vec![mesh.clone()]);
    let mut fb = Framebuffer::new(4, 4);
    let err = render_depth(&scene, camera(V::ZERO), &mut fb).unwrap_err();
    assert!(matches!(err, Error::Geometry(_)));
    let err = triangle(&mesh, 0).unwrap_err();
    assert!(matches!(err, Error::Geometry(_)));
    assert_eq!(
        err.message(),
        "invalid geometry: triangle index 1 out of range"
    );
    assert!(fetch(&mesh.vertices, 0).is_ok());
    assert!(fetch(&mesh.vertices, 1).is_err());
}

#[test]
fn wireframe_out_of_range_index_errors_without_panicking() {
    let mesh = Mesh::new(vec![Vertex::from_position(Vec3::zero())], vec![0, 1, 2]);
    let (i0, i1) = dedup_edges(&mesh.indices)[0];
    assert!(fetch(&mesh.vertices, i0).is_ok());
    let err = fetch(&mesh.vertices, i1).unwrap_err();
    assert!(matches!(err, Error::Geometry(_)));
    let scene = Scene::new("bad".to_string(), vec![mesh]);
    let mut fb = Framebuffer::new(8, 8);
    let err = render_wires(&scene, camera(V::ZERO), &mut fb).unwrap_err();
    assert!(matches!(err, Error::Geometry(_)));
}

#[test]
fn dedup_edges_drops_shared_diagonal() {
    // A quad split into two triangles sharing the (0,2) diagonal: 6 directed edges collapse to
    // 5 unique undirected edges.
    let edges = dedup_edges(&[0, 1, 2, 0, 2, 3]);
    assert_eq!(edges.len(), 5);
    // The shared diagonal appears exactly once, canonicalized as (min, max).
    assert_eq!(edges.iter().filter(|&&e| e == (0, 2)).count(), 1);
}

#[test]
fn dedup_edges_of_cube_recovers_expected_edge_count() {
    // 8-corner cube = 12 box edges + one diagonal per quad face (6) = 18 unique edges.
    let m = cube(single(1.0));
    assert_eq!(dedup_edges(&m.indices).len(), 18);
}

#[test]
fn dedup_edges_ignores_trailing_partial_triple() {
    // Two full triangles plus two stray indices: the stray pair forms no triangle and is
    // dropped.
    let edges = dedup_edges(&[0, 1, 2, 0, 2, 3, 9, 9]);
    assert_eq!(edges.len(), 5);
}

#[test]
fn edges_come_in_first_seen_order() {
    assert_eq!(
        dedup_edges(&[2, 1, 0, 0, 1, 3]),
        vec![(1, 2), (0, 1), (0, 2), (1, 3), (0, 3)]
    );
}

// --- Welding ----------------------------------------------------------------------------------

fn key(x: i64, y: i64, z: i64) -> CellKey {
    CellKey { x, y, z }
}

#[test]
fn equal_cells_share_a_number() {
    let keys = [
        key(0, 0, 0),
        key(1, -5, 2),
        key(0, 0, 0),
        key(i64::MAX, i64::MIN, 0),
        key(1, -5, 2),
    ];
    let w = weld(&keys);
    assert_eq!(w.remap, vec![0, 1, 0, 2, 1]);
    assert_eq!(w.firsts, vec![0, 1, 3]);
}

// --- Simplification ---------------------------------------------------------------------------

/// A dense `n` by `n` quad grid on the `z = 0` plane spanning the unit square.
fn dense_scene(n: usize) -> Scene {
    let side = n + 1;
    let mut vertices = Vec::with_capacity(side * side);
    for j in 0..side {
        for i in 0..side {
            let p = V::new(i as f32 / n as f32, j as f32 / n as f32, 0.0);
            vertices.push(Vertex::new(vec3(p), vec3(V::Z)));
        }
    }
    let mut indices = Vec::with_capacity(n * n * 6);
    for j in 0..n {
        for i in 0..n {
            let v00 = (j * side + i) as u32;
            let v10 = v00 + 1;
            let v01 = v00 + side as u32;
            let v11 = v01 + 1;
            indices.extend_from_slice(&[v00, v10, v11, v00, v11, v01]);
        }
    }
    Scene::new("grid".to_string(), vec![Mesh::new(vertices, indices)])
}

/// Lays a grid of the given resolution over a mesh.
fn lay_grid(mesh: &Mesh, bounds: &BoundingBox, res: u32) -> Grid {
    let (min, extent) = (glam(bounds.min), glam(bounds.max) - glam(bounds.min));
    let longest = extent.max_element();
    let dims = (extent / longest * res as f32).round().max(V::ONE);
    let cell = extent / dims;
    let steps = |p: V| {
        let s = ((p - min) / cell).floor();
        (s.x as i64, s.y as i64, s.z as i64)
    };
    Grid {
        cell: vec3(cell),
        cells: (dims.x as i64, dims.y as i64, dims.z as i64),
        steps: mesh.vertices.iter().map(|v| steps(glam(v.position))).collect(),
    }
}

/// Averages the vertices of each cell; the averages are plain float sums.
fn blend(mesh: &Mesh, remap: &[u32], cells: usize, faces: &[Face]) -> Blend {
    let mut sums = vec![(V::ZERO, 0.0f32); cells];
    for (v, &to) in mesh.vertices.iter().zip(remap) {
        sums[to as usize].0 += glam(v.position);
        sums[to as usize].1 += 1.0;
    }
    let points: Vec<V> = sums.iter().map(|(p, n)| *p / *n).collect();
    let slivers = faces
        .iter()
        .map(|f| {
            let (a, b, c) = (
                points[f.0 as usize],
                points[f.1 as usize],
                points[f.2 as usize],
            );
            (b - a).cross(c - a).length_squared() <= 1e-12
        })
        .collect();
    let vertices = points
        .iter()
        .map(|p| Vertex::new(vec3(*p), vec3(V::Z)))
        .collect();
    Blend { vertices, slivers }
}

/// Simplifies a scene to a budget.
fn simplify(scene: &Scene, target: usize) -> Scene {
    let bounds = scene.bounding_box();
    let longest = bounds.map(|b| single((glam(b.max) - glam(b.min)).max_element()));
    let estimate = ((target as f64).sqrt() * 3.0).ceil() as u32;
    simplify_scene(
        scene,
        target,
        longest,
        estimate,
        |i, res| lay_grid(&scene.meshes[i], &bounds.unwrap(), res),
        |i, remap, cells, faces| blend(&scene.meshes[i], remap, cells, faces),
    )
}

fn same_scene(a: &Scene, b: &Scene) -> bool {
    a.name == b.name
        && a.meshes.len() == b.meshes.len()
        && a.meshes
            .iter()
            .zip(&b.meshes)
            .all(|(x, y)| x.vertices == y.vertices && x.indices == y.indices)
}

fn no_zero_area_triangles(scene: &Scene) -> bool {
    scene.meshes.iter().all(|m| {
        m.indices.chunks_exact(3).all(|t| {
            let (a, b, c) = corners(m, t);
            t[0] != t[1]
                && t[1] != t[2]
                && t[0] != t[2]
                && (b - a).cross(c - a).length_squared() > 1e-12
        })
    })
}

#[test]
fn decimates_dense_grid_to_target_budget() {
    let scene = dense_scene(100); // 20_000 triangles
    assert_eq!(scene.triangle_count(), 20_000);
    let target = 2_000;
    let simplified = simplify(&scene, target);

    assert!(
        simplified.triangle_count() <= target,
        "must not exceed the target budget, got {}",
        simplified.triangle_count()
    );
    assert!(
        simplified.triangle_count() > 0,
        "must keep some geometry, not collapse to nothing"
    );
    assert!(
        no_zero_area_triangles(&simplified),
        "no degenerate or zero-area triangles may survive"
    );
}

#[test]
fn preserves_bounding_box_within_tolerance() {
    let scene = dense_scene(80);
    let original = scene.bounding_box().unwrap();
    let simplified = simplify(&scene, 1_500);
    let after = simplified.bounding_box().unwrap();

    let extent = glam(original.max) - glam(original.min);
    let tol = 0.12;
    let (lo, hi) = (glam(original.min), glam(original.max));
    assert!((glam(after.min).x - lo.x).abs() <= extent.x * tol);
    assert!((glam(after.min).y - lo.y).abs() <= extent.y * tol);
    assert!((glam(after.max).x - hi.x).abs() <= extent.x * tol);
    assert!((glam(after.max).y - hi.y).abs() <= extent.y * tol);
}

#[test]
fn is_deterministic() {
    let scene = dense_scene(64);
    let a = simplify(&scene, 1_000);
    let b = simplify(&scene, 1_000);
    assert_eq!(a.meshes.len(), b.meshes.len());
    for (ma, mb) in a.meshes.iter().zip(&b.meshes) {
        assert_eq!(ma.indices, mb.indices, "index lists must match exactly");
        assert_eq!(
            ma.vertices.len(),
            mb.vertices.len(),
            "vertex counts must match"
        );
        for (va, vb) in ma.vertices.iter().zip(&mb.vertices) {
            assert_eq!(va.position, vb.position, "welded positions must match");
        }
    }
}

#[test]
fn target_at_or_above_original_returns_unchanged() {
    let scene = dense_scene(10); // 200 triangles
    let same = simplify(&scene, 10_000);
    assert_eq!(same.triangle_count(), scene.triangle_count());
    assert!(same_scene(&same, &scene));
    assert!(same_scene(&simplify(&scene, scene.triangle_count()), &scene));
    let fewer = simplify(&scene, scene.triangle_count() - 1);
    assert!(fewer.triangle_count() < scene.triangle_count());
    assert_eq!((fewer.name.as_str(), fewer.meshes.len()), ("grid", 1));
}

#[test]
fn simplifying_takes_triangles_to_drop_and_an_extent() {
    assert!(needs_simplifying(10, 9, Some(single(1.0))));
    assert!(!needs_simplifying(10, 10, Some(single(1.0))));
    assert!(!needs_simplifying(0, 0, Some(single(1.0))));
    assert!(!needs_simplifying(10, 9, Some(single(0.0))));
    assert!(!needs_simplifying(10, 9, None));
}

#[test]
fn a_budget_of_nothing_leaves_nothing() {
    let mut scene = dense_scene(6);
    scene.meshes.push(scene.meshes[0].clone());
    let simplified = simplify(&scene, 0);
    assert_eq!(simplified.triangle_count(), 0);
    assert_eq!(simplified.meshes.len(), 2);
}

#[test]
fn empty_and_degenerate_scenes_are_safe() {
    // Empty scene: unchanged.
    let empty = Scene::new("empty".to_string(), vec![Mesh::default()]);
    assert_eq!(simplify(&empty, 10).triangle_count(), 0);

    // All vertices coincident (zero-size bounds): left unchanged, no panic, no divide by 0.
    let degenerate = Scene::new(
        "point".to_string(),
        vec![Mesh::new(
            vec![Vertex::from_position(Vec3::zero()); 3],
            vec![0, 1, 2],
        )],
    );
    assert_eq!(simplify(&degenerate, 1).triangle_count(), 1);
    assert!(same_scene(&simplify(&degenerate, 0), &degenerate));
}

#[test]
fn handles_half_million_triangle_mesh_without_panicking() {
    // (500+1)^2 vertices, 2*500*500 = 500_000 triangles.
    let scene = dense_scene(500);
    assert_eq!(scene.triangle_count(), 500_000);
    let target = 150_000;
    let simplified = simplify(&scene, target);
    assert!(simplified.triangle_count() <= target);
    assert!(simplified.triangle_count() > 0);
    assert!(no_zero_area_triangles(&simplified));
}

#[test]
fn axis_index_clamps_to_the_grid() {
    let cell = single(0.5);
    assert_eq!(axis_index(cell, 3, 8), 3);
    assert_eq!(axis_index(cell, -2, 8), 0);
    assert_eq!(axis_index(cell, 8, 8), 7);
    assert_eq!(axis_index(single(0.0), 5, 8), 0);
}

#[test]
fn faces_that_name_no_vertex_are_skipped() {
    let faces = collapse_faces(&[0, 1, 2, 0, 1, 9, 0, 3, 1, 4], &[0, 1, 2, 0]);
    assert_eq!(faces.len(), 1);
    assert_eq!(faces[0], (0, 1, 2));
    assert_eq!(keep_faces(&faces, &[false]), vec![0, 1, 2]);
    assert!(keep_faces(&faces, &[true]).is_empty());
}

#[test]
fn search_settles_on_the_finest_grid_within_budget() {
    let mut search = GridSearch::new(50, 30);
    while let Some(r) = search.probe() {
        search.report(2 * r as usize);
    }
    assert_eq!(search.resolution(), 25);
    let mut none = GridSearch::new(0, 2);
    assert_eq!(none.probe(), Some(2));
    while none.probe().is_some() {
        none.report(1);
    }
    assert_eq!(none.best, None);
    assert_eq!(none.resolution(), 1);
}

// --- STL --------------------------------------------------------------------------------------

/// The twelve triangles of the unit cube: the normal and the three corners of each.
const CUBE: [([f32; 3], [[f32; 3]; 3]); 12] = [
    // bottom (z=0), -Z
    (
        [0.0, 0.0, -1.0],
        [[0.0, 0.0, 0.0], [1.0, 1.0, 0.0], [1.0, 0.0, 0.0]],
    ),
    (
        [0.0, 0.0, -1.0],
        [[0.0, 0.0, 0.0], [0.0, 1.0, 0.0], [1.0, 1.0, 0.0]],
    ),
    // top (z=1), +Z
    (
        [0.0, 0.0, 1.0],
        [[0.0, 0.0, 1.0], [1.0, 0.0, 1.0], [1.0, 1.0, 1.0]],
    ),
    (
        [0.0, 0.0, 1.0],
        [[0.0, 0.0, 1.0], [1.0, 1.0, 1.0], [0.0, 1.0, 1.0]],
    ),
    // front (y=0), -Y
    (
        [0.0, -1.0, 0.0],
        [[0.0, 0.0, 0.0], [1.0, 0.0, 0.0], [1.0, 0.0, 1.0]],
    ),
    (
        [0.0, -1.0, 0.0],
        [[0.0, 0.0, 0.0], [1.0, 0.0, 1.0], [0.0, 0.0, 1.0]],
    ),
    // back (y=1), +Y
    (
        [0.0, 1.0, 0.0],
        [[0.0, 1.0, 0.0], [0.0, 1.0, 1.0], [1.0, 1.0, 1.0]],
    ),
    (
        [0.0, 1.0, 0.0],
        [[0.0, 1.0, 0.0], [1.0, 1.0, 1.0], [1.0, 1.0, 0.0]],
    ),
    // left (x=0), -X
    (
        [-1.0, 0.0, 0.0],
        [[0.0, 0.0, 0.0], [0.0, 0.0, 1.0], [0.0, 1.0, 1.0]],
    ),
    (
        [-1.0, 0.0, 0.0],
        [[0.0, 0.0, 0.0], [0.0, 1.0, 1.0], [0.0, 1.0, 0.0]],
    ),
    // right (x=1), +X
    (
        [1.0, 0.0, 0.0],
        [[1.0, 0.0, 0.0], [1.0, 1.0, 0.0], [1.0, 1.0, 1.0]],
    ),
    (
        [1.0, 0.0, 0.0],
        [[1.0, 0.0, 0.0], [1.0, 1.0, 1.0], [1.0, 0.0, 1.0]],
    ),
];

fn ascii_cube() -> String {
    let mut s = String::from("solid cube\n");
    for (n, vs) in CUBE {
        s.push_str(&format!("facet normal {} {} {}\n", n[0], n[1], n[2]));
        s.push_str("outer loop\n");
        for v in vs {
            s.push_str(&format!("vertex {} {} {}\n", v[0], v[1], v[2]));
        }
        s.push_str("endloop\n");
        s.push_str("endfacet\n");
    }
    s.push_str("endsolid cube\n");
    s
}

fn binary_cube() -> Vec<u8> {
    let mut b = vec![0u8; 80];
    b.extend_from_slice(&12u32.to_le_bytes());
    for (n, vs) in CUBE {
        for c in n {
            b.extend_from_slice(&c.to_le_bytes());
        }
        for v in vs {
            for c in v {
                b.extend_from_slice(&c.to_le_bytes());
            }
        }
        b.extend_from_slice(&0u16.to_le_bytes());
    }
    b
}

fn safe_normalize(v: V) -> V {
    if v.is_finite() && v.length_squared() > 1e-20 {
        v.normalize()
    } else {
        V::Z
    }
}

fn facet_normal(mesh: &StlMesh, face: usize) -> V {
    let stored = glam(mesh.faces[face].normal);
    if stored.is_finite() && stored.length_squared() > 1e-12 {
        return stored.normalize();
    }
    let [a, b, c] = face_positions(mesh, face).map(glam);
    safe_normalize((b - a).cross(c - a))
}

fn flat_scene(mesh: &StlMesh) -> Scene {
    let normals: Vec<Vec3> = (0..mesh.faces.len())
        .map(|f| vec3(facet_normal(mesh, f)))
        .collect();
    Scene::new("cube".to_string(), vec![flat_mesh(mesh, &normals)])
}

fn welded_scene(mesh: &StlMesh, tolerance: f32) -> Result<Scene, Error> {
    check_tolerance(single(tolerance), &tolerance.to_string())?;
    let inv = 1.0 / tolerance;
    let mut keys = Vec::new();
    for f in 0..mesh.faces.len() {
        for p in face_positions(mesh, f).map(glam) {
            let k = (p * inv).round();
            keys.push(key(k.x as i64, k.y as i64, k.z as i64));
        }
    }
    let welded = weld_mesh(mesh, &keys);
    let mut normals = vec![V::ZERO; welded.positions.len()];
    for (f, t) in welded.indices.chunks_exact(3).enumerate() {
        for &i in t {
            normals[i as usize] += facet_normal(mesh, f);
        }
    }
    let normals: Vec<Vec3> = normals.iter().map(|n| vec3(safe_normalize(*n))).collect();
    let vertices = with_normals(&welded.positions, &normals);
    Ok(Scene::new(
        "cube".to_string(),
        vec![Mesh::new(vertices, welded.indices)],
    ))
}

fn assert_unit_cube_bounds(scene: &Scene) {
    let bb = scene.bounding_box().expect("cube has a bounding box");
    assert!((glam(bb.min) - V::ZERO).length() < 1e-6, "min = {:?}", bb.min);
    assert!((glam(bb.max) - V::ONE).length() < 1e-6, "max = {:?}", bb.max);
}

#[test]
fn ascii_cube_loads_with_correct_counts_and_bounds() {
    let mesh = parse_stl(ascii_cube().as_bytes()).unwrap();
    let scene = flat_scene(&mesh);
    assert_eq!(scene.triangle_count(), 12);
    assert_eq!(scene.vertex_count(), 36); // flat: 3 unshared verts per triangle
    assert_unit_cube_bounds(&scene);
}

#[test]
fn binary_cube_loads_with_correct_counts_and_bounds() {
    let mesh = parse_stl(&binary_cube()).unwrap();
    let scene = flat_scene(&mesh);
    assert_eq!(scene.triangle_count(), 12);
    assert_eq!(scene.vertex_count(), 36);
    assert_unit_cube_bounds(&scene);
}

#[test]
fn ascii_and_binary_agree_on_geometry() {
    let sa = flat_scene(&parse_stl(ascii_cube().as_bytes()).unwrap());
    let sb = flat_scene(&parse_stl(&binary_cube()).unwrap());
    assert_eq!(sa.triangle_count(), sb.triangle_count());
    assert_eq!(sa.vertex_count(), sb.vertex_count());
    assert_eq!(sa.bounding_box(), sb.bounding_box());
}

#[test]
fn flat_vertices_carry_the_per_face_normal() {
    let scene = flat_scene(&parse_stl(&binary_cube()).unwrap());
    let mesh = &scene.meshes[0];
    // First two triangles are the -Z bottom face; all six vertices must have normal -Z.
    for v in &mesh.vertices[0..6] {
        assert!((glam(v.normal) - V::new(0.0, 0.0, -1.0)).length() < 1e-6);
    }
}

#[test]
fn flat_vertices_keep_the_corner_order() {
    let scene = flat_scene(&parse_stl(&binary_cube()).unwrap());
    let mesh = &scene.meshes[0];
    for (f, (_, vs)) in CUBE.iter().enumerate() {
        for (k, v) in vs.iter().enumerate() {
            assert_eq!(glam(mesh.vertices[3 * f + k].position), V::from(*v));
            assert_eq!(mesh.indices[3 * f + k] as usize, 3 * f + k);
        }
    }
}

#[test]
fn welding_merges_coincident_vertices() {
    let scene = welded_scene(&parse_stl(&binary_cube()).unwrap(), 1e-4).unwrap();
    let mesh = &scene.meshes[0];
    // A cube has 8 distinct corners; welding must collapse the 36 flat verts to 8.
    assert_eq!(mesh.vertices.len(), 8);
    assert_eq!(scene.triangle_count(), 12); // faces unchanged
    assert_eq!(mesh.indices.len(), 36); // index buffer rebuilt, still 12 tris
    assert!(mesh.indices.iter().all(|&i| (i as usize) < 8));
    // Every welded normal is unit length (smooth normals).
    for v in &mesh.vertices {
        assert!(
            (glam(v.normal).length() - 1.0).abs() < 1e-5,
            "normal = {:?}",
            v.normal
        );
    }
    assert_unit_cube_bounds(&scene);
}

#[test]
fn welded_corner_normal_points_diagonally_outward() {
    let scene = welded_scene(&parse_stl(&binary_cube()).unwrap(), 1e-4).unwrap();
    let mesh = &scene.meshes[0];
    // The corner at (1,1,1) should average the +X, +Y, +Z faces -> diagonal outward.
    let corner = mesh
        .vertices
        .iter()
        .find(|v| (glam(v.position) - V::ONE).length() < 1e-6)
        .expect("cube has a (1,1,1) corner");
    let expected = V::splat(1.0).normalize();
    assert!(
        (glam(corner.normal) - expected).length() < 1e-5,
        "normal = {:?}",
        corner.normal
    );
}

#[test]
fn stats_summarize_scene() {
    let scene = flat_scene(&parse_stl(&binary_cube()).unwrap());
    let sphere = scene.bounding_box().map(|b| BoundingSphere {
        center: vec3((glam(b.min) + glam(b.max)) * 0.5),
        radius: single((glam(b.max) - glam(b.min)).length() * 0.5),
    });
    let stats = StlStats::from_scene(&scene, sphere);
    assert_eq!(stats.triangle_count, 12);
    assert_eq!(stats.vertex_count, 36);
    assert!(stats.bounding_box.is_some());
    let sphere = stats.bounding_sphere.expect("has sphere");
    assert!((glam(sphere.center) - V::splat(0.5)).length() < 1e-6);
    assert!((float(sphere.radius) - 3.0_f32.sqrt() * 0.5).abs() < 1e-5);
}

#[test]
fn malformed_stl_is_an_error_not_a_panic() {
    // Starts with "solid " so it parses as ASCII, but the facet header is truncated.
    let bad = b"solid broken\nfacet normal 1 2\nendsolid broken\n";
    let result = parse_stl(bad);
    assert!(matches!(result, Err(Error::Decode(_))), "got {result:?}");
}

#[test]
fn truncated_binary_stl_is_an_error() {
    // Valid-looking header claiming triangles, but no triangle data follows.
    let mut bad = vec![0u8; 80];
    bad.extend_from_slice(&5u32.to_le_bytes());
    let result = parse_stl(&bad);
    assert!(matches!(result, Err(Error::Decode(_))), "got {result:?}");
}

#[test]
fn invalid_weld_tolerance_is_a_geometry_error() {
    let mesh = parse_stl(&binary_cube()).unwrap();
    let result = welded_scene(&mesh, 0.0);
    assert!(matches!(result, Err(Error::Geometry(_))));
    for bad in [-1.0, f32::NAN, f32::INFINITY] {
        assert!(check_tolerance(single(bad), "x").is_err());
    }
    assert!(check_tolerance(single(1e-6), "0.000001").is_ok());
    assert_eq!(StlOptions::default().weld_tolerance, None);
}

#[test]
fn parse_failures_keep_the_reason() {
    assert_eq!(
        parse_failure("why").message(),
        "decode error: failed to parse STL: why"
    );
}
