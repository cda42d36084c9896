//! Filling triangles, and rendering a scene out of them.
//!
//! Transforms, edge values, depths and shading are arithmetic that is handed in as closures, over
//! vertices in clip space and on the screen that only they look into. What is clipped and culled, which
//! pixels are tried, which of them a triangle covers, and which fragment stays, are decided here.

use crate::color::Color;
use crate::error::Error;
use crate::framebuffer::{
    depth_far, lemma_index_has_a_pixel, lemma_index_in_plane, lemma_index_is_injective,
    Framebuffer, Raster,
};
use crate::geometry::{Mesh, Scene, Vertex};
use crate::raster::{
    clip_triangle_near, clipped, corner, edge_covers, edge_ok, in_front, is_drawn, is_sound,
    is_top_left, last_pixel, law_clipping_leaves_a_polygon, misses_vertex, pixel_range, top_left,
    triangle, winding, wins, write_fragment, ClipVertex, Cull, FrontFace, Winding,
};
use crate::single::Single;
use vstd::prelude::*;

verus! {

/// How an edge of a triangle runs, and how far the triangle extends, on the screen.
#[derive(Clone, Copy, Debug)]
pub struct Outline {
    /// The extent of the edge from the second vertex to the third.
    pub first: (Single, Single),
    /// The extent of the edge from the third vertex to the first.
    pub second: (Single, Single),
    /// The extent of the edge from the first vertex to the second.
    pub third: (Single, Single),
    /// The columns between which the triangle lies, rounded outwards.
    pub columns: (usize, usize),
    /// The rows between which the triangle lies, rounded outwards.
    pub rows: (usize, usize),
}

/// What a triangle is at the middle of a pixel.
#[derive(Clone, Copy, Debug)]
pub struct Sample {
    /// The edge values, each for the edge opposite to a vertex.
    pub edges: (Single, Single, Single),
    /// The depth.
    pub depth: Single,
}

/// The arithmetic of rendering, on vertices in clip space and on the screen.
pub struct RasterMath<T, N, X, P, A, O, Q, H> {
    /// The vertices of a triangle in clip space.
    pub transform: T,
    /// How far a vertex is in front of the near plane.
    pub near: N,
    /// Where the edge between two vertices crosses the near plane.
    pub crossing: X,
    /// A vertex on a screen of some width and height, if it has a place there.
    pub project: P,
    /// Twice the signed area of a triangle on the screen.
    pub area: A,
    /// The outline of a triangle of positive area.
    pub outline: O,
    /// What such a triangle is at a pixel.
    pub sample: Q,
    /// The color of such a triangle at a pixel.
    pub shade: H,
}

/// The depth at a pixel.
pub open spec fn depth_at(r: Raster, x: int, y: int) -> Single {
    r.depth[y * r.width + x]
}

/// Whether a pixel is the same in both rasters.
pub open spec fn untouched(before: Raster, after: Raster, x: int, y: int) -> bool {
    after.pixel(x, y) == before.pixel(x, y) && depth_at(after, x, y) == depth_at(before, x, y)
}

/// Whether the triangle with that outline covers a sample: it is inside all three edges, or on such as
/// belong to the triangle.
pub open spec fn covers(o: Outline, s: Sample) -> bool {
    &&& edge_covers(s.edges.0, top_left(o.first.0, o.first.1))
    &&& edge_covers(s.edges.1, top_left(o.second.0, o.second.1))
    &&& edge_covers(s.edges.2, top_left(o.third.0, o.third.1))
}

/// Whether a pixel that is tried has become what it should: where the triangle covers it and is in front
/// of what was there, its depth and its shade; else what was there.
pub open spec fn settled<S, Q: Fn(S, S, S, usize, usize) -> Sample, H: Fn(S, S, S, usize, usize) -> Color>(
    v: (S, S, S),
    o: Outline,
    before: Raster,
    after: Raster,
    x: int,
    y: int,
    sample: Q,
    shade: H,
) -> bool {
    exists|s: Sample| #[trigger]
        call_ensures(sample, (v.0, v.1, v.2, x as usize, y as usize), s) && if covers(o, s) && wins(
            s.depth,
            depth_at(before, x, y),
        ) {
            &&& depth_at(after, x, y) == s.depth
            &&& call_ensures(shade, (v.0, v.1, v.2, x as usize, y as usize), after.pixel(x, y))
        } else {
            untouched(before, after, x, y)
        }
}

/// Whether a pixel lies where a triangle of that outline is tried.
pub open spec fn tried(o: Outline, r: Raster, x: int, y: int) -> bool {
    &&& o.columns.0 <= x <= last_pixel(o.columns.1, r.width as usize)
    &&& o.rows.0 <= y <= last_pixel(o.rows.1, r.height as usize)
}

/// Whether a pixel is what filling a triangle makes of it: settled where it is tried, else untouched.
pub open spec fn filled_at<S, Q: Fn(S, S, S, usize, usize) -> Sample, H: Fn(S, S, S, usize, usize) -> Color>(
    v: (S, S, S),
    o: Outline,
    before: Raster,
    after: Raster,
    x: int,
    y: int,
    sample: Q,
    shade: H,
) -> bool {
    if tried(o, before, x, y) {
        settled(v, o, before, after, x, y, sample, shade)
    } else {
        untouched(before, after, x, y)
    }
}

/// Whether `after` is `before` with a triangle of positive area filled in: only pixels that are tried
/// and covered change, and of those only such as it is in front of.
pub open spec fn fills<S, Q: Fn(S, S, S, usize, usize) -> Sample, H: Fn(S, S, S, usize, usize) -> Color>(
    v: (S, S, S),
    o: Outline,
    before: Raster,
    after: Raster,
    sample: Q,
    shade: H,
) -> bool {
    &&& after.wf()
    &&& after.width == before.width
    &&& after.height == before.height
    &&& forall|x: int, y: int|
        before.contains(x, y) ==> #[trigger] filled_at(
            v,
            o,
            before,
            after,
            x,
            y,
            sample,
            shade,
        )
}

/// Whether a pixel is settled where it was tried already, else untouched.
spec fn partly_filled_at<S, Q: Fn(S, S, S, usize, usize) -> Sample, H: Fn(S, S, S, usize, usize) -> Color>(
    v: (S, S, S),
    o: Outline,
    before: Raster,
    after: Raster,
    x: int,
    y: int,
    row: int,
    column: int,
    sample: Q,
    shade: H,
) -> bool {
    if tried(o, before, x, y) && (y < row || (y == row && x < column)) {
        settled(v, o, before, after, x, y, sample, shade)
    } else {
        untouched(before, after, x, y)
    }
}

/// Whether `after` is `before` once some of the pixels that are tried were: all in the rows above `row`,
/// and in that row those before `column`.
spec fn partly_filled<S, Q: Fn(S, S, S, usize, usize) -> Sample, H: Fn(S, S, S, usize, usize) -> Color>(
    v: (S, S, S),
    o: Outline,
    before: Raster,
    after: Raster,
    row: int,
    column: int,
    sample: Q,
    shade: H,
) -> bool {
    &&& after.wf()
    &&& after.width == before.width
    &&& after.height == before.height
    &&& forall|x: int, y: int|
        before.contains(x, y) ==> #[trigger] partly_filled_at(
            v,
            o,
            before,
            after,
            x,
            y,
            row,
            column,
            sample,
            shade,
        )
}

/// Whether the pixels that were tried are the same at both places of the loop.
proof fn lemma_same_progress<
    S,
    Q: Fn(S, S, S, usize, usize) -> Sample,
    H: Fn(S, S, S, usize, usize) -> Color,
>(
    v: (S, S, S),
    o: Outline,
    before: Raster,
    after: Raster,
    at: (int, int),
    to: (int, int),
    sample: Q,
    shade: H,
)
    requires
        partly_filled(v, o, before, after, at.0, at.1, sample, shade),
        forall|x: int, y: int|
            before.contains(x, y) && #[trigger] tried(o, before, x, y) ==> ((y < at.0 || (y == at.0 && x
                < at.1)) <==> (y < to.0 || (y == to.0 && x < to.1))),
    ensures
        partly_filled(v, o, before, after, to.0, to.1, sample, shade),
{
    assert forall|x: int, y: int| before.contains(x, y) implies #[trigger] partly_filled_at(
        v,
        o,
        before,
        after,
        x,
        y,
        to.0,
        to.1,
        sample,
        shade,
    ) by {
        assert(partly_filled_at(v, o, before, after, x, y, at.0, at.1, sample, shade));
    }
}

/// Fills one triangle of positive area.
fn fill_oriented<
    S: Copy,
    Q: Fn(S, S, S, usize, usize) -> Sample,
    H: Fn(S, S, S, usize, usize) -> Color,
>(v: (S, S, S), o: Outline, target: &mut Framebuffer, sample: &Q, shade: &H)
    requires
        old(target).wf(),
        old(target)@.width > 0,
        old(target)@.height > 0,
        forall|a: S, b: S, c: S, x: usize, y: usize| #[trigger]
            call_requires(*sample, (a, b, c, x, y)),
        forall|a: S, b: S, c: S, x: usize, y: usize| #[trigger]
            call_requires(*shade, (a, b, c, x, y)),
    ensures
        fills(v, o, old(target)@, final(target)@, *sample, *shade),
{
    let ghost before = target@;
    let w: usize = target.width();
    let h: usize = target.height();
    let (x0, x1) = match pixel_range(o.columns.0, o.columns.1, w) {
        Some(range) => range,
        None => {
            return;
        },
    };
    let (y0, y1) = match pixel_range(o.rows.0, o.rows.1, h) {
        Some(range) => range,
        None => {
            return;
        },
    };
    let tl0: bool = is_top_left(o.first.0, o.first.1);
    let tl1: bool = is_top_left(o.second.0, o.second.1);
    let tl2: bool = is_top_left(o.third.0, o.third.1);
    let mut y: usize = y0;
    while y <= y1
        invariant
            before.wf(),
            w == before.width,
            h == before.height,
            0 < w,
            0 < h,
            x0 == o.columns.0,
            x1 == last_pixel(o.columns.1, w),
            y0 == o.rows.0,
            y1 == last_pixel(o.rows.1, h),
            x0 <= x1 < w,
            y1 < h,
            y0 <= y <= y1 + 1,
            tl0 == top_left(o.first.0, o.first.1),
            tl1 == top_left(o.second.0, o.second.1),
            tl2 == top_left(o.third.0, o.third.1),
            forall|a: S, b: S, c: S, x: usize, y: usize| #[trigger]
                call_requires(*sample, (a, b, c, x, y)),
            forall|a: S, b: S, c: S, x: usize, y: usize| #[trigger]
                call_requires(*shade, (a, b, c, x, y)),
            partly_filled(v, o, before, target@, y as int, 0, *sample, *shade),
        decreases y1 + 1 - y,
    {
        proof {
            lemma_same_progress(
                v,
                o,
                before,
                target@,
                (y as int, 0),
                (y as int, x0 as int),
                *sample,
                *shade,
            );
        }
        let mut x: usize = x0;
        while x <= x1
            invariant
                before.wf(),
                w == before.width,
                h == before.height,
                0 < w,
                0 < h,
                x0 == o.columns.0,
                x1 == last_pixel(o.columns.1, w),
                y0 == o.rows.0,
                y1 == last_pixel(o.rows.1, h),
                x0 <= x <= x1 + 1,
                x1 < w,
                y0 <= y <= y1,
                y1 < h,
                tl0 == top_left(o.first.0, o.first.1),
                tl1 == top_left(o.second.0, o.second.1),
                tl2 == top_left(o.third.0, o.third.1),
                forall|a: S, b: S, c: S, x: usize, y: usize| #[trigger]
                    call_requires(*sample, (a, b, c, x, y)),
                forall|a: S, b: S, c: S, x: usize, y: usize| #[trigger]
                    call_requires(*shade, (a, b, c, x, y)),
                partly_filled(v, o, before, target@, y as int, x as int, *sample, *shade),
            decreases x1 + 1 - x,
        {
            let ghost mid = target@;
            let s = sample(v.0, v.1, v.2, x, y);
            let inside: bool = edge_ok(s.edges.0, tl0) && edge_ok(s.edges.1, tl1) && edge_ok(
                s.edges.2,
                tl2,
            );
            assert(partly_filled_at(
                v,
                o,
                before,
                mid,
                x as int,
                y as int,
                y as int,
                x as int,
                *sample,
                *shade,
            ));
            proof {
                lemma_index_in_plane(x as int, y as int, w as int, h as int);
            }
            if inside {
                let at: usize = y * w + x;
                // Only a fragment that is drawn is shaded.
                if in_front(s.depth, target.depth()[at]) {
                    let color = shade(v.0, v.1, v.2, x, y);
                    write_fragment(target, x, y, s.depth, color);
                }
            }
            proof {
                assert(call_ensures(*sample, (v.0, v.1, v.2, x, y), s));
                assert forall|px: int, py: int|
                    before.contains(px, py) implies #[trigger] partly_filled_at(
                    v,
                    o,
                    before,
                    target@,
                    px,
                    py,
                    y as int,
                    x + 1,
                    *sample,
                    *shade,
                ) by {
                    assert(partly_filled_at(
                        v,
                        o,
                        before,
                        mid,
                        px,
                        py,
                        y as int,
                        x as int,
                        *sample,
                        *shade,
                    ));
                    lemma_index_in_plane(px, py, w as int, h as int);
                    lemma_index_is_injective(px, py, x as int, y as int, w as int);
                    assert(mid.pixel(px, py) == mid.color[py * w + px]);
                    if px == x && py == y {
                        assert(settled(v, o, before, target@, px, py, *sample, *shade));
                    } else {
                        assert(untouched(mid, target@, px, py));
                        if tried(o, before, px, py) && (py < y || (py == y && px < x)) {
                            assert(settled(v, o, before, mid, px, py, *sample, *shade));
                            let t = choose|t: Sample| #[trigger]
                                call_ensures(*sample, (v.0, v.1, v.2, px as usize, py as usize), t)
                                    && if covers(o, t) && wins(t.depth, depth_at(before, px, py)) {
                                    &&& depth_at(mid, px, py) == t.depth
                                    &&& call_ensures(
                                        *shade,
                                        (v.0, v.1, v.2, px as usize, py as usize),
                                        mid.pixel(px, py),
                                    )
                                } else {
                                    untouched(before, mid, px, py)
                                };
                            assert(call_ensures(
                                *sample,
                                (v.0, v.1, v.2, px as usize, py as usize),
                                t,
                            ));
                        }
                    }
                }
            }
            x = x + 1;
        }
        proof {
            lemma_same_progress(
                v,
                o,
                before,
                target@,
                (y as int, x as int),
                (y + 1, 0),
                *sample,
                *shade,
            );
        }
        y = y + 1;
    }
    assert forall|px: int, py: int| before.contains(px, py) implies #[trigger] filled_at(
        v,
        o,
        before,
        target@,
        px,
        py,
        *sample,
        *shade,
    ) by {
        assert(partly_filled_at(v, o, before, target@, px, py, y as int, 0, *sample, *shade));
    }
}

/// Which faces are drawn.
#[derive(Clone, Copy, Debug, PartialEq, Eq, Structural)]
pub struct Faces {
    /// Which winding faces the viewer.
    pub front_face: FrontFace,
    /// Which faces are left out.
    pub cull: Cull,
}

/// Whether the arithmetic can be asked whatever comes.
pub open spec fn can_render<
    C,
    S,
    T: Fn(Vertex, Vertex, Vertex) -> (C, C, C),
    N: Fn(C) -> Single,
    X: Fn(C, C) -> C,
    P: Fn(C, usize, usize) -> Option<S>,
    A: Fn(S, S, S) -> Single,
    O: Fn(S, S, S) -> Outline,
    Q: Fn(S, S, S, usize, usize) -> Sample,
    H: Fn(S, S, S, usize, usize) -> Color,
>(math: RasterMath<T, N, X, P, A, O, Q, H>) -> bool {
    &&& forall|a: Vertex, b: Vertex, c: Vertex| #[trigger] call_requires(math.transform, (a, b, c))
    &&& forall|c: C| #[trigger] call_requires(math.near, (c,))
    &&& forall|a: C, b: C| #[trigger] call_requires(math.crossing, (a, b))
    &&& forall|c: C, w: usize, h: usize| #[trigger] call_requires(math.project, (c, w, h))
    &&& forall|a: S, b: S, c: S| #[trigger] call_requires(math.area, (a, b, c))
    &&& forall|a: S, b: S, c: S| #[trigger] call_requires(math.outline, (a, b, c))
    &&& forall|a: S, b: S, c: S, x: usize, y: usize| #[trigger]
        call_requires(math.sample, (a, b, c, x, y))
    &&& forall|a: S, b: S, c: S, x: usize, y: usize| #[trigger]
        call_requires(math.shade, (a, b, c, x, y))
}

/// Whether `after` is `before` with a triangle of positive area filled in, by its outline.
pub open spec fn draws_oriented<
    C,
    S,
    T: Fn(Vertex, Vertex, Vertex) -> (C, C, C),
    N: Fn(C) -> Single,
    X: Fn(C, C) -> C,
    P: Fn(C, usize, usize) -> Option<S>,
    A: Fn(S, S, S) -> Single,
    O: Fn(S, S, S) -> Outline,
    Q: Fn(S, S, S, usize, usize) -> Sample,
    H: Fn(S, S, S, usize, usize) -> Color,
>(
    v: (S, S, S),
    before: Raster,
    after: Raster,
    math: RasterMath<T, N, X, P, A, O, Q, H>,
) -> bool {
    exists|o: Outline| #[trigger]
        call_ensures(math.outline, (v.0, v.1, v.2), o) && fills(
            v,
            o,
            before,
            after,
            math.sample,
            math.shade,
        )
}

/// Whether `after` is `before` with a triangle on the screen drawn: turned so that its area is positive,
/// or not at all where it is culled or has no area.
pub open spec fn draws_triangle<
    C,
    S,
    T: Fn(Vertex, Vertex, Vertex) -> (C, C, C),
    N: Fn(C) -> Single,
    X: Fn(C, C) -> C,
    P: Fn(C, usize, usize) -> Option<S>,
    A: Fn(S, S, S) -> Single,
    O: Fn(S, S, S) -> Outline,
    Q: Fn(S, S, S, usize, usize) -> Sample,
    H: Fn(S, S, S, usize, usize) -> Color,
>(
    v: (S, S, S),
    faces: Faces,
    before: Raster,
    after: Raster,
    math: RasterMath<T, N, X, P, A, O, Q, H>,
) -> bool {
    exists|area: Single| #[trigger]
        call_ensures(math.area, (v.0, v.1, v.2), area) && if !is_drawn(
            faces.front_face,
            faces.cull,
            area,
        ) {
            after == before
        } else if area.spec_lt(Single::zero()) {
            draws_oriented((v.0, v.2, v.1), before, after, math)
        } else {
            draws_oriented(v, before, after, math)
        }
}

/// Rasterizes one screen-space triangle with the top-left fill rule and depth test.
pub fn fill_triangle<
    C: Copy,
    S: Copy,
    T: Fn(Vertex, Vertex, Vertex) -> (C, C, C),
    N: Fn(C) -> Single,
    X: Fn(C, C) -> C,
    P: Fn(C, usize, usize) -> Option<S>,
    A: Fn(S, S, S) -> Single,
    O: Fn(S, S, S) -> Outline,
    Q: Fn(S, S, S, usize, usize) -> Sample,
    H: Fn(S, S, S, usize, usize) -> Color,
>(
    verts: (S, S, S),
    faces: Faces,
    target: &mut Framebuffer,
    math: &RasterMath<T, N, X, P, A, O, Q, H>,
)
    requires
        old(target).wf(),
        old(target)@.width > 0,
        old(target)@.height > 0,
        can_render(*math),
    ensures
        final(target).wf(),
        final(target)@.width == old(target)@.width,
        final(target)@.height == old(target)@.height,
        draws_triangle(verts, faces, old(target)@, final(target)@, *math),
{
    let area_of = &math.area;
    let area: Single = area_of(verts.0, verts.1, verts.2);
    assert(call_ensures(math.area, (verts.0, verts.1, verts.2), area));
    let v: (S, S, S) = match winding(faces.front_face, faces.cull, area) {
        Winding::Dropped => {
            return;
        },
        Winding::Kept => verts,
        Winding::Reversed => (verts.0, verts.2, verts.1),
    };
    let outline_of = &math.outline;
    let o: Outline = outline_of(v.0, v.1, v.2);
    assert(call_ensures(math.outline, (v.0, v.1, v.2), o));
    fill_oriented(v, o, target, &math.sample, &math.shade);
}

/// Whether step `k` draws the triangle number `k` of the fan of a polygon.
pub open spec fn fan_step<
    C,
    S,
    T: Fn(Vertex, Vertex, Vertex) -> (C, C, C),
    N: Fn(C) -> Single,
    X: Fn(C, C) -> C,
    P: Fn(C, usize, usize) -> Option<S>,
    A: Fn(S, S, S) -> Single,
    O: Fn(S, S, S) -> Outline,
    Q: Fn(S, S, S, usize, usize) -> Sample,
    H: Fn(S, S, S, usize, usize) -> Color,
>(
    screen: Seq<S>,
    faces: Faces,
    states: Seq<Raster>,
    k: int,
    math: RasterMath<T, N, X, P, A, O, Q, H>,
) -> bool {
    draws_triangle((screen[0], screen[k + 1], screen[k + 2]), faces, states[k], states[k + 1], math)
}

/// Whether `states` are the rasters before, between and after the triangles of the fan of a polygon.
pub open spec fn fan_steps<
    C,
    S,
    T: Fn(Vertex, Vertex, Vertex) -> (C, C, C),
    N: Fn(C) -> Single,
    X: Fn(C, C) -> C,
    P: Fn(C, usize, usize) -> Option<S>,
    A: Fn(S, S, S) -> Single,
    O: Fn(S, S, S) -> Outline,
    Q: Fn(S, S, S, usize, usize) -> Sample,
    H: Fn(S, S, S, usize, usize) -> Color,
>(
    screen: Seq<S>,
    faces: Faces,
    states: Seq<Raster>,
    math: RasterMath<T, N, X, P, A, O, Q, H>,
) -> bool {
    forall|k: int|
        0 <= k < states.len() - 1 ==> #[trigger] fan_step(screen, faces, states, k, math)
}

/// Whether `after` is `before` with a polygon on the screen drawn, as a fan of triangles.
pub open spec fn draws_polygon<
    C,
    S,
    T: Fn(Vertex, Vertex, Vertex) -> (C, C, C),
    N: Fn(C) -> Single,
    X: Fn(C, C) -> C,
    P: Fn(C, usize, usize) -> Option<S>,
    A: Fn(S, S, S) -> Single,
    O: Fn(S, S, S) -> Outline,
    Q: Fn(S, S, S, usize, usize) -> Sample,
    H: Fn(S, S, S, usize, usize) -> Color,
>(
    screen: Seq<S>,
    faces: Faces,
    before: Raster,
    after: Raster,
    math: RasterMath<T, N, X, P, A, O, Q, H>,
) -> bool {
    if screen.len() < 3 {
        after == before
    } else {
        exists|states: Seq<Raster>| #[trigger]
            fan_steps(screen, faces, states, math) && states.len() == screen.len() - 1 && states[0]
                == before && states.last() == after
    }
}

fn draw_polygon<
    C: Copy,
    S: Copy,
    T: Fn(Vertex, Vertex, Vertex) -> (C, C, C),
    N: Fn(C) -> Single,
    X: Fn(C, C) -> C,
    P: Fn(C, usize, usize) -> Option<S>,
    A: Fn(S, S, S) -> Single,
    O: Fn(S, S, S) -> Outline,
    Q: Fn(S, S, S, usize, usize) -> Sample,
    H: Fn(S, S, S, usize, usize) -> Color,
>(
    screen: &[S],
    faces: Faces,
    target: &mut Framebuffer,
    math: &RasterMath<T, N, X, P, A, O, Q, H>,
)
    requires
        old(target).wf(),
        old(target)@.width > 0,
        old(target)@.height > 0,
        can_render(*math),
    ensures
        final(target).wf(),
        final(target)@.width == old(target)@.width,
        final(target)@.height == old(target)@.height,
        draws_polygon(screen@, faces, old(target)@, final(target)@, *math),
{
    let n: usize = screen.len();
    if n < 3 {
        return;
    }
    let ghost before = target@;
    let ghost mut states: Seq<Raster> = seq![target@];
    let mut k: usize = 0;
    while k < n - 2
        invariant
            n == screen@.len(),
            3 <= n,
            k <= n - 2,
            can_render(*math),
            target.wf(),
            target@.width == before.width,
            target@.height == before.height,
            before.width > 0,
            before.height > 0,
            states.len() == k + 1,
            states[0] == before,
            states.last() == target@,
            fan_steps(screen@, faces, states, *math),
        decreases n - k,
    {
        let ghost earlier = states;
        fill_triangle((screen[0], screen[k + 1], screen[k + 2]), faces, target, math);
        proof {
            states = states.push(target@);
            assert forall|j: int| 0 <= j < states.len() - 1 implies #[trigger] fan_step(
                screen@,
                faces,
                states,
                j,
                *math,
            ) by {
                if j < k {
                    assert(fan_step(screen@, faces, earlier, j, *math));
                    assert(states[j] == earlier[j] && states[j + 1] == earlier[j + 1]);
                } else {
                    assert(states[j] == earlier.last());
                }
            }
        }
        k = k + 1;
    }
}

/// The vertex of that number.
pub open spec fn vertex_of<C>(c: (C, C, C), i: int) -> C {
    if i == 0 {
        c.0
    } else if i == 1 {
        c.1
    } else {
        c.2
    }
}

/// Whether `p` is that vertex of a clipped triangle: one of its own, or a crossing of an edge.
pub open spec fn clip_point<C, X: Fn(C, C) -> C>(
    c: (C, C, C),
    at: ClipVertex,
    p: C,
    crossing: X,
) -> bool {
    match at {
        ClipVertex::Corner(i) => p == vertex_of(c, i as int),
        ClipVertex::Crossing(i, j) => call_ensures(
            crossing,
            (vertex_of(c, i as int), vertex_of(c, j as int)),
            p,
        ),
    }
}

/// Which vertices are in front of the near plane, by their distances.
pub open spec fn insides(d: (Single, Single, Single)) -> [bool; 3] {
    [Single::zero().spec_le(d.0), Single::zero().spec_le(d.1), Single::zero().spec_le(d.2)]
}

/// Whether `points` is the triangle clipped to the near plane, by the distances of its vertices.
pub open spec fn clips_to<C, N: Fn(C) -> Single, X: Fn(C, C) -> C>(
    c: (C, C, C),
    d: (Single, Single, Single),
    points: Seq<C>,
    near: N,
    crossing: X,
) -> bool {
    &&& call_ensures(near, (c.0,), d.0)
    &&& call_ensures(near, (c.1,), d.1)
    &&& call_ensures(near, (c.2,), d.2)
    &&& points.len() == clipped(insides(d)).len()
    &&& forall|k: int|
        #![trigger points[k]]
        0 <= k < points.len() ==> clip_point(c, clipped(insides(d))[k], points[k], crossing)
}

/// Whether `screen` are the places of the points on a screen of that size.
pub open spec fn lands_on<C, S, P: Fn(C, usize, usize) -> Option<S>>(
    points: Seq<C>,
    screen: Seq<S>,
    w: nat,
    h: nat,
    project: P,
) -> bool {
    &&& screen.len() == points.len()
    &&& forall|k: int|
        #![trigger screen[k]]
        0 <= k < points.len() ==> call_ensures(
            project,
            (points[k], w as usize, h as usize),
            Some(screen[k]),
        )
}

/// Whether one of the points has no place on a screen of that size.
pub open spec fn misses_screen<C, S, P: Fn(C, usize, usize) -> Option<S>>(
    points: Seq<C>,
    w: nat,
    h: nat,
    project: P,
) -> bool {
    exists|k: int|
        0 <= k < points.len() && call_ensures(
            project,
            (#[trigger] points[k], w as usize, h as usize),
            None::<S>,
        )
}

/// Whether `after` is `before` with the clipped polygon drawn, or as it was where one of its points has
/// no place on the screen.
pub open spec fn draws_points<
    C,
    S,
    T: Fn(Vertex, Vertex, Vertex) -> (C, C, C),
    N: Fn(C) -> Single,
    X: Fn(C, C) -> C,
    P: Fn(C, usize, usize) -> Option<S>,
    A: Fn(S, S, S) -> Single,
    O: Fn(S, S, S) -> Outline,
    Q: Fn(S, S, S, usize, usize) -> Sample,
    H: Fn(S, S, S, usize, usize) -> Color,
>(
    points: Seq<C>,
    faces: Faces,
    before: Raster,
    after: Raster,
    math: RasterMath<T, N, X, P, A, O, Q, H>,
) -> bool {
    ||| misses_screen(points, before.width, before.height, math.project) && after == before
    ||| exists|screen: Seq<S>| #[trigger]
        lands_on(points, screen, before.width, before.height, math.project) && draws_polygon(
            screen,
            faces,
            before,
            after,
            math,
        )
}

/// Whether `after` is `before` with a triangle in clip space drawn: clipped to the near plane, projected
/// to the screen, and filled.
pub open spec fn draws_clipped<
    C,
    S,
    T: Fn(Vertex, Vertex, Vertex) -> (C, C, C),
    N: Fn(C) -> Single,
    X: Fn(C, C) -> C,
    P: Fn(C, usize, usize) -> Option<S>,
    A: Fn(S, S, S) -> Single,
    O: Fn(S, S, S) -> Outline,
    Q: Fn(S, S, S, usize, usize) -> Sample,
    H: Fn(S, S, S, usize, usize) -> Color,
>(
    c: (C, C, C),
    faces: Faces,
    before: Raster,
    after: Raster,
    math: RasterMath<T, N, X, P, A, O, Q, H>,
) -> bool {
    if before.width == 0 || before.height == 0 {
        after == before
    } else {
        exists|d: (Single, Single, Single), points: Seq<C>| #[trigger]
            clips_to(c, d, points, math.near, math.crossing) && draws_points(
                points,
                faces,
                before,
                after,
                math,
            )
    }
}

/// Renders a single triangle's three clip-space vertices: near-plane clipping, the viewport transform,
/// culling, and the depth-tested fill.
fn draw_clip_triangle<
    C: Copy,
    S: Copy,
    T: Fn(Vertex, Vertex, Vertex) -> (C, C, C),
    N: Fn(C) -> Single,
    X: Fn(C, C) -> C,
    P: Fn(C, usize, usize) -> Option<S>,
    A: Fn(S, S, S) -> Single,
    O: Fn(S, S, S) -> Outline,
    Q: Fn(S, S, S, usize, usize) -> Sample,
    H: Fn(S, S, S, usize, usize) -> Color,
>(
    tri: (C, C, C),
    faces: Faces,
    target: &mut Framebuffer,
    math: &RasterMath<T, N, X, P, A, O, Q, H>,
)
    requires
        old(target).wf(),
        can_render(*math),
    ensures
        final(target).wf(),
        final(target)@.width == old(target)@.width,
        final(target)@.height == old(target)@.height,
        draws_clipped(tri, faces, old(target)@, final(target)@, *math),
{
    let w: usize = target.width();
    let h: usize = target.height();
    if w == 0 || h == 0 {
        return;
    }
    let near = &math.near;
    let crossing = &math.crossing;
    let project = &math.project;
    let d: (Single, Single, Single) = (near(tri.0), near(tri.1), near(tri.2));
    let poly = clip_triangle_near([d.0, d.1, d.2]);
    assert(poly@ == clipped(insides(d)));
    proof {
        law_clipping_leaves_a_polygon(insides(d));
    }
    let mut points: Vec<C> = Vec::with_capacity(poly.len());
    let mut k: usize = 0;
    while k < poly.len()
        invariant
            can_render(*math),
            *crossing == math.crossing,
            poly@ == clipped(insides(d)),
            k <= poly@.len(),
            points@.len() == k,
            forall|j: int|
                #![trigger points@[j]]
                0 <= j < k ==> clip_point(tri, poly@[j], points@[j], math.crossing),
        decreases poly@.len() - k,
    {
        let p = match poly[k] {
            ClipVertex::Corner(i) => pick(tri, i),
            ClipVertex::Crossing(i, j) => crossing(pick(tri, i), pick(tri, j)),
        };
        points.push(p);
        k = k + 1;
    }
    assert(clips_to(tri, d, points@, math.near, math.crossing));
    let mut screen: Vec<S> = Vec::with_capacity(points.len());
    let mut k: usize = 0;
    while k < points.len()
        invariant
            can_render(*math),
            *project == math.project,
            target.wf(),
            target@ == old(target)@,
            w == target@.width,
            h == target@.height,
            w > 0,
            h > 0,
            k <= points@.len(),
            screen@.len() == k,
            clips_to(tri, d, points@, math.near, math.crossing),
            forall|j: int|
                #![trigger screen@[j]]
                0 <= j < k ==> call_ensures(math.project, (points@[j], w, h), Some(screen@[j])),
        decreases points@.len() - k,
    {
        match project(points[k], w, h) {
            Some(s) => {
                screen.push(s);
            },
            None => {
                assert(misses_screen(points@, target@.width, target@.height, math.project)) by {
                    assert(call_ensures(math.project, (points@[k as int], w, h), None::<S>));
                }
                return;
            },
        }
        k = k + 1;
    }
    assert(lands_on(points@, screen@, target@.width, target@.height, math.project));
    draw_polygon(screen.as_slice(), faces, target, math);
}

fn pick<C: Copy>(c: (C, C, C), i: usize) -> (v: C)
    ensures
        v == vertex_of(c, i as int),
{
    if i == 0 {
        c.0
    } else if i == 1 {
        c.1
    } else {
        c.2
    }
}

/// Whether `after` is `before` with the mesh's triangle number `t` drawn.
pub open spec fn draws_face<
    C,
    S,
    T: Fn(Vertex, Vertex, Vertex) -> (C, C, C),
    N: Fn(C) -> Single,
    X: Fn(C, C) -> C,
    P: Fn(C, usize, usize) -> Option<S>,
    A: Fn(S, S, S) -> Single,
    O: Fn(S, S, S) -> Outline,
    Q: Fn(S, S, S, usize, usize) -> Sample,
    H: Fn(S, S, S, usize, usize) -> Color,
>(
    mesh: Mesh,
    t: int,
    faces: Faces,
    before: Raster,
    after: Raster,
    math: RasterMath<T, N, X, P, A, O, Q, H>,
) -> bool {
    exists|c: (C, C, C)| #[trigger]
        call_ensures(
            math.transform,
            (corner(mesh, t, 0), corner(mesh, t, 1), corner(mesh, t, 2)),
            c,
        ) && draws_clipped(c, faces, before, after, math)
}

/// Whether step `k` draws the triangle number `k` of a mesh.
pub open spec fn mesh_step<
    C,
    S,
    T: Fn(Vertex, Vertex, Vertex) -> (C, C, C),
    N: Fn(C) -> Single,
    X: Fn(C, C) -> C,
    P: Fn(C, usize, usize) -> Option<S>,
    A: Fn(S, S, S) -> Single,
    O: Fn(S, S, S) -> Outline,
    Q: Fn(S, S, S, usize, usize) -> Sample,
    H: Fn(S, S, S, usize, usize) -> Color,
>(
    mesh: Mesh,
    faces: Faces,
    states: Seq<Raster>,
    k: int,
    math: RasterMath<T, N, X, P, A, O, Q, H>,
) -> bool {
    is_sound(mesh, k) && draws_face(mesh, k, faces, states[k], states[k + 1], math)
}

/// Whether `states` are the rasters before, between and after triangles of a mesh, from the first on.
pub open spec fn mesh_steps<
    C,
    S,
    T: Fn(Vertex, Vertex, Vertex) -> (C, C, C),
    N: Fn(C) -> Single,
    X: Fn(C, C) -> C,
    P: Fn(C, usize, usize) -> Option<S>,
    A: Fn(S, S, S) -> Single,
    O: Fn(S, S, S) -> Outline,
    Q: Fn(S, S, S, usize, usize) -> Sample,
    H: Fn(S, S, S, usize, usize) -> Color,
>(
    mesh: Mesh,
    faces: Faces,
    states: Seq<Raster>,
    math: RasterMath<T, N, X, P, A, O, Q, H>,
) -> bool {
    forall|k: int|
        0 <= k < states.len() - 1 ==> #[trigger] mesh_step(mesh, faces, states, k, math)
}

/// Whether `after` is `before` with the first `n` triangles of a mesh drawn.
pub open spec fn draws_mesh<
    C,
    S,
    T: Fn(Vertex, Vertex, Vertex) -> (C, C, C),
    N: Fn(C) -> Single,
    X: Fn(C, C) -> C,
    P: Fn(C, usize, usize) -> Option<S>,
    A: Fn(S, S, S) -> Single,
    O: Fn(S, S, S) -> Outline,
    Q: Fn(S, S, S, usize, usize) -> Sample,
    H: Fn(S, S, S, usize, usize) -> Color,
>(
    mesh: Mesh,
    n: nat,
    faces: Faces,
    before: Raster,
    after: Raster,
    math: RasterMath<T, N, X, P, A, O, Q, H>,
) -> bool {
    exists|states: Seq<Raster>| #[trigger]
        mesh_steps(mesh, faces, states, math) && states.len() == n + 1 && states[0] == before
            && states.last() == after
}

/// Draws a mesh, up to the first triangle that names a vertex that is not there.
fn draw_mesh<
    C: Copy,
    S: Copy,
    T: Fn(Vertex, Vertex, Vertex) -> (C, C, C),
    N: Fn(C) -> Single,
    X: Fn(C, C) -> C,
    P: Fn(C, usize, usize) -> Option<S>,
    A: Fn(S, S, S) -> Single,
    O: Fn(S, S, S) -> Outline,
    Q: Fn(S, S, S, usize, usize) -> Sample,
    H: Fn(S, S, S, usize, usize) -> Color,
>(
    mesh: &Mesh,
    faces: Faces,
    target: &mut Framebuffer,
    math: &RasterMath<T, N, X, P, A, O, Q, H>,
) -> (r: Result<(), Error>)
    requires
        old(target).wf(),
        can_render(*math),
    ensures
        final(target).wf(),
        final(target)@.width == old(target)@.width,
        final(target)@.height == old(target)@.height,
        match r {
            Ok(_) => draws_mesh(
                *mesh,
                mesh.triangles(),
                faces,
                old(target)@,
                final(target)@,
                *math,
            ),
            Err(e) => breaks_off(*mesh, faces, old(target)@, final(target)@, e, *math),
        },
{
    let ghost before = target@;
    let transform = &math.transform;
    let ghost mut states: Seq<Raster> = seq![target@];
    let n: usize = mesh.triangle_count();
    let mut t: usize = 0;
    while t < n
        invariant
            n == mesh.triangles(),
            t <= n,
            can_render(*math),
            before == old(target)@,
            *transform == math.transform,
            target.wf(),
            target@.width == before.width,
            target@.height == before.height,
            states.len() == t + 1,
            states[0] == before,
            states.last() == target@,
            mesh_steps(*mesh, faces, states, *math),
        decreases n - t,
    {
        let ghost earlier = states;
        let corners = match triangle(mesh, t) {
            Ok(corners) => corners,
            Err(e) => {
                assert(draws_mesh(*mesh, t as nat, faces, before, target@, *math));
                return Err(e);
            },
        };
        let c = transform(corners[0], corners[1], corners[2]);
        draw_clip_triangle(c, faces, target, math);
        proof {
            states = states.push(target@);
            assert(corners[0] == corner(*mesh, t as int, 0));
            assert(corners[1] == corner(*mesh, t as int, 1));
            assert(corners[2] == corner(*mesh, t as int, 2));
            assert(draws_face(*mesh, t as int, faces, earlier.last(), target@, *math));
            assert forall|j: int| 0 <= j < states.len() - 1 implies #[trigger] mesh_step(
                *mesh,
                faces,
                states,
                j,
                *math,
            ) by {
                if j < t {
                    assert(mesh_step(*mesh, faces, earlier, j, *math));
                    assert(states[j] == earlier[j] && states[j + 1] == earlier[j + 1]);
                } else {
                    assert(states[j] == earlier.last());
                }
            }
        }
        t = t + 1;
    }
    assert(draws_mesh(*mesh, n as nat, faces, before, target@, *math));
    Ok(())
}

/// Whether drawing a mesh breaks off with the error `e`, at the first triangle that names a vertex that is
/// not there, with the triangles before it drawn.
pub open spec fn breaks_off<
    C,
    S,
    T: Fn(Vertex, Vertex, Vertex) -> (C, C, C),
    N: Fn(C) -> Single,
    X: Fn(C, C) -> C,
    P: Fn(C, usize, usize) -> Option<S>,
    A: Fn(S, S, S) -> Single,
    O: Fn(S, S, S) -> Outline,
    Q: Fn(S, S, S, usize, usize) -> Sample,
    H: Fn(S, S, S, usize, usize) -> Color,
>(
    mesh: Mesh,
    faces: Faces,
    before: Raster,
    after: Raster,
    e: Error,
    math: RasterMath<T, N, X, P, A, O, Q, H>,
) -> bool {
    exists|t: nat|
        t < mesh.triangles() && #[trigger] draws_mesh(mesh, t, faces, before, after, math)
            && misses_vertex(mesh, t as int, e)
}

/// Whether step `k` draws the mesh number `k`.
pub open spec fn scene_step<
    C,
    S,
    T: Fn(Vertex, Vertex, Vertex) -> (C, C, C),
    N: Fn(C) -> Single,
    X: Fn(C, C) -> C,
    P: Fn(C, usize, usize) -> Option<S>,
    A: Fn(S, S, S) -> Single,
    O: Fn(S, S, S) -> Outline,
    Q: Fn(S, S, S, usize, usize) -> Sample,
    H: Fn(S, S, S, usize, usize) -> Color,
>(
    meshes: Seq<Mesh>,
    faces: Faces,
    states: Seq<Raster>,
    k: int,
    math: RasterMath<T, N, X, P, A, O, Q, H>,
) -> bool {
    draws_mesh(meshes[k], meshes[k].triangles(), faces, states[k], states[k + 1], math)
}

/// Whether `states` are the rasters before, between and after meshes, from the first on.
pub open spec fn scene_steps<
    C,
    S,
    T: Fn(Vertex, Vertex, Vertex) -> (C, C, C),
    N: Fn(C) -> Single,
    X: Fn(C, C) -> C,
    P: Fn(C, usize, usize) -> Option<S>,
    A: Fn(S, S, S) -> Single,
    O: Fn(S, S, S) -> Outline,
    Q: Fn(S, S, S, usize, usize) -> Sample,
    H: Fn(S, S, S, usize, usize) -> Color,
>(
    meshes: Seq<Mesh>,
    faces: Faces,
    states: Seq<Raster>,
    math: RasterMath<T, N, X, P, A, O, Q, H>,
) -> bool {
    forall|k: int|
        0 <= k < states.len() - 1 ==> #[trigger] scene_step(meshes, faces, states, k, math)
}

/// The raster with all its pixels cleared.
pub open spec fn cleared(r: Raster, color: Color) -> Raster {
    Raster {
        color: Seq::new(r.color.len(), |i: int| color),
        depth: Seq::new(r.depth.len(), |i: int| depth_far()),
        ..r
    }
}

/// Whether rendering the meshes gives `after` and `r`: all of them drawn in order on a cleared raster, or
/// the error of the first triangle that names a vertex that is not there, with all before it drawn.
pub open spec fn renders_to<
    C,
    S,
    T: Fn(Vertex, Vertex, Vertex) -> (C, C, C),
    N: Fn(C) -> Single,
    X: Fn(C, C) -> C,
    P: Fn(C, usize, usize) -> Option<S>,
    A: Fn(S, S, S) -> Single,
    O: Fn(S, S, S) -> Outline,
    Q: Fn(S, S, S, usize, usize) -> Sample,
    H: Fn(S, S, S, usize, usize) -> Color,
>(
    meshes: Seq<Mesh>,
    faces: Faces,
    clear_color: Color,
    before: Raster,
    after: Raster,
    r: Result<(), Error>,
    math: RasterMath<T, N, X, P, A, O, Q, H>,
) -> bool {
    exists|states: Seq<Raster>| #[trigger]
        scene_steps(meshes, faces, states, math) && states.len() >= 1 && states[0] == cleared(
            before,
            clear_color,
        ) && match r {
            Ok(_) => states.len() == meshes.len() + 1 && states.last() == after,
            Err(e) => states.len() <= meshes.len() && breaks_off(
                meshes[states.len() - 1],
                faces,
                states.last(),
                after,
                e,
                math,
            ),
        }
}

/// Renders the surfaces of a scene: clears `target`, then draws every triangle, depth-tested. An
/// out-of-range triangle index yields a geometry error rather than a panic.
pub fn render_surfaces<
    C: Copy,
    S: Copy,
    T: Fn(Vertex, Vertex, Vertex) -> (C, C, C),
    N: Fn(C) -> Single,
    X: Fn(C, C) -> C,
    P: Fn(C, usize, usize) -> Option<S>,
    A: Fn(S, S, S) -> Single,
    O: Fn(S, S, S) -> Outline,
    Q: Fn(S, S, S, usize, usize) -> Sample,
    H: Fn(S, S, S, usize, usize) -> Color,
>(
    scene: &Scene,
    faces: Faces,
    clear_color: Color,
    target: &mut Framebuffer,
    math: &RasterMath<T, N, X, P, A, O, Q, H>,
) -> (r: Result<(), Error>)
    requires
        old(target).wf(),
        can_render(*math),
    ensures
        final(target).wf(),
        final(target)@.width == old(target)@.width,
        final(target)@.height == old(target)@.height,
        renders_to(scene.meshes@, faces, clear_color, old(target)@, final(target)@, r, *math),
{
    target.clear(clear_color);
    let ghost start = target@;
    let ghost mut states: Seq<Raster> = seq![target@];
    let mut m: usize = 0;
    while m < scene.meshes.len()
        invariant
            m <= scene.meshes@.len(),
            can_render(*math),
            start == cleared(old(target)@, clear_color),
            target.wf(),
            target@.width == start.width,
            target@.height == start.height,
            states.len() == m + 1,
            states[0] == start,
            states.last() == target@,
            scene_steps(scene.meshes@, faces, states, *math),
        decreases scene.meshes@.len() - m,
    {
        let ghost earlier = states;
        match draw_mesh(&scene.meshes[m], faces, target, math) {
            Ok(_) => {},
            Err(e) => {
                assert(states.len() - 1 == m);
                return Err(e);
            },
        }
        proof {
            states = states.push(target@);
            assert forall|j: int| 0 <= j < states.len() - 1 implies #[trigger] scene_step(
                scene.meshes@,
                faces,
                states,
                j,
                *math,
            ) by {
                if j < m {
                    assert(scene_step(scene.meshes@, faces, earlier, j, *math));
                    assert(states[j] == earlier[j] && states[j + 1] == earlier[j + 1]);
                } else {
                    assert(states[j] == earlier.last());
                }
            }
        }
        m = m + 1;
    }
    Ok(())
}

/// Whether a pixel is as it was, or holds a fragment in front of what was there.
pub open spec fn nearer_at(before: Raster, after: Raster, x: int, y: int) -> bool {
    untouched(before, after, x, y) || wins(depth_at(after, x, y), depth_at(before, x, y))
}

/// Whether every pixel is as it was, or holds a fragment in front of what was there.
pub open spec fn comes_nearer(before: Raster, after: Raster) -> bool {
    &&& after.width == before.width
    &&& after.height == before.height
    &&& forall|x: int, y: int|
        before.contains(x, y) ==> #[trigger] nearer_at(before, after, x, y)
}

proof fn lemma_nearer_twice(a: Raster, b: Raster, c: Raster)
    requires
        comes_nearer(a, b),
        comes_nearer(b, c),
    ensures
        comes_nearer(a, c),
{
    assert forall|x: int, y: int| a.contains(x, y) implies #[trigger] nearer_at(a, c, x, y) by {
        assert(nearer_at(a, b, x, y));
        assert(nearer_at(b, c, x, y));
    }
}

/// Rasters that come nearer step by step come nearer altogether.
proof fn lemma_nearer_in_steps(states: Seq<Raster>, n: int)
    requires
        0 <= n < states.len(),
        forall|k: int| 0 <= k < n ==> comes_nearer(#[trigger] states[k], states[k + 1]),
    ensures
        comes_nearer(states[0], states[n]),
    decreases n,
{
    if n > 0 {
        lemma_nearer_in_steps(states, n - 1);
        assert(comes_nearer(states[n - 1], states[n - 1 + 1]));
        lemma_nearer_twice(states[0], states[n - 1], states[n]);
    }
}

proof fn lemma_triangle_comes_nearer<
    C,
    S,
    T: Fn(Vertex, Vertex, Vertex) -> (C, C, C),
    N: Fn(C) -> Single,
    X: Fn(C, C) -> C,
    P: Fn(C, usize, usize) -> Option<S>,
    A: Fn(S, S, S) -> Single,
    O: Fn(S, S, S) -> Outline,
    Q: Fn(S, S, S, usize, usize) -> Sample,
    H: Fn(S, S, S, usize, usize) -> Color,
>(
    v: (S, S, S),
    faces: Faces,
    before: Raster,
    after: Raster,
    math: RasterMath<T, N, X, P, A, O, Q, H>,
)
    requires
        draws_triangle(v, faces, before, after, math),
    ensures
        comes_nearer(before, after),
{
    if after != before {
        let area = choose|area: Single| #[trigger]
            call_ensures(math.area, (v.0, v.1, v.2), area) && if !is_drawn(
                faces.front_face,
                faces.cull,
                area,
            ) {
                after == before
            } else if area.spec_lt(Single::zero()) {
                draws_oriented((v.0, v.2, v.1), before, after, math)
            } else {
                draws_oriented(v, before, after, math)
            };
        let u = if area.spec_lt(Single::zero()) {
            (v.0, v.2, v.1)
        } else {
            v
        };
        let o = choose|o: Outline| #[trigger]
            call_ensures(math.outline, (u.0, u.1, u.2), o) && fills(
                u,
                o,
                before,
                after,
                math.sample,
                math.shade,
            );
        assert forall|x: int, y: int| before.contains(x, y) implies #[trigger] nearer_at(
            before,
            after,
            x,
            y,
        ) by {
            assert(filled_at(u, o, before, after, x, y, math.sample, math.shade));
        }
    }
}

proof fn lemma_polygon_comes_nearer<
    C,
    S,
    T: Fn(Vertex, Vertex, Vertex) -> (C, C, C),
    N: Fn(C) -> Single,
    X: Fn(C, C) -> C,
    P: Fn(C, usize, usize) -> Option<S>,
    A: Fn(S, S, S) -> Single,
    O: Fn(S, S, S) -> Outline,
    Q: Fn(S, S, S, usize, usize) -> Sample,
    H: Fn(S, S, S, usize, usize) -> Color,
>(
    screen: Seq<S>,
    faces: Faces,
    before: Raster,
    after: Raster,
    math: RasterMath<T, N, X, P, A, O, Q, H>,
)
    requires
        draws_polygon(screen, faces, before, after, math),
    ensures
        comes_nearer(before, after),
{
    if screen.len() >= 3 {
        let states = choose|states: Seq<Raster>| #[trigger]
            fan_steps(screen, faces, states, math) && states.len() == screen.len() - 1 && states[0]
                == before && states.last() == after;
        assert forall|k: int| 0 <= k < states.len() - 1 implies comes_nearer(
            #[trigger] states[k],
            states[k + 1],
        ) by {
            assert(fan_step(screen, faces, states, k, math));
            lemma_triangle_comes_nearer(
                (screen[0], screen[k + 1], screen[k + 2]),
                faces,
                states[k],
                states[k + 1],
                math,
            );
        }
        lemma_nearer_in_steps(states, states.len() - 1);
    }
}

proof fn lemma_face_comes_nearer<
    C,
    S,
    T: Fn(Vertex, Vertex, Vertex) -> (C, C, C),
    N: Fn(C) -> Single,
    X: Fn(C, C) -> C,
    P: Fn(C, usize, usize) -> Option<S>,
    A: Fn(S, S, S) -> Single,
    O: Fn(S, S, S) -> Outline,
    Q: Fn(S, S, S, usize, usize) -> Sample,
    H: Fn(S, S, S, usize, usize) -> Color,
>(
    mesh: Mesh,
    t: int,
    faces: Faces,
    before: Raster,
    after: Raster,
    math: RasterMath<T, N, X, P, A, O, Q, H>,
)
    requires
        draws_face(mesh, t, faces, before, after, math),
    ensures
        comes_nearer(before, after),
{
    let c = choose|c: (C, C, C)| #[trigger]
        call_ensures(
            math.transform,
            (corner(mesh, t, 0), corner(mesh, t, 1), corner(mesh, t, 2)),
            c,
        ) && draws_clipped(c, faces, before, after, math);
    if before.width > 0 && before.height > 0 && after != before {
        let (d, points) = choose|d: (Single, Single, Single), points: Seq<C>| #[trigger]
            clips_to(c, d, points, math.near, math.crossing) && draws_points(
                points,
                faces,
                before,
                after,
                math,
            );
        let screen = choose|screen: Seq<S>| #[trigger]
            lands_on(points, screen, before.width, before.height, math.project) && draws_polygon(
                screen,
                faces,
                before,
                after,
                math,
            );
        lemma_polygon_comes_nearer(screen, faces, before, after, math);
    }
}

proof fn lemma_mesh_comes_nearer<
    C,
    S,
    T: Fn(Vertex, Vertex, Vertex) -> (C, C, C),
    N: Fn(C) -> Single,
    X: Fn(C, C) -> C,
    P: Fn(C, usize, usize) -> Option<S>,
    A: Fn(S, S, S) -> Single,
    O: Fn(S, S, S) -> Outline,
    Q: Fn(S, S, S, usize, usize) -> Sample,
    H: Fn(S, S, S, usize, usize) -> Color,
>(
    mesh: Mesh,
    n: nat,
    faces: Faces,
    before: Raster,
    after: Raster,
    math: RasterMath<T, N, X, P, A, O, Q, H>,
)
    requires
        draws_mesh(mesh, n, faces, before, after, math),
    ensures
        comes_nearer(before, after),
{
    let states = choose|states: Seq<Raster>| #[trigger]
        mesh_steps(mesh, faces, states, math) && states.len() == n + 1 && states[0] == before
            && states.last() == after;
    assert forall|k: int| 0 <= k < n implies comes_nearer(#[trigger] states[k], states[k + 1]) by {
        assert(mesh_step(mesh, faces, states, k, math));
        lemma_face_comes_nearer(mesh, k, faces, states[k], states[k + 1], math);
    }
    lemma_nearer_in_steps(states, n as int);
}

/// However many triangles are drawn, and in whatever order, every pixel of a rendered scene is as it was
/// cleared, or holds a fragment in front of that: a fragment never gives way to one behind it. The size
/// stays.
pub proof fn law_rendering_keeps_the_nearest<
    C,
    S,
    T: Fn(Vertex, Vertex, Vertex) -> (C, C, C),
    N: Fn(C) -> Single,
    X: Fn(C, C) -> C,
    P: Fn(C, usize, usize) -> Option<S>,
    A: Fn(S, S, S) -> Single,
    O: Fn(S, S, S) -> Outline,
    Q: Fn(S, S, S, usize, usize) -> Sample,
    H: Fn(S, S, S, usize, usize) -> Color,
>(
    meshes: Seq<Mesh>,
    faces: Faces,
    clear_color: Color,
    before: Raster,
    after: Raster,
    r: Result<(), Error>,
    math: RasterMath<T, N, X, P, A, O, Q, H>,
)
    requires
        renders_to(meshes, faces, clear_color, before, after, r, math),
    ensures
        comes_nearer(cleared(before, clear_color), after),
{
    let states = choose|states: Seq<Raster>| #[trigger]
        scene_steps(meshes, faces, states, math) && states.len() >= 1 && states[0] == cleared(
            before,
            clear_color,
        ) && match r {
            Ok(_) => states.len() == meshes.len() + 1 && states.last() == after,
            Err(e) => states.len() <= meshes.len() && breaks_off(
                meshes[states.len() - 1],
                faces,
                states.last(),
                after,
                e,
                math,
            ),
        };
    assert forall|k: int| 0 <= k < states.len() - 1 implies comes_nearer(
        #[trigger] states[k],
        states[k + 1],
    ) by {
        assert(scene_step(meshes, faces, states, k, math));
        lemma_mesh_comes_nearer(
            meshes[k],
            meshes[k].triangles(),
            faces,
            states[k],
            states[k + 1],
            math,
        );
    }
    lemma_nearer_in_steps(states, states.len() - 1);
    if let Err(e) = r {
        let mesh = meshes[states.len() - 1];
        let t = choose|t: nat|
            t < mesh.triangles() && #[trigger] draws_mesh(
                mesh,
                t,
                faces,
                states.last(),
                after,
                math,
            ) && misses_vertex(mesh, t as int, e);
        lemma_mesh_comes_nearer(mesh, t, faces, states.last(), after, math);
        lemma_nearer_twice(states[0], states.last(), after);
    }
}

/// Rendering succeeds exactly where every index of every triangle names a vertex.
pub proof fn law_rendering_fails_on_a_missing_vertex<
    C,
    S,
    T: Fn(Vertex, Vertex, Vertex) -> (C, C, C),
    N: Fn(C) -> Single,
    X: Fn(C, C) -> C,
    P: Fn(C, usize, usize) -> Option<S>,
    A: Fn(S, S, S) -> Single,
    O: Fn(S, S, S) -> Outline,
    Q: Fn(S, S, S, usize, usize) -> Sample,
    H: Fn(S, S, S, usize, usize) -> Color,
>(
    meshes: Seq<Mesh>,
    faces: Faces,
    clear_color: Color,
    before: Raster,
    after: Raster,
    r: Result<(), Error>,
    math: RasterMath<T, N, X, P, A, O, Q, H>,
)
    requires
        renders_to(meshes, faces, clear_color, before, after, r, math),
    ensures
        r is Ok <==> (forall|m: int, t: int|
            0 <= m < meshes.len() && 0 <= t < meshes[m].triangles() ==> #[trigger] is_sound(
                meshes[m],
                t,
            )),
{
    let states = choose|states: Seq<Raster>| #[trigger]
        scene_steps(meshes, faces, states, math) && states.len() >= 1 && states[0] == cleared(
            before,
            clear_color,
        ) && match r {
            Ok(_) => states.len() == meshes.len() + 1 && states.last() == after,
            Err(e) => states.len() <= meshes.len() && breaks_off(
                meshes[states.len() - 1],
                faces,
                states.last(),
                after,
                e,
                math,
            ),
        };
    match r {
        Ok(_) => {
            assert forall|m: int, t: int|
                0 <= m < meshes.len() && 0 <= t < meshes[m].triangles() implies #[trigger] is_sound(
                meshes[m],
                t,
            ) by {
                assert(scene_step(meshes, faces, states, m, math));
                let inner = choose|inner: Seq<Raster>| #[trigger]
                    mesh_steps(meshes[m], faces, inner, math) && inner.len()
                        == meshes[m].triangles() + 1 && inner[0] == states[m] && inner.last()
                        == states[m + 1];
                assert(mesh_step(meshes[m], faces, inner, t, math));
            }
        },
        Err(e) => {
            let m = states.len() - 1;
            let t = choose|t: nat|
                t < meshes[m].triangles() && #[trigger] draws_mesh(
                    meshes[m],
                    t,
                    faces,
                    states.last(),
                    after,
                    math,
                ) && misses_vertex(meshes[m], t as int, e);
            let k = choose|k: int|
                0 <= k < 3 && #[trigger] meshes[m].indices@[3 * t + k]
                    >= meshes[m].vertices@.len();
            assert(!is_sound(meshes[m], t as int));
        },
    }
}

/// The triangle that is filled once a screen triangle was turned, or `None` where it is dropped.
proof fn lemma_triangle_is_filled<
    C,
    S,
    T: Fn(Vertex, Vertex, Vertex) -> (C, C, C),
    N: Fn(C) -> Single,
    X: Fn(C, C) -> C,
    P: Fn(C, usize, usize) -> Option<S>,
    A: Fn(S, S, S) -> Single,
    O: Fn(S, S, S) -> Outline,
    Q: Fn(S, S, S, usize, usize) -> Sample,
    H: Fn(S, S, S, usize, usize) -> Color,
>(
    v: (S, S, S),
    faces: Faces,
    before: Raster,
    after: Raster,
    math: RasterMath<T, N, X, P, A, O, Q, H>,
) -> (r: (Single, (S, S, S), Option<Outline>))
    requires
        draws_triangle(v, faces, before, after, math),
    ensures
        call_ensures(math.area, (v.0, v.1, v.2), r.0),
        r.2 is Some <==> is_drawn(faces.front_face, faces.cull, r.0),
        r.1 == if r.0.spec_lt(Single::zero()) {
            (v.0, v.2, v.1)
        } else {
            v
        },
        match r.2 {
            Some(o) => call_ensures(math.outline, ((r.1).0, (r.1).1, (r.1).2), o) && fills(
                r.1,
                o,
                before,
                after,
                math.sample,
                math.shade,
            ),
            None => after == before,
        },
{
    let area = choose|area: Single| #[trigger]
        call_ensures(math.area, (v.0, v.1, v.2), area) && if !is_drawn(
            faces.front_face,
            faces.cull,
            area,
        ) {
            after == before
        } else if area.spec_lt(Single::zero()) {
            draws_oriented((v.0, v.2, v.1), before, after, math)
        } else {
            draws_oriented(v, before, after, math)
        };
    let u = if area.spec_lt(Single::zero()) {
        (v.0, v.2, v.1)
    } else {
        v
    };
    if is_drawn(faces.front_face, faces.cull, area) {
        let o = choose|o: Outline| #[trigger]
            call_ensures(math.outline, (u.0, u.1, u.2), o) && fills(
                u,
                o,
                before,
                after,
                math.sample,
                math.shade,
            );
        (area, u, Some(o))
    } else {
        (area, u, None)
    }
}

/// A fragment takes its color and its depth from the pixel it lies at. Where the shading and the sampling
/// of a triangle depend on the pixel alone, every pixel of a filled triangle is as it was, or has exactly
/// the color and the depth that belong to it. Such a fragment is not outside any edge, lies between the
/// near plane and the far plane, and is in front of what was there.
pub proof fn law_fragments_belong_to_their_pixel<
    C,
    S,
    T: Fn(Vertex, Vertex, Vertex) -> (C, C, C),
    N: Fn(C) -> Single,
    X: Fn(C, C) -> C,
    P: Fn(C, usize, usize) -> Option<S>,
    A: Fn(S, S, S) -> Single,
    O: Fn(S, S, S) -> Outline,
    Q: Fn(S, S, S, usize, usize) -> Sample,
    H: Fn(S, S, S, usize, usize) -> Color,
>(
    v: (S, S, S),
    faces: Faces,
    before: Raster,
    after: Raster,
    math: RasterMath<T, N, X, P, A, O, Q, H>,
    color_of: spec_fn(int, int) -> Color,
    sample_of: spec_fn(int, int) -> Sample,
    x: int,
    y: int,
)
    requires
        before.wf(),
        before.contains(x, y),
        draws_triangle(v, faces, before, after, math),
        forall|a: S, b: S, c: S, px: usize, py: usize, color: Color| #[trigger]
            call_ensures(math.shade, (a, b, c, px, py), color) ==> color == color_of(
                px as int,
                py as int,
            ),
        forall|a: S, b: S, c: S, px: usize, py: usize, s: Sample| #[trigger]
            call_ensures(math.sample, (a, b, c, px, py), s) ==> s == sample_of(px as int, py as int),
    ensures
        ({
            let i = y * before.width + x;
            let s = sample_of(x, y);
            ||| after.color[i] == before.color[i] && after.depth[i] == before.depth[i]
            ||| {
                &&& after.color[i] == color_of(x, y)
                &&& after.depth[i] == s.depth
                &&& Single::zero().spec_le(s.edges.0)
                &&& Single::zero().spec_le(s.edges.1)
                &&& Single::zero().spec_le(s.edges.2)
                &&& Single::zero().spec_le(s.depth)
                &&& s.depth.spec_le(Single::one())
                &&& !before.depth[i].spec_le(s.depth)
            }
        }),
{
    let (area, u, o) = lemma_triangle_is_filled(v, faces, before, after, math);
    if let Some(o) = o {
        assert(filled_at(u, o, before, after, x, y, math.sample, math.shade));
    }
}

/// A pixel that lies within the extent of a triangle and strictly inside its edges is drawn, where the
/// triangle is in front of what is there: it gets the color and the depth that belong to it.
pub proof fn law_covered_pixel_is_drawn<
    C,
    S,
    T: Fn(Vertex, Vertex, Vertex) -> (C, C, C),
    N: Fn(C) -> Single,
    X: Fn(C, C) -> C,
    P: Fn(C, usize, usize) -> Option<S>,
    A: Fn(S, S, S) -> Single,
    O: Fn(S, S, S) -> Outline,
    Q: Fn(S, S, S, usize, usize) -> Sample,
    H: Fn(S, S, S, usize, usize) -> Color,
>(
    v: (S, S, S),
    faces: Faces,
    before: Raster,
    after: Raster,
    math: RasterMath<T, N, X, P, A, O, Q, H>,
    color_of: spec_fn(int, int) -> Color,
    sample_of: spec_fn(int, int) -> Sample,
    x: int,
    y: int,
)
    requires
        before.wf(),
        before.contains(x, y),
        draws_triangle(v, faces, before, after, math),
        faces.cull == Cull::Neither,
        forall|a: S, b: S, c: S, area: Single| #[trigger]
            call_ensures(math.area, (a, b, c), area) ==> area.is_finite() && (area.spec_lt(
                Single::zero(),
            ) || Single::zero().spec_lt(area)),
        forall|a: S, b: S, c: S, o: Outline| #[trigger]
            call_ensures(math.outline, (a, b, c), o) ==> o.columns.0 <= x <= o.columns.1 && o.rows.0
                <= y <= o.rows.1,
        forall|a: S, b: S, c: S, px: usize, py: usize, color: Color| #[trigger]
            call_ensures(math.shade, (a, b, c, px, py), color) ==> color == color_of(
                px as int,
                py as int,
            ),
        forall|a: S, b: S, c: S, px: usize, py: usize, s: Sample| #[trigger]
            call_ensures(math.sample, (a, b, c, px, py), s) ==> s == sample_of(px as int, py as int),
        Single::zero().spec_lt(sample_of(x, y).edges.0),
        Single::zero().spec_lt(sample_of(x, y).edges.1),
        Single::zero().spec_lt(sample_of(x, y).edges.2),
        Single::zero().spec_le(sample_of(x, y).depth),
        sample_of(x, y).depth.spec_le(Single::one()),
        !before.depth[y * before.width + x].spec_le(sample_of(x, y).depth),
    ensures
        after.color[y * before.width + x] == color_of(x, y),
        after.depth[y * before.width + x] == sample_of(x, y).depth,
{
    let (area, u, o) = lemma_triangle_is_filled(v, faces, before, after, math);
    if let Some(o) = o {
        assert(filled_at(u, o, before, after, x, y, math.sample, math.shade));
        let s = choose|s: Sample| #[trigger]
            call_ensures(math.sample, (u.0, u.1, u.2, x as usize, y as usize), s) && if covers(o, s)
                && wins(s.depth, depth_at(before, x, y)) {
                &&& depth_at(after, x, y) == s.depth
                &&& call_ensures(
                    math.shade,
                    (u.0, u.1, u.2, x as usize, y as usize),
                    after.pixel(x, y),
                )
            } else {
                untouched(before, after, x, y)
            };
        assert(covers(o, s));
    }
}

/// Beyond the columns and rows between which a triangle lies, nothing changes.
pub proof fn law_triangle_stays_in_its_extent<
    C,
    S,
    T: Fn(Vertex, Vertex, Vertex) -> (C, C, C),
    N: Fn(C) -> Single,
    X: Fn(C, C) -> C,
    P: Fn(C, usize, usize) -> Option<S>,
    A: Fn(S, S, S) -> Single,
    O: Fn(S, S, S) -> Outline,
    Q: Fn(S, S, S, usize, usize) -> Sample,
    H: Fn(S, S, S, usize, usize) -> Color,
>(
    v: (S, S, S),
    faces: Faces,
    before: Raster,
    after: Raster,
    math: RasterMath<T, N, X, P, A, O, Q, H>,
    x: int,
    y: int,
)
    requires
        before.wf(),
        before.contains(x, y),
        draws_triangle(v, faces, before, after, math),
        forall|a: S, b: S, c: S, o: Outline| #[trigger]
            call_ensures(math.outline, (a, b, c), o) ==> x < o.columns.0 || x > o.columns.1 || y
                < o.rows.0 || y > o.rows.1,
    ensures
        after.color[y * before.width + x] == before.color[y * before.width + x],
        after.depth[y * before.width + x] == before.depth[y * before.width + x],
{
    let (area, u, o) = lemma_triangle_is_filled(v, faces, before, after, math);
    if let Some(o) = o {
        assert(filled_at(u, o, before, after, x, y, math.sample, math.shade));
    }
}

/// Seen from behind, a triangle is not drawn where back faces are left out, and seen from the front it is
/// not drawn where front faces are. On the screen rows count downwards, so a triangle that runs
/// counter-clockwise has a negative area there. One without an area is never drawn.
pub proof fn law_culled_triangle_leaves_no_trace<
    C,
    S,
    T: Fn(Vertex, Vertex, Vertex) -> (C, C, C),
    N: Fn(C) -> Single,
    X: Fn(C, C) -> C,
    P: Fn(C, usize, usize) -> Option<S>,
    A: Fn(S, S, S) -> Single,
    O: Fn(S, S, S) -> Outline,
    Q: Fn(S, S, S, usize, usize) -> Sample,
    H: Fn(S, S, S, usize, usize) -> Color,
>(
    v: (S, S, S),
    faces: Faces,
    before: Raster,
    after: Raster,
    math: RasterMath<T, N, X, P, A, O, Q, H>,
)
    requires
        draws_triangle(v, faces, before, after, math),
        forall|a: S, b: S, c: S, area: Single| #[trigger]
            call_ensures(math.area, (a, b, c), area) ==> {
                ||| faces.front_face == FrontFace::CounterClockwise && faces.cull == Cull::Back
                    && Single::zero().spec_lt(area)
                ||| faces.front_face == FrontFace::CounterClockwise && faces.cull == Cull::Front
                    && area.spec_lt(Single::zero())
                ||| faces.front_face == FrontFace::Clockwise && faces.cull == Cull::Back
                    && area.spec_lt(Single::zero())
                ||| faces.front_face == FrontFace::Clockwise && faces.cull == Cull::Front
                    && Single::zero().spec_lt(area)
                ||| area == Single::zero()
                ||| area.is_nan()
            },
    ensures
        after == before,
{
    let (area, u, o) = lemma_triangle_is_filled(v, faces, before, after, math);
}

/// Filling the same triangle on the same picture gives the same picture, where the arithmetic always
/// gives the same.
proof fn lemma_filling_is_unique<
    S,
    Q: Fn(S, S, S, usize, usize) -> Sample,
    H: Fn(S, S, S, usize, usize) -> Color,
>(
    v: (S, S, S),
    o: Outline,
    before: Raster,
    one: Raster,
    two: Raster,
    sample: Q,
    shade: H,
    sample_of: spec_fn(S, S, S, int, int) -> Sample,
    shade_of: spec_fn(S, S, S, int, int) -> Color,
)
    requires
        before.wf(),
        fills(v, o, before, one, sample, shade),
        fills(v, o, before, two, sample, shade),
        forall|a: S, b: S, c: S, px: usize, py: usize, color: Color| #[trigger]
            call_ensures(shade, (a, b, c, px, py), color) ==> color == shade_of(
                a,
                b,
                c,
                px as int,
                py as int,
            ),
        forall|a: S, b: S, c: S, px: usize, py: usize, s: Sample| #[trigger]
            call_ensures(sample, (a, b, c, px, py), s) ==> s == sample_of(
                a,
                b,
                c,
                px as int,
                py as int,
            ),
    ensures
        one == two,
{
    let (w, h) = (before.width as int, before.height as int);
    assert forall|i: int| 0 <= i < one.color.len() implies one.color[i] == two.color[i]
        && one.depth[i] == two.depth[i] by {
        lemma_index_has_a_pixel(i, w, h);
        let (x, y) = (i % w, i / w);
        assert(filled_at(v, o, before, one, x, y, sample, shade));
        assert(filled_at(v, o, before, two, x, y, sample, shade));
    }
    assert(one.color =~= two.color);
    assert(one.depth =~= two.depth);
}

/// Where nothing is culled, the order in which a triangle's second and third vertex are given makes no
/// difference: the same picture comes out. (Swapping them turns the sign of the area.)
pub proof fn law_winding_does_not_change_the_picture<
    C,
    S,
    T: Fn(Vertex, Vertex, Vertex) -> (C, C, C),
    N: Fn(C) -> Single,
    X: Fn(C, C) -> C,
    P: Fn(C, usize, usize) -> Option<S>,
    A: Fn(S, S, S) -> Single,
    O: Fn(S, S, S) -> Outline,
    Q: Fn(S, S, S, usize, usize) -> Sample,
    H: Fn(S, S, S, usize, usize) -> Color,
>(
    v: (S, S, S),
    faces: Faces,
    before: Raster,
    one: Raster,
    two: Raster,
    math: RasterMath<T, N, X, P, A, O, Q, H>,
    area_of: spec_fn(S, S, S) -> Single,
    outline_of: spec_fn(S, S, S) -> Outline,
    sample_of: spec_fn(S, S, S, int, int) -> Sample,
    shade_of: spec_fn(S, S, S, int, int) -> Color,
)
    requires
        before.wf(),
        faces.cull == Cull::Neither,
        draws_triangle(v, faces, before, one, math),
        draws_triangle((v.0, v.2, v.1), faces, before, two, math),
        forall|a: S, b: S, c: S, area: Single| #[trigger]
            call_ensures(math.area, (a, b, c), area) ==> area == area_of(a, b, c),
        forall|a: S, b: S, c: S, o: Outline| #[trigger]
            call_ensures(math.outline, (a, b, c), o) ==> o == outline_of(a, b, c),
        forall|a: S, b: S, c: S, px: usize, py: usize, color: Color| #[trigger]
            call_ensures(math.shade, (a, b, c, px, py), color) ==> color == shade_of(
                a,
                b,
                c,
                px as int,
                py as int,
            ),
        forall|a: S, b: S, c: S, px: usize, py: usize, s: Sample| #[trigger]
            call_ensures(math.sample, (a, b, c, px, py), s) ==> s == sample_of(
                a,
                b,
                c,
                px as int,
                py as int,
            ),
        area_of(v.0, v.1, v.2).is_finite() && area_of(v.0, v.2, v.1).is_finite(),
        area_of(v.0, v.1, v.2).spec_lt(Single::zero()) <==> Single::zero().spec_lt(
            area_of(v.0, v.2, v.1),
        ),
        area_of(v.0, v.2, v.1).spec_lt(Single::zero()) <==> Single::zero().spec_lt(
            area_of(v.0, v.1, v.2),
        ),
    ensures
        one == two,
{
    let (a, u, o) = lemma_triangle_is_filled(v, faces, before, one, math);
    let (b, w, p) = lemma_triangle_is_filled((v.0, v.2, v.1), faces, before, two, math);
    if o is Some {
        lemma_filling_is_unique(
            u,
            o->0,
            before,
            one,
            two,
            math.sample,
            math.shade,
            sample_of,
            shade_of,
        );
    }
}

/// A triangle is sampled and shaded with its vertices in the order in which its area is positive.
pub proof fn law_triangles_are_filled_with_positive_area<
    C,
    S,
    T: Fn(Vertex, Vertex, Vertex) -> (C, C, C),
    N: Fn(C) -> Single,
    X: Fn(C, C) -> C,
    P: Fn(C, usize, usize) -> Option<S>,
    A: Fn(S, S, S) -> Single,
    O: Fn(S, S, S) -> Outline,
    Q: Fn(S, S, S, usize, usize) -> Sample,
    H: Fn(S, S, S, usize, usize) -> Color,
>(
    v: (S, S, S),
    faces: Faces,
    before: Raster,
    after: Raster,
    math: RasterMath<T, N, X, P, A, O, Q, H>,
    area_of: spec_fn(S, S, S) -> Single,
    shade_of: spec_fn(S, S, S, int, int) -> Color,
    x: int,
    y: int,
)
    requires
        before.wf(),
        before.contains(x, y),
        draws_triangle(v, faces, before, after, math),
        forall|a: S, b: S, c: S, area: Single| #[trigger]
            call_ensures(math.area, (a, b, c), area) ==> area == area_of(a, b, c),
        forall|a: S, b: S, c: S, px: usize, py: usize, color: Color| #[trigger]
            call_ensures(math.shade, (a, b, c, px, py), color) ==> color == shade_of(
                a,
                b,
                c,
                px as int,
                py as int,
            ),
    ensures
        ({
            let i = y * before.width + x;
            ||| after.color[i] == before.color[i] && after.depth[i] == before.depth[i]
            ||| Single::zero().spec_lt(area_of(v.0, v.1, v.2)) && after.color[i] == shade_of(
                v.0,
                v.1,
                v.2,
                x,
                y,
            )
            ||| area_of(v.0, v.1, v.2).spec_lt(Single::zero()) && after.color[i] == shade_of(
                v.0,
                v.2,
                v.1,
                x,
                y,
            )
        }),
{
    let (area, u, o) = lemma_triangle_is_filled(v, faces, before, after, math);
    if let Some(o) = o {
        assert(filled_at(u, o, before, after, x, y, math.sample, math.shade));
    }
}

/// A polygon of three vertices is drawn as that triangle, and one of four as two triangles that together
/// make it up, both starting from its first vertex and going round the way it does.
pub proof fn law_polygon_is_cut_into_its_triangles<
    C,
    S,
    T: Fn(Vertex, Vertex, Vertex) -> (C, C, C),
    N: Fn(C) -> Single,
    X: Fn(C, C) -> C,
    P: Fn(C, usize, usize) -> Option<S>,
    A: Fn(S, S, S) -> Single,
    O: Fn(S, S, S) -> Outline,
    Q: Fn(S, S, S, usize, usize) -> Sample,
    H: Fn(S, S, S, usize, usize) -> Color,
>(
    screen: Seq<S>,
    faces: Faces,
    before: Raster,
    after: Raster,
    math: RasterMath<T, N, X, P, A, O, Q, H>,
)
    requires
        draws_polygon(screen, faces, before, after, math),
    ensures
        screen.len() < 3 ==> after == before,
        screen.len() == 3 ==> draws_triangle(
            (screen[0], screen[1], screen[2]),
            faces,
            before,
            after,
            math,
        ),
        screen.len() == 4 ==> exists|mid: Raster|
            draws_triangle((screen[0], screen[1], screen[2]), faces, before, mid, math)
                && #[trigger] draws_triangle(
                (screen[0], screen[2], screen[3]),
                faces,
                mid,
                after,
                math,
            ),
{
    if screen.len() >= 3 {
        let states = choose|states: Seq<Raster>| #[trigger]
            fan_steps(screen, faces, states, math) && states.len() == screen.len() - 1 && states[0]
                == before && states.last() == after;
        assert(fan_step(screen, faces, states, 0, math));
        if screen.len() == 4 {
            assert(fan_step(screen, faces, states, 1, math));
        }
    }
}

/// What is in front of the near plane is kept and what is behind it is cut off, edge by edge: a vertex in
/// front stays, and an edge with one end in front is cut where it crosses the plane. The polygon goes round
/// as the triangle does.
pub proof fn law_clipping_cuts_off_what_is_behind<C, N: Fn(C) -> Single, X: Fn(C, C) -> C>(
    c: (C, C, C),
    d: (Single, Single, Single),
    points: Seq<C>,
    near: N,
    crossing: X,
    near_of: spec_fn(C) -> Single,
    cross: spec_fn(C, C) -> C,
)
    requires
        clips_to(c, d, points, near, crossing),
        forall|p: C, n: Single| #[trigger] call_ensures(near, (p,), n) ==> n == near_of(p),
        forall|p: C, q: C, r: C| #[trigger] call_ensures(crossing, (p, q), r) ==> r == cross(p, q),
    ensures
        ({
            let f0 = Single::zero().spec_le(near_of(c.0));
            let f1 = Single::zero().spec_le(near_of(c.1));
            let f2 = Single::zero().spec_le(near_of(c.2));
            &&& f0 && f1 && f2 ==> points == seq![c.0, c.1, c.2]
            &&& !f0 && !f1 && !f2 ==> points == Seq::<C>::empty()
            &&& f0 && f1 && !f2 ==> points == seq![c.0, c.1, cross(c.1, c.2), cross(c.2, c.0)]
            &&& f0 && !f1 && f2 ==> points == seq![c.0, cross(c.0, c.1), cross(c.1, c.2), c.2]
            &&& !f0 && f1 && f2 ==> points == seq![cross(c.0, c.1), c.1, c.2, cross(c.2, c.0)]
            &&& f0 && !f1 && !f2 ==> points == seq![c.0, cross(c.0, c.1), cross(c.2, c.0)]
            &&& !f0 && f1 && !f2 ==> points == seq![cross(c.0, c.1), c.1, cross(c.1, c.2)]
            &&& !f0 && !f1 && f2 ==> points == seq![cross(c.1, c.2), c.2, cross(c.2, c.0)]
        }),
{
    let poly = clipped(insides(d));
    assert forall|k: int| 0 <= k < points.len() implies clip_point(
        c,
        #[trigger] poly[k],
        points[k],
        crossing,
    ) by {
        let p = points[k];
    }
    let f0 = Single::zero().spec_le(near_of(c.0));
    let f1 = Single::zero().spec_le(near_of(c.1));
    let f2 = Single::zero().spec_le(near_of(c.2));
    if f0 && f1 && f2 {
        assert(points =~= seq![c.0, c.1, c.2]);
    } else if !f0 && !f1 && !f2 {
        assert(points =~= Seq::<C>::empty());
    } else if f0 && f1 {
        assert(points =~= seq![c.0, c.1, cross(c.1, c.2), cross(c.2, c.0)]);
    } else if f0 && f2 {
        assert(points =~= seq![c.0, cross(c.0, c.1), cross(c.1, c.2), c.2]);
    } else if f1 && f2 {
        assert(points =~= seq![cross(c.0, c.1), c.1, c.2, cross(c.2, c.0)]);
    } else if f0 {
        assert(points =~= seq![c.0, cross(c.0, c.1), cross(c.2, c.0)]);
    } else if f1 {
        assert(points =~= seq![cross(c.0, c.1), c.1, cross(c.1, c.2)]);
    } else {
        assert(points =~= seq![cross(c.1, c.2), c.2, cross(c.2, c.0)]);
    }
}

/// A triangle all of which is in front of the near plane is drawn as its three vertices, each where it is
/// projected to, in their order, on a screen as wide and high as the target.
pub proof fn law_visible_triangle_is_projected<
    C,
    S,
    T: Fn(Vertex, Vertex, Vertex) -> (C, C, C),
    N: Fn(C) -> Single,
    X: Fn(C, C) -> C,
    P: Fn(C, usize, usize) -> Option<S>,
    A: Fn(S, S, S) -> Single,
    O: Fn(S, S, S) -> Outline,
    Q: Fn(S, S, S, usize, usize) -> Sample,
    H: Fn(S, S, S, usize, usize) -> Color,
>(
    c: (C, C, C),
    faces: Faces,
    before: Raster,
    after: Raster,
    math: RasterMath<T, N, X, P, A, O, Q, H>,
    near_of: spec_fn(C) -> Single,
    place_of: spec_fn(C, int, int) -> Option<S>,
)
    requires
        before.wf(),
        0 < before.width,
        0 < before.height,
        draws_clipped(c, faces, before, after, math),
        forall|p: C, n: Single| #[trigger] call_ensures(math.near, (p,), n) ==> n == near_of(p),
        forall|p: C, w: usize, h: usize, s: Option<S>| #[trigger]
            call_ensures(math.project, (p, w, h), s) ==> s == place_of(p, w as int, h as int),
        Single::zero().spec_le(near_of(c.0)),
        Single::zero().spec_le(near_of(c.1)),
        Single::zero().spec_le(near_of(c.2)),
    ensures
        ({
            let p0 = place_of(c.0, before.width as int, before.height as int);
            let p1 = place_of(c.1, before.width as int, before.height as int);
            let p2 = place_of(c.2, before.width as int, before.height as int);
            if p0 is Some && p1 is Some && p2 is Some {
                draws_triangle((p0->0, p1->0, p2->0), faces, before, after, math)
            } else {
                after == before
            }
        }),
{
    let (d, points) = choose|d: (Single, Single, Single), points: Seq<C>| #[trigger]
        clips_to(c, d, points, math.near, math.crossing) && draws_points(
            points,
            faces,
            before,
            after,
            math,
        );
    let poly = clipped(insides(d));
    assert(points.len() == 3);
    assert(clip_point(c, poly[0], points[0], math.crossing));
    assert(clip_point(c, poly[1], points[1], math.crossing));
    assert(clip_point(c, poly[2], points[2], math.crossing));
    assert(points[0] == c.0 && points[1] == c.1 && points[2] == c.2);
    if misses_screen(points, before.width, before.height, math.project) && after == before {
        let k = choose|k: int|
            0 <= k < points.len() && call_ensures(
                math.project,
                (#[trigger] points[k], before.width as usize, before.height as usize),
                None::<S>,
            );
    } else {
        let screen = choose|screen: Seq<S>| #[trigger]
            lands_on(points, screen, before.width, before.height, math.project) && draws_polygon(
                screen,
                faces,
                before,
                after,
                math,
            );
        let (a, b, e) = (screen[0], screen[1], screen[2]);
        law_polygon_is_cut_into_its_triangles(screen, faces, before, after, math);
    }
}

/// A triangle of a mesh is made of the vertices that its three indices name, in their order.
pub proof fn law_face_has_the_vertices_it_names<
    C,
    S,
    T: Fn(Vertex, Vertex, Vertex) -> (C, C, C),
    N: Fn(C) -> Single,
    X: Fn(C, C) -> C,
    P: Fn(C, usize, usize) -> Option<S>,
    A: Fn(S, S, S) -> Single,
    O: Fn(S, S, S) -> Outline,
    Q: Fn(S, S, S, usize, usize) -> Sample,
    H: Fn(S, S, S, usize, usize) -> Color,
>(
    mesh: Mesh,
    t: int,
    faces: Faces,
    before: Raster,
    after: Raster,
    math: RasterMath<T, N, X, P, A, O, Q, H>,
)
    requires
        draws_face(mesh, t, faces, before, after, math),
    ensures
        exists|c: (C, C, C)| #[trigger]
            call_ensures(
                math.transform,
                (
                    mesh.vertices@[mesh.indices@[3 * t] as int],
                    mesh.vertices@[mesh.indices@[3 * t + 1] as int],
                    mesh.vertices@[mesh.indices@[3 * t + 2] as int],
                ),
                c,
            ) && draws_clipped(c, faces, before, after, math),
{
}

/// Rendering starts from a cleared picture: without meshes, every pixel has the clear color and is as far
/// as can be.
pub proof fn law_empty_scene_is_clear<
    C,
    S,
    T: Fn(Vertex, Vertex, Vertex) -> (C, C, C),
    N: Fn(C) -> Single,
    X: Fn(C, C) -> C,
    P: Fn(C, usize, usize) -> Option<S>,
    A: Fn(S, S, S) -> Single,
    O: Fn(S, S, S) -> Outline,
    Q: Fn(S, S, S, usize, usize) -> Sample,
    H: Fn(S, S, S, usize, usize) -> Color,
>(
    faces: Faces,
    clear_color: Color,
    before: Raster,
    after: Raster,
    r: Result<(), Error>,
    math: RasterMath<T, N, X, P, A, O, Q, H>,
)
    requires
        before.wf(),
        renders_to(Seq::<Mesh>::empty(), faces, clear_color, before, after, r, math),
    ensures
        r is Ok,
        after.width == before.width,
        after.height == before.height,
        after.color.len() == before.color.len(),
        after.depth.len() == before.depth.len(),
        forall|i: int| 0 <= i < after.color.len() ==> #[trigger] after.color[i] == clear_color,
        forall|i: int| 0 <= i < after.depth.len() ==> #[trigger] after.depth[i] == Single::one(),
{
}

/// Every triangle of every mesh is drawn: when its turn comes, on a picture that all before it have led to,
/// and what is drawn behind it never takes away anything nearer.
pub proof fn law_every_triangle_is_drawn<
    C,
    S,
    T: Fn(Vertex, Vertex, Vertex) -> (C, C, C),
    N: Fn(C) -> Single,
    X: Fn(C, C) -> C,
    P: Fn(C, usize, usize) -> Option<S>,
    A: Fn(S, S, S) -> Single,
    O: Fn(S, S, S) -> Outline,
    Q: Fn(S, S, S, usize, usize) -> Sample,
    H: Fn(S, S, S, usize, usize) -> Color,
>(
    meshes: Seq<Mesh>,
    faces: Faces,
    clear_color: Color,
    before: Raster,
    after: Raster,
    math: RasterMath<T, N, X, P, A, O, Q, H>,
    m: int,
    t: int,
)
    requires
        renders_to(meshes, faces, clear_color, before, after, Ok::<(), Error>(()), math),
        0 <= m < meshes.len(),
        0 <= t < meshes[m].indices@.len() / 3,
    ensures
        exists|one: Raster, two: Raster| #[trigger]
            draws_face(meshes[m], t, faces, one, two, math) && comes_nearer(
                cleared(before, clear_color),
                one,
            ) && comes_nearer(two, after),
{
    let states = choose|states: Seq<Raster>| #[trigger]
        scene_steps(meshes, faces, states, math) && states.len() >= 1 && states[0] == cleared(
            before,
            clear_color,
        ) && states.len() == meshes.len() + 1 && states.last() == after;
    assert forall|k: int| 0 <= k < states.len() - 1 implies comes_nearer(
        #[trigger] states[k],
        states[k + 1],
    ) by {
        assert(scene_step(meshes, faces, states, k, math));
        lemma_mesh_comes_nearer(
            meshes[k],
            meshes[k].triangles(),
            faces,
            states[k],
            states[k + 1],
            math,
        );
    }
    lemma_nearer_between(states, 0, m);
    lemma_nearer_between(states, m + 1, states.len() - 1);
    assert(scene_step(meshes, faces, states, m, math));
    let n = meshes[m].triangles();
    let inner = choose|inner: Seq<Raster>| #[trigger]
        mesh_steps(meshes[m], faces, inner, math) && inner.len() == n + 1 && inner[0] == states[m]
            && inner.last() == states[m + 1];
    assert forall|k: int| 0 <= k < inner.len() - 1 implies comes_nearer(
        #[trigger] inner[k],
        inner[k + 1],
    ) by {
        assert(mesh_step(meshes[m], faces, inner, k, math));
        lemma_face_comes_nearer(meshes[m], k, faces, inner[k], inner[k + 1], math);
    }
    lemma_nearer_between(inner, 0, t);
    lemma_nearer_between(inner, t + 1, inner.len() - 1);
    assert(mesh_step(meshes[m], faces, inner, t, math));
    lemma_nearer_twice(states[0], states[m], inner[t]);
    lemma_nearer_twice(inner[t + 1], states[m + 1], after);
    assert(draws_face(meshes[m], t, faces, inner[t], inner[t + 1], math));
}

/// Rasters that come nearer step by step come nearer from any one of them to any later.
proof fn lemma_nearer_between(states: Seq<Raster>, a: int, b: int)
    requires
        0 <= a <= b < states.len(),
        forall|k: int| 0 <= k < states.len() - 1 ==> comes_nearer(#[trigger] states[k], states[k + 1]),
    ensures
        comes_nearer(states[a], states[b]),
    decreases b - a,
{
    if a < b {
        lemma_nearer_between(states, a, b - 1);
        assert(comes_nearer(states[b - 1], states[b - 1 + 1]));
        lemma_nearer_twice(states[a], states[b - 1], states[b]);
    } else {
        assert forall|x: int, y: int| states[a].contains(x, y) implies #[trigger] nearer_at(
            states[a],
            states[b],
            x,
            y,
        ) by {}
    }
}

/// A fragment's depth is that of the triangle with its vertices in the order in which its area is
/// positive, and such a triangle, in that order, lies between the columns and rows of its outline.
pub proof fn law_depth_follows_the_vertices<
    C,
    S,
    T: Fn(Vertex, Vertex, Vertex) -> (C, C, C),
    N: Fn(C) -> Single,
    X: Fn(C, C) -> C,
    P: Fn(C, usize, usize) -> Option<S>,
    A: Fn(S, S, S) -> Single,
    O: Fn(S, S, S) -> Outline,
    Q: Fn(S, S, S, usize, usize) -> Sample,
    H: Fn(S, S, S, usize, usize) -> Color,
>(
    v: (S, S, S),
    faces: Faces,
    before: Raster,
    after: Raster,
    math: RasterMath<T, N, X, P, A, O, Q, H>,
    area_of: spec_fn(S, S, S) -> Single,
    outline_of: spec_fn(S, S, S) -> Outline,
    sample_of: spec_fn(S, S, S, int, int) -> Sample,
    x: int,
    y: int,
)
    requires
        before.wf(),
        before.contains(x, y),
        draws_triangle(v, faces, before, after, math),
        forall|a: S, b: S, c: S, area: Single| #[trigger]
            call_ensures(math.area, (a, b, c), area) ==> area == area_of(a, b, c),
        forall|a: S, b: S, c: S, o: Outline| #[trigger]
            call_ensures(math.outline, (a, b, c), o) ==> o == outline_of(a, b, c),
        forall|a: S, b: S, c: S, px: usize, py: usize, s: Sample| #[trigger]
            call_ensures(math.sample, (a, b, c, px, py), s) ==> s == sample_of(
                a,
                b,
                c,
                px as int,
                py as int,
            ),
    ensures
        ({
            let i = y * before.width + x;
            let o = outline_of(v.0, v.1, v.2);
            let turned = outline_of(v.0, v.2, v.1);
            ||| after.color[i] == before.color[i] && after.depth[i] == before.depth[i]
            ||| {
                &&& Single::zero().spec_lt(area_of(v.0, v.1, v.2))
                &&& after.depth[i] == sample_of(v.0, v.1, v.2, x, y).depth
                &&& o.columns.0 <= x <= o.columns.1
                &&& o.rows.0 <= y <= o.rows.1
            }
            ||| {
                &&& area_of(v.0, v.1, v.2).spec_lt(Single::zero())
                &&& after.depth[i] == sample_of(v.0, v.2, v.1, x, y).depth
                &&& turned.columns.0 <= x <= turned.columns.1
                &&& turned.rows.0 <= y <= turned.rows.1
            }
        }),
{
    let (area, u, o) = lemma_triangle_is_filled(v, faces, before, after, math);
    if let Some(o) = o {
        assert(filled_at(u, o, before, after, x, y, math.sample, math.shade));
    }
}

/// A sample on just one edge of a triangle belongs to it by how that edge runs, and by that edge alone:
/// it is drawn where the edge climbs, or runs level to the left, and left alone where it falls, or runs
/// level to the right.
pub proof fn law_edge_decides_its_own_samples<
    C,
    S,
    T: Fn(Vertex, Vertex, Vertex) -> (C, C, C),
    N: Fn(C) -> Single,
    X: Fn(C, C) -> C,
    P: Fn(C, usize, usize) -> Option<S>,
    A: Fn(S, S, S) -> Single,
    O: Fn(S, S, S) -> Outline,
    Q: Fn(S, S, S, usize, usize) -> Sample,
    H: Fn(S, S, S, usize, usize) -> Color,
>(
    v: (S, S, S),
    faces: Faces,
    before: Raster,
    after: Raster,
    math: RasterMath<T, N, X, P, A, O, Q, H>,
    area_of: spec_fn(S, S, S) -> Single,
    outline_of: spec_fn(S, S, S) -> Outline,
    sample_of: spec_fn(S, S, S, int, int) -> Sample,
    shade_of: spec_fn(S, S, S, int, int) -> Color,
    x: int,
    y: int,
)
    requires
        before.wf(),
        before.contains(x, y),
        faces.cull == Cull::Neither,
        draws_triangle(v, faces, before, after, math),
        forall|a: S, b: S, c: S, area: Single| #[trigger]
            call_ensures(math.area, (a, b, c), area) ==> area == area_of(a, b, c),
        forall|a: S, b: S, c: S, o: Outline| #[trigger]
            call_ensures(math.outline, (a, b, c), o) ==> o == outline_of(a, b, c),
        forall|a: S, b: S, c: S, px: usize, py: usize, s: Sample| #[trigger]
            call_ensures(math.sample, (a, b, c, px, py), s) ==> s == sample_of(
                a,
                b,
                c,
                px as int,
                py as int,
            ),
        forall|a: S, b: S, c: S, px: usize, py: usize, color: Color| #[trigger]
            call_ensures(math.shade, (a, b, c, px, py), color) ==> color == shade_of(
                a,
                b,
                c,
                px as int,
                py as int,
            ),
        area_of(v.0, v.1, v.2).is_finite(),
        Single::zero().spec_lt(area_of(v.0, v.1, v.2)),
        outline_of(v.0, v.1, v.2).columns.0 <= x <= outline_of(v.0, v.1, v.2).columns.1,
        outline_of(v.0, v.1, v.2).rows.0 <= y <= outline_of(v.0, v.1, v.2).rows.1,
        Single::zero().spec_le(sample_of(v.0, v.1, v.2, x, y).depth),
        sample_of(v.0, v.1, v.2, x, y).depth.spec_le(Single::one()),
        !before.depth[y * before.width + x].spec_le(sample_of(v.0, v.1, v.2, x, y).depth),
    ensures
        ({
            let i = y * before.width + x;
            let o = outline_of(v.0, v.1, v.2);
            let s = sample_of(v.0, v.1, v.2, x, y);
            let drawn = after.color[i] == shade_of(v.0, v.1, v.2, x, y) && after.depth[i] == s.depth;
            let left = after.color[i] == before.color[i] && after.depth[i] == before.depth[i];
            let inside = |w: Single| Single::zero().spec_lt(w);
            let on = |w: Single| w.rank() == 0;
            let belongs = |d: (Single, Single)|
                d.1.spec_lt(Single::zero()) || (d.1.rank() == 0 && d.0.spec_lt(Single::zero()));
            let falls = |d: (Single, Single)|
                Single::zero().spec_lt(d.1) || (d.1.rank() == 0 && Single::zero().spec_lt(d.0));
            &&& on(s.edges.0) && inside(s.edges.1) && inside(s.edges.2) ==> (belongs(o.first) ==> drawn)
                && (falls(o.first) ==> left)
            &&& inside(s.edges.0) && on(s.edges.1) && inside(s.edges.2) ==> (belongs(o.second)
                ==> drawn) && (falls(o.second) ==> left)
            &&& inside(s.edges.0) && inside(s.edges.1) && on(s.edges.2) ==> (belongs(o.third)
                ==> drawn) && (falls(o.third) ==> left)
        }),
{
    let (area, u, o) = lemma_triangle_is_filled(v, faces, before, after, math);
    if let Some(o) = o {
        assert(filled_at(u, o, before, after, x, y, math.sample, math.shade));
    }
}

} // verus!
