//! Rendering the edges of a scene as lines.
//!
//! Transforms and projections are arithmetic that is handed in as closures. Which edges there are, what is
//! left of them in front of the camera, and which pixels they cover, are decided here. There is no depth
//! test: every edge is drawn.

use crate::color::Color;
use crate::error::Error;
use crate::fill::cleared;
use crate::framebuffer::{lemma_index_has_a_pixel, lemma_index_in_plane, Framebuffer, Raster};
use crate::geometry::{Mesh, Scene, Vertex};
use crate::line::{draw_line, drawn, law_drawn_line_joins_its_ends};
use crate::raster::{clip_segment_near, dedup_edges, edges_of, fetch, ClippedSegment};
use crate::single::Single;
use crate::text::decimal;
use crate::weld::{first_seen, law_first_seen_lists_each_key_once};
use vstd::prelude::*;

verus! {

/// The arithmetic of rendering edges, on points in clip space.
pub struct WireMath<T, N, X, P> {
    /// A vertex in clip space.
    pub transform: T,
    /// How far a point is in front of the near plane.
    pub near: N,
    /// Where the segment between two points crosses the near plane.
    pub crossing: X,
    /// The pixel of a point on a screen of some width and height, if it has one.
    pub place: P,
}

/// Whether the arithmetic can be asked whatever comes.
pub open spec fn can_trace<
    C,
    T: Fn(Vertex) -> C,
    N: Fn(C) -> Single,
    X: Fn(C, C) -> C,
    P: Fn(C, usize, usize) -> Option<(i32, i32)>,
>(math: WireMath<T, N, X, P>) -> bool {
    &&& forall|v: Vertex| #[trigger] call_requires(math.transform, (v,))
    &&& forall|c: C| #[trigger] call_requires(math.near, (c,))
    &&& forall|a: C, b: C| #[trigger] call_requires(math.crossing, (a, b))
    &&& forall|c: C, w: usize, h: usize| #[trigger] call_requires(math.place, (c, w, h))
}

/// Whether `s` is what is left of the segment in front of the near plane, by the distances of its ends.
pub open spec fn trims_to<C, N: Fn(C) -> Single, X: Fn(C, C) -> C>(
    c: (C, C),
    d: (Single, Single),
    s: Option<(C, C)>,
    near: N,
    crossing: X,
) -> bool {
    &&& call_ensures(near, (c.0,), d.0)
    &&& call_ensures(near, (c.1,), d.1)
    &&& match (Single::zero().spec_le(d.0), Single::zero().spec_le(d.1)) {
        (false, false) => s is None,
        (true, true) => s == Some(c),
        (true, false) => s is Some && (s->0).0 == c.0 && call_ensures(crossing, c, (s->0).1),
        (false, true) => s is Some && (s->0).1 == c.1 && call_ensures(crossing, c, (s->0).0),
    }
}

/// Whether `after` is `before` with the segment between two points drawn, where both have a pixel.
pub open spec fn draws_segment<C, P: Fn(C, usize, usize) -> Option<(i32, i32)>>(
    s: (C, C),
    color: Color,
    before: Raster,
    after: Raster,
    place: P,
) -> bool {
    exists|p: Option<(i32, i32)>, q: Option<(i32, i32)>| #[trigger]
        call_ensures(place, (s.0, before.width as usize, before.height as usize), p) && #[trigger]
        call_ensures(place, (s.1, before.width as usize, before.height as usize), q) && if p is Some
            && q is Some {
            drawn(
                before,
                after,
                (p->0).0 as int,
                (p->0).1 as int,
                (q->0).0 as int,
                (q->0).1 as int,
                color,
            )
        } else {
            after == before
        }
}

/// Whether `after` is `before` with the edge between two vertices drawn: what is left of it in front of
/// the near plane.
pub open spec fn draws_edge<
    C,
    T: Fn(Vertex) -> C,
    N: Fn(C) -> Single,
    X: Fn(C, C) -> C,
    P: Fn(C, usize, usize) -> Option<(i32, i32)>,
>(
    a: Vertex,
    b: Vertex,
    color: Color,
    before: Raster,
    after: Raster,
    math: WireMath<T, N, X, P>,
) -> bool {
    exists|c: (C, C), d: (Single, Single), s: Option<(C, C)>| #[trigger]
        trims_to(c, d, s, math.near, math.crossing) && call_ensures(math.transform, (a,), c.0)
            && call_ensures(math.transform, (b,), c.1) && match s {
            Some(s) => draws_segment(s, color, before, after, math.place),
            None => after == before,
        }
}

/// Draws the edge between two vertices.
fn draw_edge<
    C: Copy,
    T: Fn(Vertex) -> C,
    N: Fn(C) -> Single,
    X: Fn(C, C) -> C,
    P: Fn(C, usize, usize) -> Option<(i32, i32)>,
>(
    a: Vertex,
    b: Vertex,
    color: Color,
    target: &mut Framebuffer,
    math: &WireMath<T, N, X, P>,
)
    requires
        old(target).wf(),
        old(target)@.width <= i32::MAX,
        old(target)@.height <= i32::MAX,
        can_trace(*math),
    ensures
        final(target).wf(),
        final(target)@.width == old(target)@.width,
        final(target)@.height == old(target)@.height,
        draws_edge(a, b, color, old(target)@, final(target)@, *math),
{
    let transform = &math.transform;
    let near = &math.near;
    let crossing = &math.crossing;
    let place = &math.place;
    let ghost before = target@;
    let c: (C, C) = (transform(a), transform(b));
    let d: (Single, Single) = (near(c.0), near(c.1));
    let s: Option<(C, C)> = match clip_segment_near(d.0, d.1) {
        ClippedSegment::Hidden => None,
        ClippedSegment::Whole => Some(c),
        ClippedSegment::Start => Some((c.0, crossing(c.0, c.1))),
        ClippedSegment::End => Some((crossing(c.0, c.1), c.1)),
    };
    assert(trims_to(c, d, s, math.near, math.crossing));
    let s: (C, C) = match s {
        Some(s) => s,
        None => {
            return;
        },
    };
    let w: usize = target.width();
    let h: usize = target.height();
    let p: Option<(i32, i32)> = place(s.0, w, h);
    let q: Option<(i32, i32)> = place(s.1, w, h);
    assert(call_ensures(math.place, (s.0, w, h), p));
    assert(call_ensures(math.place, (s.1, w, h), q));
    if let (Some(from), Some(to)) = (p, q) {
        draw_line(target, from.0, from.1, to.0, to.1, color);
    }
    assert(draws_segment(s, color, before, target@, math.place));
}

/// The edges of a mesh, each once.
pub open spec fn mesh_edges(mesh: Mesh) -> Seq<(u32, u32)> {
    first_seen(edges_of(mesh.indices@))
}

/// Whether both ends of an edge name a vertex.
pub open spec fn is_sound_edge(mesh: Mesh, e: (u32, u32)) -> bool {
    e.0 < mesh.vertices@.len() && e.1 < mesh.vertices@.len()
}

/// Whether `err` tells of the first end of an edge that names no vertex.
pub open spec fn misses_end(mesh: Mesh, e: (u32, u32), err: Error) -> bool {
    let bad = if e.0 >= mesh.vertices@.len() {
        e.0
    } else {
        e.1
    };
    &&& !is_sound_edge(mesh, e)
    &&& err is Geometry
    &&& err.detail() == "triangle index "@ + decimal(bad as nat) + " out of range"@
}

/// Whether step `k` draws the edge number `k` of a mesh.
pub open spec fn edge_step<
    C,
    T: Fn(Vertex) -> C,
    N: Fn(C) -> Single,
    X: Fn(C, C) -> C,
    P: Fn(C, usize, usize) -> Option<(i32, i32)>,
>(
    mesh: Mesh,
    color: Color,
    states: Seq<Raster>,
    k: int,
    math: WireMath<T, N, X, P>,
) -> bool {
    let e = mesh_edges(mesh)[k];
    is_sound_edge(mesh, e) && draws_edge(
        mesh.vertices@[e.0 as int],
        mesh.vertices@[e.1 as int],
        color,
        states[k],
        states[k + 1],
        math,
    )
}

/// Whether `states` are the rasters before, between and after edges of a mesh, from the first on.
pub open spec fn edge_steps<
    C,
    T: Fn(Vertex) -> C,
    N: Fn(C) -> Single,
    X: Fn(C, C) -> C,
    P: Fn(C, usize, usize) -> Option<(i32, i32)>,
>(mesh: Mesh, color: Color, states: Seq<Raster>, math: WireMath<T, N, X, P>) -> bool {
    forall|k: int|
        0 <= k < states.len() - 1 ==> #[trigger] edge_step(mesh, color, states, k, math)
}

/// Whether `after` is `before` with the first `n` edges of a mesh drawn.
pub open spec fn draws_edges<
    C,
    T: Fn(Vertex) -> C,
    N: Fn(C) -> Single,
    X: Fn(C, C) -> C,
    P: Fn(C, usize, usize) -> Option<(i32, i32)>,
>(
    mesh: Mesh,
    n: nat,
    color: Color,
    before: Raster,
    after: Raster,
    math: WireMath<T, N, X, P>,
) -> bool {
    exists|states: Seq<Raster>| #[trigger]
        edge_steps(mesh, color, states, math) && states.len() == n + 1 && states[0] == before
            && states.last() == after
}

/// Whether drawing the edges of a mesh breaks off with the error `e`, at the first that names a vertex that
/// is not there, with those before it drawn.
pub open spec fn edges_break_off<
    C,
    T: Fn(Vertex) -> C,
    N: Fn(C) -> Single,
    X: Fn(C, C) -> C,
    P: Fn(C, usize, usize) -> Option<(i32, i32)>,
>(
    mesh: Mesh,
    color: Color,
    before: Raster,
    after: Raster,
    e: Error,
    math: WireMath<T, N, X, P>,
) -> bool {
    exists|n: nat|
        n < mesh_edges(mesh).len() && #[trigger] draws_edges(mesh, n, color, before, after, math)
            && misses_end(mesh, mesh_edges(mesh)[n as int], e)
}

/// Draws the edges of a mesh, up to the first that names a vertex that is not there.
fn draw_mesh_edges<
    C: Copy,
    T: Fn(Vertex) -> C,
    N: Fn(C) -> Single,
    X: Fn(C, C) -> C,
    P: Fn(C, usize, usize) -> Option<(i32, i32)>,
>(mesh: &Mesh, color: Color, target: &mut Framebuffer, math: &WireMath<T, N, X, P>) -> (r: Result<
    (),
    Error,
>)
    requires
        old(target).wf(),
        old(target)@.width <= i32::MAX,
        old(target)@.height <= i32::MAX,
        can_trace(*math),
    ensures
        final(target).wf(),
        final(target)@.width == old(target)@.width,
        final(target)@.height == old(target)@.height,
        match r {
            Ok(_) => draws_edges(
                *mesh,
                mesh_edges(*mesh).len(),
                color,
                old(target)@,
                final(target)@,
                *math,
            ),
            Err(e) => edges_break_off(*mesh, color, old(target)@, final(target)@, e, *math),
        },
{
    let ghost before = target@;
    let ghost mut states: Seq<Raster> = seq![target@];
    let edges = dedup_edges(mesh.indices.as_slice());
    let verts = mesh.vertices.as_slice();
    let mut k: usize = 0;
    while k < edges.len()
        invariant
            edges@ == mesh_edges(*mesh),
            verts@ == mesh.vertices@,
            k <= edges@.len(),
            can_trace(*math),
            before == old(target)@,
            target.wf(),
            target@.width == before.width,
            target@.height == before.height,
            before.width <= i32::MAX,
            before.height <= i32::MAX,
            states.len() == k + 1,
            states[0] == before,
            states.last() == target@,
            edge_steps(*mesh, color, states, *math),
        decreases edges@.len() - k,
    {
        let ghost earlier = states;
        let e: (u32, u32) = edges[k];
        let a = match fetch(verts, e.0) {
            Ok(v) => v,
            Err(err) => {
                assert(draws_edges(*mesh, k as nat, color, before, target@, *math));
                return Err(err);
            },
        };
        let b = match fetch(verts, e.1) {
            Ok(v) => v,
            Err(err) => {
                assert(draws_edges(*mesh, k as nat, color, before, target@, *math));
                return Err(err);
            },
        };
        draw_edge(a, b, color, target, math);
        proof {
            states = states.push(target@);
            assert forall|j: int| 0 <= j < states.len() - 1 implies #[trigger] edge_step(
                *mesh,
                color,
                states,
                j,
                *math,
            ) by {
                if j < k {
                    assert(edge_step(*mesh, color, earlier, j, *math));
                    assert(states[j] == earlier[j] && states[j + 1] == earlier[j + 1]);
                } else {
                    assert(states[j] == earlier.last());
                }
            }
        }
        k = k + 1;
    }
    assert(draws_edges(*mesh, edges@.len(), color, before, target@, *math));
    Ok(())
}

/// Whether step `k` draws the edges of the mesh number `k`.
pub open spec fn wire_step<
    C,
    T: Fn(Vertex) -> C,
    N: Fn(C) -> Single,
    X: Fn(C, C) -> C,
    P: Fn(C, usize, usize) -> Option<(i32, i32)>,
>(
    meshes: Seq<Mesh>,
    color: Color,
    states: Seq<Raster>,
    k: int,
    math: WireMath<T, N, X, P>,
) -> bool {
    draws_edges(meshes[k], mesh_edges(meshes[k]).len(), color, states[k], states[k + 1], math)
}

/// Whether `states` are the rasters before, between and after meshes, from the first on.
pub open spec fn wire_steps<
    C,
    T: Fn(Vertex) -> C,
    N: Fn(C) -> Single,
    X: Fn(C, C) -> C,
    P: Fn(C, usize, usize) -> Option<(i32, i32)>,
>(meshes: Seq<Mesh>, color: Color, states: Seq<Raster>, math: WireMath<T, N, X, P>) -> bool {
    forall|k: int|
        0 <= k < states.len() - 1 ==> #[trigger] wire_step(meshes, color, states, k, math)
}

/// Whether tracing the meshes gives `after` and `r`: each edge of each of them drawn in order on a cleared
/// raster, or the error of the first edge that names a vertex that is not there, with all before it drawn.
/// Nothing is looked at where there are no pixels.
pub open spec fn traces_to<
    C,
    T: Fn(Vertex) -> C,
    N: Fn(C) -> Single,
    X: Fn(C, C) -> C,
    P: Fn(C, usize, usize) -> Option<(i32, i32)>,
>(
    meshes: Seq<Mesh>,
    color: Color,
    clear_color: Color,
    before: Raster,
    after: Raster,
    r: Result<(), Error>,
    math: WireMath<T, N, X, P>,
) -> bool {
    if before.width == 0 || before.height == 0 {
        r is Ok && after == cleared(before, clear_color)
    } else {
        exists|states: Seq<Raster>| #[trigger]
            wire_steps(meshes, color, states, math) && states.len() >= 1 && states[0] == cleared(
                before,
                clear_color,
            ) && match r {
                Ok(_) => states.len() == meshes.len() + 1 && states.last() == after,
                Err(e) => states.len() <= meshes.len() && edges_break_off(
                    meshes[states.len() - 1],
                    color,
                    states.last(),
                    after,
                    e,
                    math,
                ),
            }
    }
}

/// Renders a scene as a wireframe: clears `target`, then draws each edge of each mesh once. No depth test is
/// applied. An out-of-range triangle index yields a geometry error rather than a panic.
pub fn render_wireframe<
    C: Copy,
    T: Fn(Vertex) -> C,
    N: Fn(C) -> Single,
    X: Fn(C, C) -> C,
    P: Fn(C, usize, usize) -> Option<(i32, i32)>,
>(
    scene: &Scene,
    color: Color,
    clear_color: Color,
    target: &mut Framebuffer,
    math: &WireMath<T, N, X, P>,
) -> (r: Result<(), Error>)
    requires
        old(target).wf(),
        old(target)@.width <= i32::MAX,
        old(target)@.height <= i32::MAX,
        can_trace(*math),
    ensures
        final(target).wf(),
        final(target)@.width == old(target)@.width,
        final(target)@.height == old(target)@.height,
        traces_to(scene.meshes@, color, clear_color, old(target)@, final(target)@, r, *math),
{
    target.clear(clear_color);
    if target.width() == 0 || target.height() == 0 {
        return Ok(());
    }
    let ghost start = target@;
    let ghost mut states: Seq<Raster> = seq![target@];
    let mut m: usize = 0;
    while m < scene.meshes.len()
        invariant
            m <= scene.meshes@.len(),
            can_trace(*math),
            start == cleared(old(target)@, clear_color),
            target.wf(),
            target@.width == start.width,
            target@.height == start.height,
            0 < start.width <= i32::MAX,
            0 < start.height <= i32::MAX,
            states.len() == m + 1,
            states[0] == start,
            states.last() == target@,
            wire_steps(scene.meshes@, color, states, *math),
        decreases scene.meshes@.len() - m,
    {
        let ghost earlier = states;
        match draw_mesh_edges(&scene.meshes[m], color, target, math) {
            Ok(_) => {},
            Err(e) => {
                assert(states.len() - 1 == m);
                return Err(e);
            },
        }
        proof {
            states = states.push(target@);
            assert forall|j: int| 0 <= j < states.len() - 1 implies #[trigger] wire_step(
                scene.meshes@,
                color,
                states,
                j,
                *math,
            ) by {
                if j < m {
                    assert(wire_step(scene.meshes@, color, earlier, j, *math));
                    assert(states[j] == earlier[j] && states[j + 1] == earlier[j + 1]);
                } else {
                    assert(states[j] == earlier.last());
                }
            }
        }
        m = m + 1;
    }
    Ok(())
}

/// An edge both of whose ends are in front of the near plane is drawn from the pixel of the one to the
/// pixel of the other, column first, and only between them.
pub proof fn law_visible_edge_joins_its_ends<
    C,
    T: Fn(Vertex) -> C,
    N: Fn(C) -> Single,
    X: Fn(C, C) -> C,
    P: Fn(C, usize, usize) -> Option<(i32, i32)>,
>(
    a: Vertex,
    b: Vertex,
    color: Color,
    before: Raster,
    after: Raster,
    math: WireMath<T, N, X, P>,
    clip_of: spec_fn(Vertex) -> C,
    near_of: spec_fn(C) -> Single,
    place_of: spec_fn(C, int, int) -> Option<(i32, i32)>,
)
    requires
        before.wf(),
        draws_edge(a, b, color, before, after, math),
        forall|v: Vertex, c: C| #[trigger] call_ensures(math.transform, (v,), c) ==> c == clip_of(v),
        forall|p: C, n: Single| #[trigger] call_ensures(math.near, (p,), n) ==> n == near_of(p),
        forall|p: C, w: usize, h: usize, s: Option<(i32, i32)>| #[trigger]
            call_ensures(math.place, (p, w, h), s) ==> s == place_of(p, w as int, h as int),
        Single::zero().spec_le(near_of(clip_of(a))),
        Single::zero().spec_le(near_of(clip_of(b))),
    ensures
        ({
            let p = place_of(clip_of(a), before.width as int, before.height as int);
            let q = place_of(clip_of(b), before.width as int, before.height as int);
            if p is Some && q is Some {
                let (x0, y0) = ((p->0).0 as int, (p->0).1 as int);
                let (x1, y1) = ((q->0).0 as int, (q->0).1 as int);
                &&& before.contains(x0, y0) ==> after.color[y0 * before.width + x0] == color
                &&& before.contains(x1, y1) ==> after.color[y1 * before.width + x1] == color
                &&& forall|px: int, py: int|
                    #![trigger before.color[py * before.width + px]]
                    before.contains(px, py) && ((px < x0 && px < x1) || (px > x0 && px > x1) || (py
                        < y0 && py < y1) || (py > y0 && py > y1)) ==> after.color[py * before.width
                        + px] == before.color[py * before.width + px]
            } else {
                after == before
            }
        }),
{
    let (c, d, s) = choose|c: (C, C), d: (Single, Single), s: Option<(C, C)>| #[trigger]
        trims_to(c, d, s, math.near, math.crossing) && call_ensures(math.transform, (a,), c.0)
            && call_ensures(math.transform, (b,), c.1) && match s {
            Some(s) => draws_segment(s, color, before, after, math.place),
            None => after == before,
        };
    let s = s->0;
    let (p, q) = choose|p: Option<(i32, i32)>, q: Option<(i32, i32)>| #[trigger]
        call_ensures(math.place, (s.0, before.width as usize, before.height as usize), p)
            && #[trigger] call_ensures(
            math.place,
            (s.1, before.width as usize, before.height as usize),
            q,
        ) && if p is Some && q is Some {
            drawn(
                before,
                after,
                (p->0).0 as int,
                (p->0).1 as int,
                (q->0).0 as int,
                (q->0).1 as int,
                color,
            )
        } else {
            after == before
        };
    if p is Some && q is Some {
        law_drawn_line_joins_its_ends(
            before,
            after,
            (p->0).0 as int,
            (p->0).1 as int,
            (q->0).0 as int,
            (q->0).1 as int,
            color,
        );
    }
}

/// An edge with one end behind the near plane is cut: the end in front keeps its pixel, and the line goes
/// to where the edge crosses the plane. One that is all behind is not drawn.
pub proof fn law_edge_is_cut_at_the_near_plane<
    C,
    T: Fn(Vertex) -> C,
    N: Fn(C) -> Single,
    X: Fn(C, C) -> C,
    P: Fn(C, usize, usize) -> Option<(i32, i32)>,
>(
    a: Vertex,
    b: Vertex,
    color: Color,
    before: Raster,
    after: Raster,
    math: WireMath<T, N, X, P>,
    clip_of: spec_fn(Vertex) -> C,
    near_of: spec_fn(C) -> Single,
    cross: spec_fn(C, C) -> C,
    place_of: spec_fn(C, int, int) -> Option<(i32, i32)>,
)
    requires
        before.wf(),
        draws_edge(a, b, color, before, after, math),
        forall|v: Vertex, c: C| #[trigger] call_ensures(math.transform, (v,), c) ==> c == clip_of(v),
        forall|p: C, n: Single| #[trigger] call_ensures(math.near, (p,), n) ==> n == near_of(p),
        forall|p: C, q: C, r: C| #[trigger] call_ensures(math.crossing, (p, q), r) ==> r == cross(p, q),
        forall|p: C, w: usize, h: usize, s: Option<(i32, i32)>| #[trigger]
            call_ensures(math.place, (p, w, h), s) ==> s == place_of(p, w as int, h as int),
        !Single::zero().spec_le(near_of(clip_of(a))) || !Single::zero().spec_le(near_of(clip_of(b))),
    ensures
        ({
            let (fa, fb) = (
                Single::zero().spec_le(near_of(clip_of(a))),
                Single::zero().spec_le(near_of(clip_of(b))),
            );
            let (w, h) = (before.width as int, before.height as int);
            let cut = place_of(cross(clip_of(a), clip_of(b)), w, h);
            let kept = place_of(
                if fa {
                    clip_of(a)
                } else {
                    clip_of(b)
                },
                w,
                h,
            );
            if (fa || fb) && cut is Some && kept is Some {
                let (x0, y0) = ((kept->0).0 as int, (kept->0).1 as int);
                let (x1, y1) = ((cut->0).0 as int, (cut->0).1 as int);
                &&& before.contains(x0, y0) ==> after.color[y0 * before.width + x0] == color
                &&& before.contains(x1, y1) ==> after.color[y1 * before.width + x1] == color
            } else {
                after == before
            }
        }),
{
    let (c, d, s) = choose|c: (C, C), d: (Single, Single), s: Option<(C, C)>| #[trigger]
        trims_to(c, d, s, math.near, math.crossing) && call_ensures(math.transform, (a,), c.0)
            && call_ensures(math.transform, (b,), c.1) && match s {
            Some(s) => draws_segment(s, color, before, after, math.place),
            None => after == before,
        };
    if s is Some {
        let s = s->0;
        let (p, q) = choose|p: Option<(i32, i32)>, q: Option<(i32, i32)>| #[trigger]
            call_ensures(math.place, (s.0, before.width as usize, before.height as usize), p)
                && #[trigger] call_ensures(
                math.place,
                (s.1, before.width as usize, before.height as usize),
                q,
            ) && if p is Some && q is Some {
                drawn(
                    before,
                    after,
                    (p->0).0 as int,
                    (p->0).1 as int,
                    (q->0).0 as int,
                    (q->0).1 as int,
                    color,
                )
            } else {
                after == before
            };
        if p is Some && q is Some {
            law_drawn_line_joins_its_ends(
                before,
                after,
                (p->0).0 as int,
                (p->0).1 as int,
                (q->0).0 as int,
                (q->0).1 as int,
                color,
            );
        }
    }
}

/// Every edge of every mesh is drawn, between the two vertices that it names.
pub proof fn law_every_edge_is_drawn<
    C,
    T: Fn(Vertex) -> C,
    N: Fn(C) -> Single,
    X: Fn(C, C) -> C,
    P: Fn(C, usize, usize) -> Option<(i32, i32)>,
>(
    meshes: Seq<Mesh>,
    color: Color,
    clear_color: Color,
    before: Raster,
    after: Raster,
    math: WireMath<T, N, X, P>,
    m: int,
    e: (u32, u32),
)
    requires
        0 < before.width,
        0 < before.height,
        traces_to(meshes, color, clear_color, before, after, Ok::<(), Error>(()), math),
        0 <= m < meshes.len(),
        first_seen(edges_of(meshes[m].indices@)).contains(e),
    ensures
        e.0 < meshes[m].vertices@.len(),
        e.1 < meshes[m].vertices@.len(),
        exists|one: Raster, two: Raster| #[trigger]
            draws_edge(
                meshes[m].vertices@[e.0 as int],
                meshes[m].vertices@[e.1 as int],
                color,
                one,
                two,
                math,
            ),
{
    let states = choose|states: Seq<Raster>| #[trigger]
        wire_steps(meshes, color, states, math) && states.len() >= 1 && states[0] == cleared(
            before,
            clear_color,
        ) && states.len() == meshes.len() + 1 && states.last() == after;
    assert(wire_step(meshes, color, states, m, math));
    let n = mesh_edges(meshes[m]).len();
    let inner = choose|inner: Seq<Raster>| #[trigger]
        edge_steps(meshes[m], color, inner, math) && inner.len() == n + 1 && inner[0] == states[m]
            && inner.last() == states[m + 1];
    let k = choose|k: int| 0 <= k < n && mesh_edges(meshes[m])[k] == e;
    assert(edge_step(meshes[m], color, inner, k, math));
}

/// A wireframe has two colors: a pixel that no edge covers keeps the clear color.
pub proof fn law_wireframe_has_two_colors<
    C,
    T: Fn(Vertex) -> C,
    N: Fn(C) -> Single,
    X: Fn(C, C) -> C,
    P: Fn(C, usize, usize) -> Option<(i32, i32)>,
>(
    meshes: Seq<Mesh>,
    color: Color,
    clear_color: Color,
    before: Raster,
    after: Raster,
    r: Result<(), Error>,
    math: WireMath<T, N, X, P>,
)
    requires
        before.wf(),
        traces_to(meshes, color, clear_color, before, after, r, math),
    ensures
        two_colored(before.color.len(), after, color, clear_color),
        before.width == 0 || before.height == 0 || meshes.len() == 0 ==> forall|i: int|
            0 <= i < after.color.len() ==> #[trigger] after.color[i] == clear_color,
{
    if before.width > 0 && before.height > 0 {
        let states = choose|states: Seq<Raster>| #[trigger]
            wire_steps(meshes, color, states, math) && states.len() >= 1 && states[0] == cleared(
                before,
                clear_color,
            ) && match r {
                Ok(_) => states.len() == meshes.len() + 1 && states.last() == after,
                Err(e) => states.len() <= meshes.len() && edges_break_off(
                    meshes[states.len() - 1],
                    color,
                    states.last(),
                    after,
                    e,
                    math,
                ),
            };
        let len = before.color.len();
        let (w, h) = (before.width, before.height);
        assert(two_colored(len, states[0], color, clear_color));
        lemma_meshes_stay_two_colored(meshes, states, states.len() - 1, color, clear_color, len, w, h, math);
        if let Err(e) = r {
            let mesh = meshes[states.len() - 1];
            let n = choose|n: nat|
                n < mesh_edges(mesh).len() && #[trigger] draws_edges(
                    mesh,
                    n,
                    color,
                    states.last(),
                    after,
                    math,
                ) && misses_end(mesh, mesh_edges(mesh)[n as int], e);
            lemma_edges_stay_two_colored(
                mesh,
                n,
                color,
                clear_color,
                states.last(),
                after,
                len,
                w,
                h,
                math,
            );
        }
    }
}

/// Whether every pixel has one of two colors.
pub open spec fn two_colored(len: nat, r: Raster, color: Color, clear_color: Color) -> bool {
    &&& r.color.len() == len
    &&& forall|i: int| 0 <= i < len ==> #[trigger] r.color[i] == color || r.color[i] == clear_color
}

proof fn lemma_edge_stays_two_colored<
    C,
    T: Fn(Vertex) -> C,
    N: Fn(C) -> Single,
    X: Fn(C, C) -> C,
    P: Fn(C, usize, usize) -> Option<(i32, i32)>,
>(
    a: Vertex,
    b: Vertex,
    color: Color,
    clear_color: Color,
    before: Raster,
    after: Raster,
    len: nat,
    w: nat,
    h: nat,
    math: WireMath<T, N, X, P>,
)
    requires
        draws_edge(a, b, color, before, after, math),
        two_colored(len, before, color, clear_color),
        before.width == w,
        before.height == h,
        len == w * h,
    ensures
        two_colored(len, after, color, clear_color),
        after.width == w,
        after.height == h,
{
    let (c, d, s) = choose|c: (C, C), d: (Single, Single), s: Option<(C, C)>| #[trigger]
        trims_to(c, d, s, math.near, math.crossing) && call_ensures(math.transform, (a,), c.0)
            && call_ensures(math.transform, (b,), c.1) && match s {
            Some(s) => draws_segment(s, color, before, after, math.place),
            None => after == before,
        };
    if after != before {
        assert(after.wf() && after.same_shape(before));
        assert forall|i: int| 0 <= i < len implies #[trigger] after.color[i] == color
            || after.color[i] == clear_color by {
            lemma_index_has_a_pixel(i, w as int, h as int);
            assert(after.pixel(i % w as int, i / w as int) == after.color[i]);
            assert(before.pixel(i % w as int, i / w as int) == before.color[i]);
        }
    }
}

proof fn lemma_edges_stay_two_colored<
    C,
    T: Fn(Vertex) -> C,
    N: Fn(C) -> Single,
    X: Fn(C, C) -> C,
    P: Fn(C, usize, usize) -> Option<(i32, i32)>,
>(
    mesh: Mesh,
    n: nat,
    color: Color,
    clear_color: Color,
    before: Raster,
    after: Raster,
    len: nat,
    w: nat,
    h: nat,
    math: WireMath<T, N, X, P>,
)
    requires
        draws_edges(mesh, n, color, before, after, math),
        two_colored(len, before, color, clear_color),
        before.width == w,
        before.height == h,
        len == w * h,
    ensures
        two_colored(len, after, color, clear_color),
        after.width == w,
        after.height == h,
{
    let states = choose|states: Seq<Raster>| #[trigger]
        edge_steps(mesh, color, states, math) && states.len() == n + 1 && states[0] == before
            && states.last() == after;
    lemma_edge_states_stay_two_colored(
        mesh,
        states,
        n as int,
        color,
        clear_color,
        len,
        w,
        h,
        math,
    );
}

proof fn lemma_edge_states_stay_two_colored<
    C,
    T: Fn(Vertex) -> C,
    N: Fn(C) -> Single,
    X: Fn(C, C) -> C,
    P: Fn(C, usize, usize) -> Option<(i32, i32)>,
>(
    mesh: Mesh,
    states: Seq<Raster>,
    k: int,
    color: Color,
    clear_color: Color,
    len: nat,
    w: nat,
    h: nat,
    math: WireMath<T, N, X, P>,
)
    requires
        edge_steps(mesh, color, states, math),
        0 <= k < states.len(),
        two_colored(len, states[0], color, clear_color),
        states[0].width == w,
        states[0].height == h,
        len == w * h,
    ensures
        two_colored(len, states[k], color, clear_color),
        states[k].width == w,
        states[k].height == h,
    decreases k,
{
    if k > 0 {
        lemma_edge_states_stay_two_colored(mesh, states, k - 1, color, clear_color, len, w, h, math);
        assert(edge_step(mesh, color, states, k - 1, math));
        let e = mesh_edges(mesh)[k - 1];
        lemma_edge_stays_two_colored(
            mesh.vertices@[e.0 as int],
            mesh.vertices@[e.1 as int],
            color,
            clear_color,
            states[k - 1],
            states[k],
            len,
            w,
            h,
            math,
        );
    }
}

proof fn lemma_meshes_stay_two_colored<
    C,
    T: Fn(Vertex) -> C,
    N: Fn(C) -> Single,
    X: Fn(C, C) -> C,
    P: Fn(C, usize, usize) -> Option<(i32, i32)>,
>(
    meshes: Seq<Mesh>,
    states: Seq<Raster>,
    k: int,
    color: Color,
    clear_color: Color,
    len: nat,
    w: nat,
    h: nat,
    math: WireMath<T, N, X, P>,
)
    requires
        wire_steps(meshes, color, states, math),
        0 <= k < states.len(),
        two_colored(len, states[0], color, clear_color),
        states[0].width == w,
        states[0].height == h,
        len == w * h,
    ensures
        two_colored(len, states[k], color, clear_color),
        states[k].width == w,
        states[k].height == h,
    decreases k,
{
    if k > 0 {
        lemma_meshes_stay_two_colored(meshes, states, k - 1, color, clear_color, len, w, h, math);
        assert(wire_step(meshes, color, states, k - 1, math));
        lemma_edges_stay_two_colored(
            meshes[k - 1],
            mesh_edges(meshes[k - 1]).len(),
            color,
            clear_color,
            states[k - 1],
            states[k],
            len,
            w,
            h,
            math,
        );
    }
}

/// Whether no pixel of that color has lost it, on a raster of the same size.
pub open spec fn keeps_drawn(before: Raster, after: Raster, color: Color) -> bool {
    &&& after.width == before.width
    &&& after.height == before.height
    &&& after.color.len() == before.color.len()
    &&& forall|i: int|
        0 <= i < before.color.len() && before.color[i] == color ==> #[trigger] after.color[i] == color
}

proof fn lemma_edge_keeps_drawn<
    C,
    T: Fn(Vertex) -> C,
    N: Fn(C) -> Single,
    X: Fn(C, C) -> C,
    P: Fn(C, usize, usize) -> Option<(i32, i32)>,
>(
    a: Vertex,
    b: Vertex,
    color: Color,
    before: Raster,
    after: Raster,
    math: WireMath<T, N, X, P>,
)
    requires
        draws_edge(a, b, color, before, after, math),
        before.color.len() == before.width * before.height,
    ensures
        keeps_drawn(before, after, color),
{
    let (c, d, s) = choose|c: (C, C), d: (Single, Single), s: Option<(C, C)>| #[trigger]
        trims_to(c, d, s, math.near, math.crossing) && call_ensures(math.transform, (a,), c.0)
            && call_ensures(math.transform, (b,), c.1) && match s {
            Some(s) => draws_segment(s, color, before, after, math.place),
            None => after == before,
        };
    if after != before {
        let (w, h) = (before.width as int, before.height as int);
        assert(after.wf() && after.same_shape(before));
        assert forall|i: int| 0 <= i < before.color.len() && before.color[i] == color implies
            #[trigger] after.color[i] == color by {
            lemma_index_has_a_pixel(i, w, h);
            assert(after.pixel(i % w, i / w) == after.color[i]);
            assert(before.pixel(i % w, i / w) == before.color[i]);
        }
    }
}

proof fn lemma_edges_keep_drawn<
    C,
    T: Fn(Vertex) -> C,
    N: Fn(C) -> Single,
    X: Fn(C, C) -> C,
    P: Fn(C, usize, usize) -> Option<(i32, i32)>,
>(
    mesh: Mesh,
    color: Color,
    states: Seq<Raster>,
    j: int,
    k: int,
    math: WireMath<T, N, X, P>,
)
    requires
        edge_steps(mesh, color, states, math),
        0 <= j <= k < states.len(),
        states[j].color.len() == states[j].width * states[j].height,
    ensures
        keeps_drawn(states[j], states[k], color),
    decreases k - j,
{
    if j < k {
        lemma_edges_keep_drawn(mesh, color, states, j, k - 1, math);
        assert(edge_step(mesh, color, states, k - 1, math));
        let e = mesh_edges(mesh)[k - 1];
        lemma_edge_keeps_drawn(
            mesh.vertices@[e.0 as int],
            mesh.vertices@[e.1 as int],
            color,
            states[k - 1],
            states[k],
            math,
        );
    }
}

proof fn lemma_meshes_keep_drawn<
    C,
    T: Fn(Vertex) -> C,
    N: Fn(C) -> Single,
    X: Fn(C, C) -> C,
    P: Fn(C, usize, usize) -> Option<(i32, i32)>,
>(
    meshes: Seq<Mesh>,
    color: Color,
    states: Seq<Raster>,
    j: int,
    k: int,
    math: WireMath<T, N, X, P>,
)
    requires
        wire_steps(meshes, color, states, math),
        0 <= j <= k < states.len(),
        states[j].color.len() == states[j].width * states[j].height,
    ensures
        keeps_drawn(states[j], states[k], color),
    decreases k - j,
{
    if j < k {
        lemma_meshes_keep_drawn(meshes, color, states, j, k - 1, math);
        assert(wire_step(meshes, color, states, k - 1, math));
        let n = mesh_edges(meshes[k - 1]).len();
        let inner = choose|inner: Seq<Raster>| #[trigger]
            edge_steps(meshes[k - 1], color, inner, math) && inner.len() == n + 1 && inner[0]
                == states[k - 1] && inner.last() == states[k];
        lemma_edges_keep_drawn(meshes[k - 1], color, inner, 0, n as int, math);
    }
}

/// The ends of every edge of the finished wireframe are drawn: where both are in front of the near plane
/// and have a pixel, those pixels have the color of the wireframe, whatever was drawn behind them.
pub proof fn law_finished_wireframe_shows_every_edge<
    C,
    T: Fn(Vertex) -> C,
    N: Fn(C) -> Single,
    X: Fn(C, C) -> C,
    P: Fn(C, usize, usize) -> Option<(i32, i32)>,
>(
    meshes: Seq<Mesh>,
    color: Color,
    clear_color: Color,
    before: Raster,
    after: Raster,
    math: WireMath<T, N, X, P>,
    m: int,
    e: (u32, u32),
    clip_of: spec_fn(Vertex) -> C,
    near_of: spec_fn(C) -> Single,
    place_of: spec_fn(C, int, int) -> Option<(i32, i32)>,
)
    requires
        before.wf(),
        0 < before.width,
        0 < before.height,
        traces_to(meshes, color, clear_color, before, after, Ok::<(), Error>(()), math),
        0 <= m < meshes.len(),
        first_seen(edges_of(meshes[m].indices@)).contains(e),
        forall|v: Vertex, c: C| #[trigger] call_ensures(math.transform, (v,), c) ==> c == clip_of(v),
        forall|p: C, n: Single| #[trigger] call_ensures(math.near, (p,), n) ==> n == near_of(p),
        forall|p: C, w: usize, h: usize, s: Option<(i32, i32)>| #[trigger]
            call_ensures(math.place, (p, w, h), s) ==> s == place_of(p, w as int, h as int),
        Single::zero().spec_le(near_of(clip_of(meshes[m].vertices@[e.0 as int]))),
        Single::zero().spec_le(near_of(clip_of(meshes[m].vertices@[e.1 as int]))),
    ensures
        ({
            let (w, h) = (before.width as int, before.height as int);
            let p = place_of(clip_of(meshes[m].vertices@[e.0 as int]), w, h);
            let q = place_of(clip_of(meshes[m].vertices@[e.1 as int]), w, h);
            p is Some && q is Some ==> {
                let (x0, y0) = ((p->0).0 as int, (p->0).1 as int);
                let (x1, y1) = ((q->0).0 as int, (q->0).1 as int);
                &&& before.contains(x0, y0) ==> after.color[y0 * w + x0] == color
                &&& before.contains(x1, y1) ==> after.color[y1 * w + x1] == color
            }
        }),
{
    let states = choose|states: Seq<Raster>| #[trigger]
        wire_steps(meshes, color, states, math) && states.len() >= 1 && states[0] == cleared(
            before,
            clear_color,
        ) && states.len() == meshes.len() + 1 && states.last() == after;
    let (w, h) = (before.width as int, before.height as int);
    let mesh = meshes[m];
    let n = mesh_edges(mesh).len();
    assert(wire_step(meshes, color, states, m, math));
    let inner = choose|inner: Seq<Raster>| #[trigger]
        edge_steps(mesh, color, inner, math) && inner.len() == n + 1 && inner[0] == states[m]
            && inner.last() == states[m + 1];
    let k = choose|k: int| 0 <= k < n && mesh_edges(mesh)[k] == e;
    assert(edge_step(mesh, color, inner, k, math));
    let (a, b) = (mesh.vertices@[e.0 as int], mesh.vertices@[e.1 as int]);
    lemma_meshes_keep_drawn(meshes, color, states, 0, m, math);
    lemma_edges_keep_drawn(mesh, color, inner, 0, k, math);
    lemma_edge_keeps_drawn(a, b, color, inner[k], inner[k + 1], math);
    lemma_edges_keep_drawn(mesh, color, inner, k + 1, n as int, math);
    lemma_meshes_keep_drawn(meshes, color, states, m + 1, meshes.len() as int, math);
    lemma_drawn_ends(a, b, color, inner[k], inner[k + 1], math, clip_of, near_of, place_of);
    let p = place_of(clip_of(a), w, h);
    let q = place_of(clip_of(b), w, h);
    if p is Some && q is Some {
        let (x0, y0) = ((p->0).0 as int, (p->0).1 as int);
        let (x1, y1) = ((q->0).0 as int, (q->0).1 as int);
        if before.contains(x0, y0) {
            lemma_index_in_plane(x0, y0, w, h);
            assert(states[m + 1].color[y0 * w + x0] == color);
        }
        if before.contains(x1, y1) {
            lemma_index_in_plane(x1, y1, w, h);
            assert(states[m + 1].color[y1 * w + x1] == color);
        }
    }
}

proof fn lemma_drawn_ends<
    C,
    T: Fn(Vertex) -> C,
    N: Fn(C) -> Single,
    X: Fn(C, C) -> C,
    P: Fn(C, usize, usize) -> Option<(i32, i32)>,
>(
    a: Vertex,
    b: Vertex,
    color: Color,
    before: Raster,
    after: Raster,
    math: WireMath<T, N, X, P>,
    clip_of: spec_fn(Vertex) -> C,
    near_of: spec_fn(C) -> Single,
    place_of: spec_fn(C, int, int) -> Option<(i32, i32)>,
)
    requires
        draws_edge(a, b, color, before, after, math),
        before.width <= usize::MAX,
        before.height <= usize::MAX,
        forall|v: Vertex, c: C| #[trigger] call_ensures(math.transform, (v,), c) ==> c == clip_of(v),
        forall|p: C, n: Single| #[trigger] call_ensures(math.near, (p,), n) ==> n == near_of(p),
        forall|p: C, w: usize, h: usize, s: Option<(i32, i32)>| #[trigger]
            call_ensures(math.place, (p, w, h), s) ==> s == place_of(p, w as int, h as int),
        Single::zero().spec_le(near_of(clip_of(a))),
        Single::zero().spec_le(near_of(clip_of(b))),
    ensures
        ({
            let p = place_of(clip_of(a), before.width as int, before.height as int);
            let q = place_of(clip_of(b), before.width as int, before.height as int);
            p is Some && q is Some ==> {
                let (x0, y0) = ((p->0).0 as int, (p->0).1 as int);
                let (x1, y1) = ((q->0).0 as int, (q->0).1 as int);
                &&& before.contains(x0, y0) ==> after.color[y0 * before.width + x0] == color
                &&& before.contains(x1, y1) ==> after.color[y1 * before.width + x1] == color
            }
        }),
{
    let (c, d, s) = choose|c: (C, C), d: (Single, Single), s: Option<(C, C)>| #[trigger]
        trims_to(c, d, s, math.near, math.crossing) && call_ensures(math.transform, (a,), c.0)
            && call_ensures(math.transform, (b,), c.1) && match s {
            Some(s) => draws_segment(s, color, before, after, math.place),
            None => after == before,
        };
    let s = s->0;
    let (p, q) = choose|p: Option<(i32, i32)>, q: Option<(i32, i32)>| #[trigger]
        call_ensures(math.place, (s.0, before.width as usize, before.height as usize), p)
            && #[trigger] call_ensures(
            math.place,
            (s.1, before.width as usize, before.height as usize),
            q,
        ) && if p is Some && q is Some {
            drawn(
                before,
                after,
                (p->0).0 as int,
                (p->0).1 as int,
                (q->0).0 as int,
                (q->0).1 as int,
                color,
            )
        } else {
            after == before
        };
    if p is Some && q is Some {
        law_drawn_line_joins_its_ends(
            before,
            after,
            (p->0).0 as int,
            (p->0).1 as int,
            (q->0).0 as int,
            (q->0).1 as int,
            color,
        );
    }
}

/// Tracing a picture succeeds exactly where every index of every complete triangle names a vertex, and the
/// error names one that does not.
pub proof fn law_tracing_fails_on_a_missing_vertex<
    C,
    T: Fn(Vertex) -> C,
    N: Fn(C) -> Single,
    X: Fn(C, C) -> C,
    P: Fn(C, usize, usize) -> Option<(i32, i32)>,
>(
    meshes: Seq<Mesh>,
    color: Color,
    clear_color: Color,
    before: Raster,
    after: Raster,
    r: Result<(), Error>,
    math: WireMath<T, N, X, P>,
)
    requires
        0 < before.width,
        0 < before.height,
        traces_to(meshes, color, clear_color, before, after, r, math),
    ensures
        r is Ok ==> forall|m: int, i: int|
            0 <= m < meshes.len() && 0 <= i < 3 * (meshes[m].indices@.len() / 3)
                ==> #[trigger] meshes[m].indices@[i] < meshes[m].vertices@.len(),
        r is Err ==> exists|m: int, i: int|
            0 <= m < meshes.len() && 0 <= i < meshes[m].indices@.len()
                && #[trigger] meshes[m].indices@[i] >= meshes[m].vertices@.len() && r->Err_0 is Geometry
                && r->Err_0.detail() == "triangle index "@ + decimal(
                meshes[m].indices@[i] as nat,
            ) + " out of range"@,
{
    let states = choose|states: Seq<Raster>| #[trigger]
        wire_steps(meshes, color, states, math) && states.len() >= 1 && states[0] == cleared(
            before,
            clear_color,
        ) && match r {
            Ok(_) => states.len() == meshes.len() + 1 && states.last() == after,
            Err(e) => states.len() <= meshes.len() && edges_break_off(
                meshes[states.len() - 1],
                color,
                states.last(),
                after,
                e,
                math,
            ),
        };
    match r {
        Ok(_) => {
            assert forall|m: int, i: int|
                0 <= m < meshes.len() && 0 <= i < 3 * (meshes[m].indices@.len() / 3) implies
                #[trigger] meshes[m].indices@[i] < meshes[m].vertices@.len() by {
                let mesh = meshes[m];
                let edges = edges_of(mesh.indices@);
                law_first_seen_lists_each_key_once(edges);
                assert(edges.contains(edges[i]));
                assert(mesh_edges(mesh).contains(edges[i]));
                law_every_edge_is_drawn(meshes, color, clear_color, before, after, math, m, edges[i]);
            }
        },
        Err(err) => {
            let m = states.len() - 1;
            let mesh = meshes[m];
            let n = choose|n: nat|
                n < mesh_edges(mesh).len() && #[trigger] draws_edges(
                    mesh,
                    n,
                    color,
                    states.last(),
                    after,
                    math,
                ) && misses_end(mesh, mesh_edges(mesh)[n as int], err);
            let e = mesh_edges(mesh)[n as int];
            let edges = edges_of(mesh.indices@);
            law_first_seen_lists_each_key_once(edges);
            assert(mesh_edges(mesh).contains(e));
            let i = choose|i: int| 0 <= i < edges.len() && edges[i] == e;
            let j = i / 3 * 3 + (i + 1) % 3;
            assert(0 <= j < mesh.indices@.len());
            assert(meshes[m].indices@[i] == mesh.indices@[i]);
            assert(meshes[m].indices@[j] == mesh.indices@[j]);
        },
    }
}

} // verus!
