//! The decisions of the software rasterizer: which triangles, edges and fragments are drawn.
//!
//! Positions, barycentric weights and colors come in as finished numbers. What is decided here is
//! what is clipped, what is culled, which samples a triangle covers, which fragment wins a pixel,
//! and which edges a wireframe has.

use crate::color::Color;
use crate::error::Error;
use crate::framebuffer::{depth_far, Framebuffer, Raster};
use crate::geometry::{Mesh, Vertex};
use crate::single::Single;
use crate::text::{decimal, push_decimal};
use crate::weld::{first_seen, law_first_seen_lists_each_key_once};
use std::collections::HashSet;
use vstd::prelude::*;
use vstd::string::*;

verus! {

broadcast use vstd::std_specs::hash::group_hash_axioms;

/// Which triangle winding, in normalized device coordinates, counts as the front face.
#[derive(Clone, Copy, Debug, PartialEq, Eq, Structural)]
pub enum FrontFace {
    /// Counter-clockwise vertices (`+Y` up) are front-facing.
    CounterClockwise,
    /// Clockwise vertices (`+Y` up) are front-facing.
    Clockwise,
}

/// Which triangles to discard based on their facing.
#[derive(Clone, Copy, Debug, PartialEq, Eq, Structural)]
pub enum Cull {
    /// Draw both front and back faces.
    Neither,
    /// Discard back faces (the usual choice for solid, closed meshes).
    Back,
    /// Discard front faces.
    Front,
}

/// How the rasterizer colors each covered fragment.
#[derive(Clone, Copy, Debug, PartialEq, Eq, Structural)]
#[non_exhaustive]
pub enum ShadingMode {
    /// Fill every fragment with the rasterizer's flat base color (no lighting).
    Unlit,
    /// Light each triangle by its single face normal (hard, faceted lighting).
    Flat,
    /// Light each fragment by the interpolation of the per-vertex normals.
    Smooth,
    /// Visualize the interpolated surface normal as a color.
    Normals,
    /// Visualize depth as grayscale: nearer fragments are brighter, farther ones darker.
    Depth,
    /// Draw only the mesh edges as lines in the base color, leaving faces empty.
    Wireframe,
}

/// How a screen-space triangle is drawn.
#[derive(Clone, Copy, Debug, PartialEq, Eq, Structural)]
pub enum Winding {
    /// It is not drawn: it has no area, or the face that it shows is culled.
    Dropped,
    /// It is filled with its vertices in the given order.
    Kept,
    /// It is filled with its second and third vertices swapped, so that its area is positive.
    Reversed,
}

/// Whether a triangle of this doubled signed screen area shows its front.
///
/// On screen the Y axis points down, so a counter-clockwise triangle has a negative area.
pub open spec fn shows_front(front_face: FrontFace, area: Single) -> bool {
    match front_face {
        FrontFace::CounterClockwise => area.spec_lt(Single::zero()),
        FrontFace::Clockwise => Single::zero().spec_lt(area),
    }
}

/// Whether a triangle of this doubled signed screen area is drawn at all.
pub open spec fn is_drawn(front_face: FrontFace, cull: Cull, area: Single) -> bool {
    &&& area.is_finite()
    &&& area.rank() != 0
    &&& match cull {
        Cull::Neither => true,
        Cull::Back => shows_front(front_face, area),
        Cull::Front => !shows_front(front_face, area),
    }
}

/// Decides how a triangle is drawn from its doubled signed screen area.
pub fn winding(front_face: FrontFace, cull: Cull, area: Single) -> (w: Winding)
    ensures
        w == (if !is_drawn(front_face, cull, area) {
            Winding::Dropped
        } else if area.spec_lt(Single::zero()) {
            Winding::Reversed
        } else {
            Winding::Kept
        }),
{
    let negative: bool = area.lt(Single::zero());
    let positive: bool = Single::zero().lt(area);
    if area.bits % crate::single::SIGN >= crate::single::INFINITY || (!negative && !positive) {
        return Winding::Dropped;
    }
    let front: bool = match front_face {
        FrontFace::CounterClockwise => negative,
        FrontFace::Clockwise => positive,
    };
    match cull {
        Cull::Back => {
            if !front {
                return Winding::Dropped;
            }
        },
        Cull::Front => {
            if front {
                return Winding::Dropped;
            }
        },
        Cull::Neither => {},
    }
    if negative {
        Winding::Reversed
    } else {
        Winding::Kept
    }
}

/// A triangle that faces away and one that faces the viewer are never both kept by culling, and
/// never both dropped by it.
pub proof fn law_culling_splits_the_faces(front_face: FrontFace, area: Single)
    requires
        area.is_finite(),
        area.rank() != 0,
    ensures
        is_drawn(front_face, Cull::Back, area) <==> !is_drawn(front_face, Cull::Front, area),
        is_drawn(front_face, Cull::Neither, area),
{
}

/// Whether a sample with edge value `w` is on the inner side of the edge, or on the edge itself
/// where that is a top or left edge.
pub open spec fn edge_covers(w: Single, top_left: bool) -> bool {
    Single::zero().spec_lt(w) || (w.rank() == 0 && top_left)
}

/// Whether a fragment with edge value `w` (for a positively-oriented triangle) is covered:
/// strictly inside, or exactly on a top-left edge.
pub fn edge_ok(w: Single, top_left: bool) -> (b: bool)
    ensures
        b == edge_covers(w, top_left),
{
    Single::zero().lt(w) || (w.bits % crate::single::SIGN == 0 && top_left)
}

/// Whether an edge with this extent is a top or left edge of a positively-oriented triangle.
///
/// A top edge is horizontal and runs right-to-left; a left edge runs upward.
pub open spec fn top_left(dx: Single, dy: Single) -> bool {
    (dy.rank() == 0 && dx.spec_lt(Single::zero())) || dy.spec_lt(Single::zero())
}

/// Whether an edge with this extent is a top or left edge of a positively-oriented triangle.
pub fn is_top_left(dx: Single, dy: Single) -> (b: bool)
    ensures
        b == top_left(dx, dy),
{
    (dy.bits % crate::single::SIGN == 0 && dx.lt(Single::zero())) || dy.lt(Single::zero())
}

/// The number with the other sign.
pub open spec fn negated(v: Single) -> Single {
    if v.is_negative() {
        Single { bits: (v.bits - crate::single::SIGN) as u32 }
    } else {
        Single { bits: (v.bits + crate::single::SIGN) as u32 }
    }
}

/// Two triangles that share an edge never both cover a sample on it and never both leave it out:
/// an edge that is top or left for one runs the other way for the other.
pub proof fn law_shared_edge_is_covered_once(dx: Single, dy: Single)
    requires
        !dx.is_nan(),
        !dy.is_nan(),
        dx.rank() != 0 || dy.rank() != 0,
    ensures
        top_left(dx, dy) <==> !top_left(negated(dx), negated(dy)),
{
}

/// Whether a fragment of this depth belongs in front of one of depth `behind`.
pub open spec fn wins(depth: Single, behind: Single) -> bool {
    &&& Single::zero().spec_le(depth)
    &&& depth.spec_le(depth_far())
    &&& !behind.spec_le(depth)
}

/// Whether a fragment of this depth belongs in front of one of depth `behind`.
pub fn in_front(depth: Single, behind: Single) -> (b: bool)
    ensures
        b == wins(depth, behind),
{
    Single::zero().le(depth) && depth.le(depth_far()) && !behind.le(depth)
}

/// Writes one fragment: its color and depth, where its depth is in range and it is nearer than
/// what is already there. Returns whether it was written.
pub fn write_fragment(
    target: &mut Framebuffer,
    x: usize,
    y: usize,
    depth: Single,
    color: Color,
) -> (written: bool)
    requires
        old(target).wf(),
        old(target)@.contains(x as int, y as int),
    ensures
        final(target).wf(),
        ({
            let i = y * old(target)@.width + x;
            &&& written == wins(depth, old(target)@.depth[i])
            &&& final(target)@ == if written {
                Raster {
                    color: old(target)@.color.update(i, color),
                    depth: old(target)@.depth.update(i, depth),
                    ..old(target)@
                }
            } else {
                old(target)@
            }
        }),
{
    proof {
        crate::framebuffer::lemma_index_in_plane(
            x as int,
            y as int,
            target@.width as int,
            target@.height as int,
        );
    }
    let i: usize = y * target.width() + x;
    if !in_front(depth, target.depth()[i]) {
        return false;
    }
    target.depth_mut()[i] = depth;
    target.set(x, y, color);
    true
}

/// The depth left at a pixel once fragments of these depths were written there in order, over one
/// of depth `behind`.
pub open spec fn depth_after(fragments: Seq<Single>, behind: Single) -> Single
    decreases fragments.len(),
{
    if fragments.len() == 0 {
        behind
    } else {
        let last = depth_after(fragments.drop_last(), behind);
        if wins(fragments.last(), last) {
            fragments.last()
        } else {
            last
        }
    }
}

/// The nearest fragment is the one that stays, whatever order they come in: nothing that was
/// written in range is nearer than what is left, and what is left was written or was there before.
pub proof fn law_nearest_fragment_stays(fragments: Seq<Single>, behind: Single)
    requires
        !behind.is_nan(),
    ensures
        !depth_after(fragments, behind).is_nan(),
        depth_after(fragments, behind).spec_le(behind),
        depth_after(fragments, behind) == behind || fragments.contains(
            depth_after(fragments, behind),
        ),
        forall|i: int|
            #![trigger fragments[i]]
            0 <= i < fragments.len() && Single::zero().spec_le(fragments[i])
                && fragments[i].spec_le(depth_far()) ==> depth_after(fragments, behind).spec_le(
                fragments[i],
            ),
    decreases fragments.len(),
{
    if fragments.len() > 0 {
        let rest = fragments.drop_last();
        law_nearest_fragment_stays(rest, behind);
        let last = depth_after(rest, behind);
        assert(fragments[fragments.len() - 1] == fragments.last());
        if rest.contains(last) {
            let i = choose|i: int| 0 <= i < rest.len() && rest[i] == last;
            assert(fragments[i] == last);
        }
        assert forall|i: int|
            #![trigger fragments[i]]
            0 <= i < fragments.len() && Single::zero().spec_le(fragments[i])
                && fragments[i].spec_le(depth_far()) implies depth_after(
            fragments,
            behind,
        ).spec_le(fragments[i]) by {
            if i < rest.len() {
                assert(rest[i] == fragments[i]);
            }
        }
    }
}

/// The last pixel of an extent that ends at `high`, on an axis of `size` pixels.
pub open spec fn last_pixel(high: usize, size: usize) -> usize {
    if size == 0 {
        0
    } else if high < size {
        high
    } else {
        (size - 1) as usize
    }
}

/// The range of pixels that a triangle can cover along one axis of `size` pixels, from the rounded
/// ends of its extent; `None` where it lies beyond the far edge.
pub fn pixel_range(low: usize, high: usize, size: usize) -> (r: Option<(usize, usize)>)
    ensures
        r == if low <= last_pixel(high, size) {
            Some((low, last_pixel(high, size)))
        } else {
            None
        },
{
    let last: usize = if size == 0 {
        0
    } else {
        size - 1
    };
    let top: usize = if high < last {
        high
    } else {
        last
    };
    if low > top {
        None
    } else {
        Some((low, top))
    }
}

/// One vertex of a triangle clipped to the near plane.
#[derive(Clone, Copy, Debug, PartialEq, Eq, Structural)]
pub enum ClipVertex {
    /// The triangle's own vertex of that number.
    Corner(usize),
    /// The point where the edge from the first to the second vertex crosses the plane.
    Crossing(usize, usize),
}

/// What the edge from `i` to `j` adds to the clipped polygon.
pub open spec fn edge_output(i: usize, j: usize, i_in: bool, j_in: bool) -> Seq<ClipVertex> {
    (if i_in {
        seq![ClipVertex::Corner(i)]
    } else {
        seq![]
    }) + (if i_in != j_in {
        seq![ClipVertex::Crossing(i, j)]
    } else {
        seq![]
    })
}

/// The polygon that is left of a triangle, from which of its vertices are in front of the plane.
pub open spec fn clipped(inside: [bool; 3]) -> Seq<ClipVertex> {
    edge_output(0, 1, inside[0], inside[1]) + edge_output(1, 2, inside[1], inside[2])
        + edge_output(2, 0, inside[2], inside[0])
}

/// Clips a triangle against the near plane, from the distances of its vertices to the plane
/// (negative behind it).
pub fn clip_triangle_near(distances: [Single; 3]) -> (poly: Vec<ClipVertex>)
    ensures
        poly@ == clipped(
            [
                Single::zero().spec_le(distances[0]),
                Single::zero().spec_le(distances[1]),
                Single::zero().spec_le(distances[2]),
            ],
        ),
{
    let a: bool = Single::zero().le(distances[0]);
    let b: bool = Single::zero().le(distances[1]);
    let c: bool = Single::zero().le(distances[2]);
    let mut poly: Vec<ClipVertex> = Vec::new();
    if a {
        poly.push(ClipVertex::Corner(0));
    }
    if a != b {
        poly.push(ClipVertex::Crossing(0, 1));
    }
    if b {
        poly.push(ClipVertex::Corner(1));
    }
    if b != c {
        poly.push(ClipVertex::Crossing(1, 2));
    }
    if c {
        poly.push(ClipVertex::Corner(2));
    }
    if c != a {
        poly.push(ClipVertex::Crossing(2, 0));
    }
    assert(poly@ =~= clipped([a, b, c]));
    poly
}

/// A clipped triangle is a polygon of at most four vertices; it is empty where the whole triangle
/// is behind the plane and the triangle itself where none of it is.
pub proof fn law_clipping_leaves_a_polygon(inside: [bool; 3])
    ensures
        clipped(inside).len() == 0 || clipped(inside).len() == 3 || clipped(inside).len() == 4,
        clipped(inside).len() == 0 <==> !inside[0] && !inside[1] && !inside[2],
        inside[0] && inside[1] && inside[2] ==> clipped(inside) == seq![
            ClipVertex::Corner(0),
            ClipVertex::Corner(1),
            ClipVertex::Corner(2),
        ],
        forall|k: int|
            0 <= k < clipped(inside).len() ==> match #[trigger] clipped(inside)[k] {
                ClipVertex::Corner(i) => i < 3 && inside[i as int],
                ClipVertex::Crossing(i, j) => i < 3 && j < 3 && inside[i as int]
                    != inside[j as int],
            },
{
    assert(inside[0] && inside[1] && inside[2] ==> clipped(inside) =~= seq![
        ClipVertex::Corner(0),
        ClipVertex::Corner(1),
        ClipVertex::Corner(2),
    ]);
}

/// What is left of a segment clipped to the near plane.
#[derive(Clone, Copy, Debug, PartialEq, Eq, Structural)]
pub enum ClippedSegment {
    /// All of it is behind the plane.
    Hidden,
    /// None of it is behind the plane.
    Whole,
    /// It runs from its start to where it crosses the plane.
    Start,
    /// It runs from where it crosses the plane to its end.
    End,
}

/// Clips a segment against the near plane, from the distances of its ends to the plane.
pub fn clip_segment_near(start: Single, end: Single) -> (s: ClippedSegment)
    ensures
        s == (match (Single::zero().spec_le(start), Single::zero().spec_le(end)) {
            (false, false) => ClippedSegment::Hidden,
            (true, true) => ClippedSegment::Whole,
            (true, false) => ClippedSegment::Start,
            (false, true) => ClippedSegment::End,
        }),
{
    let a: bool = Single::zero().le(start);
    let b: bool = Single::zero().le(end);
    if a && b {
        ClippedSegment::Whole
    } else if a {
        ClippedSegment::Start
    } else if b {
        ClippedSegment::End
    } else {
        ClippedSegment::Hidden
    }
}

/// Looks up a vertex by index, returning a geometry error rather than panicking on an
/// out-of-range index.
pub fn fetch(verts: &[Vertex], index: u32) -> (r: Result<Vertex, Error>)
    ensures
        match r {
            Ok(v) => index < verts@.len() && v == verts@[index as int],
            Err(e) => {
                &&& index >= verts@.len()
                &&& e is Geometry
                &&& e.detail() == "triangle index "@ + decimal(index as nat) + " out of range"@
            },
        },
{
    if (index as usize) < verts.len() {
        Ok(verts[index as usize])
    } else {
        let mut m = "triangle index ".to_owned();
        push_decimal(&mut m, index as u64);
        m.append(" out of range");
        Err(Error::Geometry(m))
    }
}

/// Whether every index of the mesh's triangle number `t` names a vertex.
pub open spec fn is_sound(mesh: Mesh, t: int) -> bool {
    &&& mesh.indices@[3 * t] < mesh.vertices@.len()
    &&& mesh.indices@[3 * t + 1] < mesh.vertices@.len()
    &&& mesh.indices@[3 * t + 2] < mesh.vertices@.len()
}

/// The vertex number `k` of the mesh's triangle number `t`.
pub open spec fn corner(mesh: Mesh, t: int, k: int) -> Vertex {
    mesh.vertices@[mesh.indices@[3 * t + k] as int]
}

/// Whether `e` tells of the first index of the mesh's triangle number `t` that names no vertex.
pub open spec fn misses_vertex(mesh: Mesh, t: int, e: Error) -> bool {
    exists|k: int|
        0 <= k < 3 && #[trigger] mesh.indices@[3 * t + k] >= mesh.vertices@.len() && (forall|j: int|
            0 <= j < k ==> #[trigger] mesh.indices@[3 * t + j] < mesh.vertices@.len())
            && e is Geometry && e.detail() == "triangle index "@ + decimal(
            mesh.indices@[3 * t + k] as nat,
        ) + " out of range"@
}

/// The vertices of the mesh's triangle number `t`, or a geometry error for the first of its
/// indices that names no vertex.
pub fn triangle(mesh: &Mesh, t: usize) -> (r: Result<[Vertex; 3], Error>)
    requires
        t < mesh.triangles(),
    ensures
        r is Ok <==> is_sound(*mesh, t as int),
        match r {
            Ok(c) => forall|k: int|
                0 <= k < 3 ==> #[trigger] c[k] == corner(*mesh, t as int, k),
            Err(e) => misses_vertex(*mesh, t as int, e),
        },
{
    let verts = mesh.vertices.as_slice();
    assert(3 * t + 2 < mesh.indices.len());
    let a = match fetch(verts, mesh.indices[3 * t]) {
        Ok(v) => v,
        Err(e) => {
            assert(mesh.indices@[3 * t + 0] >= mesh.vertices@.len());
            return Err(e);
        },
    };
    let b = match fetch(verts, mesh.indices[3 * t + 1]) {
        Ok(v) => v,
        Err(e) => {
            assert(mesh.indices@[3 * t + 1] >= mesh.vertices@.len());
            return Err(e);
        },
    };
    let c = match fetch(verts, mesh.indices[3 * t + 2]) {
        Ok(v) => v,
        Err(e) => {
            assert(mesh.indices@[3 * t + 2] >= mesh.vertices@.len());
            return Err(e);
        },
    };
    Ok([a, b, c])
}

/// The edge between two vertices, smaller index first.
pub open spec fn edge(a: u32, b: u32) -> (u32, u32) {
    if a <= b {
        (a, b)
    } else {
        (b, a)
    }
}

/// The edges of all complete triangles, three each, in order.
pub open spec fn edges_of(indices: Seq<u32>) -> Seq<(u32, u32)> {
    Seq::new(
        3 * (indices.len() / 3),
        |e: int| edge(indices[e], indices[e / 3 * 3 + (e + 1) % 3]),
    )
}

/// One number for an edge.
spec fn edge_code(e: (u32, u32)) -> int {
    e.0 * 0x1_0000_0000 + e.1
}

/// Notes the edge where it is new.
fn note_edge(seen: &mut HashSet<u64>, edges: &mut Vec<(u32, u32)>, a: u32, b: u32)
    requires
        forall|e: (u32, u32)|
            old(seen)@.contains(edge_code(e) as u64) <==> #[trigger] old(edges)@.contains(e),
    ensures
        forall|e: (u32, u32)|
            final(seen)@.contains(edge_code(e) as u64) <==> #[trigger] final(edges)@.contains(e),
        final(edges)@ == if old(edges)@.contains(edge(a, b)) {
            old(edges)@
        } else {
            old(edges)@.push(edge(a, b))
        },
{
    let key: (u32, u32) = if a <= b {
        (a, b)
    } else {
        (b, a)
    };
    let ghost before = edges@;
    let code: u64 = key.0 as u64 * 0x1_0000_0000 + key.1 as u64;
    assert(code == edge_code(key));
    if seen.insert(code) {
        edges.push(key);
        assert forall|e: (u32, u32)|
            seen@.contains(edge_code(e) as u64) <==> #[trigger] edges@.contains(e) by {
            if edges@.contains(e) {
                let i = choose|i: int| 0 <= i < edges@.len() && edges@[i] == e;
                if i < before.len() {
                    assert(before[i] == e);
                    assert(before.contains(e));
                }
            }
            if e == key {
                assert(edges@[before.len() as int] == key);
            } else if before.contains(e) {
                let i = choose|i: int| 0 <= i < before.len() && before[i] == e;
                assert(edges@[i] == e);
            }
            assert(before.contains(e) || !before.contains(e));
            assert(edge_code(e) == edge_code(key) ==> e == key);
        }
    } else {
        assert(before.contains(key));
    }
}

/// Collects the unique undirected edges of a triangle-index list for wireframe drawing.
///
/// An edge shared by two triangles is listed only once. Edges are returned in first-seen order. A
/// trailing partial triple is ignored.
pub fn dedup_edges(indices: &[u32]) -> (edges: Vec<(u32, u32)>)
    ensures
        edges@ == first_seen(edges_of(indices@)),
{
    let mut seen: HashSet<u64> = HashSet::new();
    let mut edges: Vec<(u32, u32)> = Vec::new();
    let ghost all = edges_of(indices@);
    let n: usize = indices.len() / 3;
    let mut t: usize = 0;
    assert(all.take(0) =~= Seq::<(u32, u32)>::empty());
    while t < n
        invariant
            n == indices@.len() / 3,
            indices@.len() <= usize::MAX,
            all == edges_of(indices@),
            t <= n,
            edges@ == first_seen(all.take(3 * t)),
            forall|e: (u32, u32)|
                seen@.contains(edge_code(e) as u64) <==> #[trigger] edges@.contains(e),
        decreases n - t,
    {
        let a: u32 = indices[3 * t];
        let b: u32 = indices[3 * t + 1];
        let c: u32 = indices[3 * t + 2];
        proof {
            let k = 3 * t as int;
            assert(all[k] == edge(a, b));
            assert(all[k + 1] == edge(b, c));
            assert(all[k + 2] == edge(c, a));
            assert(all.take(k + 1).drop_last() =~= all.take(k));
            assert(all.take(k + 2).drop_last() =~= all.take(k + 1));
            assert(all.take(k + 3).drop_last() =~= all.take(k + 2));
        }
        note_edge(&mut seen, &mut edges, a, b);
        assert(edges@ == first_seen(all.take(3 * t + 1)));
        note_edge(&mut seen, &mut edges, b, c);
        assert(edges@ == first_seen(all.take(3 * t + 2)));
        note_edge(&mut seen, &mut edges, c, a);
        assert(edges@ == first_seen(all.take(3 * t + 3)));
        t = t + 1;
    }
    assert(all.take(3 * n as int) =~= all);
    edges
}

/// A wireframe draws every edge of every triangle exactly once.
pub proof fn law_wireframe_has_each_edge_once(indices: Seq<u32>)
    ensures
        first_seen(edges_of(indices)).no_duplicates(),
        forall|e: int|
            0 <= e < edges_of(indices).len() ==> first_seen(edges_of(indices)).contains(
                #[trigger] edges_of(indices)[e],
            ),
{
    law_first_seen_lists_each_key_once(edges_of(indices));
    assert forall|e: int| 0 <= e < edges_of(indices).len() implies first_seen(
        edges_of(indices),
    ).contains(#[trigger] edges_of(indices)[e]) by {
        assert(edges_of(indices).contains(edges_of(indices)[e]));
    }
}

/// A sample strictly inside an edge belongs to the triangle, one outside does not, and one on the edge
/// belongs to it where the triangle lies below a level edge or to the right of one that climbs.
pub proof fn law_top_and_left_edges_belong(w: Single, dx: Single, dy: Single)
    requires
        !dx.is_nan(),
        !dy.is_nan(),
    ensures
        Single::zero().spec_lt(w) ==> edge_covers(w, top_left(dx, dy)),
        w.spec_lt(Single::zero()) || w.is_nan() ==> !edge_covers(w, top_left(dx, dy)),
        w.rank() == 0 && dy.spec_lt(Single::zero()) ==> edge_covers(w, top_left(dx, dy)),
        w.rank() == 0 && Single::zero().spec_lt(dy) ==> !edge_covers(w, top_left(dx, dy)),
        w.rank() == 0 && dy.rank() == 0 && dx.spec_lt(Single::zero()) ==> edge_covers(
            w,
            top_left(dx, dy),
        ),
        w.rank() == 0 && dy.rank() == 0 && Single::zero().spec_lt(dx) ==> !edge_covers(
            w,
            top_left(dx, dy),
        ),
{
}

/// Every two corners of every triangle are joined by an edge of the wireframe.
pub proof fn law_wireframe_joins_all_corners(indices: Seq<u32>, t: int, j: int, k: int)
    requires
        0 <= t,
        3 * t + 3 <= indices.len(),
        0 <= j < 3,
        0 <= k < 3,
        j != k,
    ensures
        ({
            let (a, b) = (indices[3 * t + j], indices[3 * t + k]);
            first_seen(edges_of(indices)).contains(
                if a <= b {
                    (a, b)
                } else {
                    (b, a)
                },
            )
        }),
{
    law_first_seen_lists_each_key_once(edges_of(indices));
    let all = edges_of(indices);
    let e0 = all[3 * t];
    let e1 = all[3 * t + 1];
    let e2 = all[3 * t + 2];
    assert(all.contains(e0) && all.contains(e1) && all.contains(e2));
    assert((3 * t) / 3 == t && (3 * t + 1) / 3 == t && (3 * t + 2) / 3 == t);
    assert((3 * t + 1) % 3 == 1 && (3 * t + 2) % 3 == 2 && (3 * t + 3) % 3 == 0);
}

} // verus!
