//! Mesh and scene geometry shared by the loaders and the 3D renderer.

use crate::single::Single;
use vstd::prelude::*;

verus! {

/// A point or direction in space.
#[derive(Clone, Copy, Debug, PartialEq, Eq, Structural)]
pub struct Vec3 {
    /// The x coordinate.
    pub x: Single,
    /// The y coordinate.
    pub y: Single,
    /// The z coordinate.
    pub z: Single,
}

/// The smaller of two numbers, or the second where they do not compare.
pub open spec fn lower(a: Single, b: Single) -> Single {
    if a.spec_lt(b) {
        a
    } else {
        b
    }
}

/// The larger of two numbers, or the second where they do not compare.
pub open spec fn upper(a: Single, b: Single) -> Single {
    if b.spec_lt(a) {
        a
    } else {
        b
    }
}

fn lower_of(a: Single, b: Single) -> (r: Single)
    ensures
        r == lower(a, b),
{
    if a.lt(b) {
        a
    } else {
        b
    }
}

fn upper_of(a: Single, b: Single) -> (r: Single)
    ensures
        r == upper(a, b),
{
    if b.lt(a) {
        a
    } else {
        b
    }
}

impl Vec3 {
    /// The origin.
    #[verifier::allow_in_spec]
    pub fn zero() -> Vec3
        returns
            (Vec3 { x: Single::zero(), y: Single::zero(), z: Single::zero() }),
    {
        Vec3 { x: Single::zero(), y: Single::zero(), z: Single::zero() }
    }

    /// The point with these coordinates.
    pub fn new(x: Single, y: Single, z: Single) -> (v: Vec3)
        ensures
            v == (Vec3 { x, y, z }),
    {
        Vec3 { x, y, z }
    }

    /// Whether no coordinate is a NaN.
    pub open spec fn is_number(self) -> bool {
        !self.x.is_nan() && !self.y.is_nan() && !self.z.is_nan()
    }

    /// The smaller coordinate on each axis.
    pub open spec fn spec_min(self, other: Vec3) -> Vec3 {
        Vec3 { x: lower(self.x, other.x), y: lower(self.y, other.y), z: lower(self.z, other.z) }
    }

    /// The larger coordinate on each axis.
    pub open spec fn spec_max(self, other: Vec3) -> Vec3 {
        Vec3 { x: upper(self.x, other.x), y: upper(self.y, other.y), z: upper(self.z, other.z) }
    }

    /// Whether every coordinate is at most the other's.
    pub open spec fn below(self, other: Vec3) -> bool {
        self.x.spec_le(other.x) && self.y.spec_le(other.y) && self.z.spec_le(other.z)
    }

    /// The smaller coordinate on each axis.
    pub fn min(self, other: Vec3) -> (v: Vec3)
        ensures
            v == self.spec_min(other),
    {
        Vec3 {
            x: lower_of(self.x, other.x),
            y: lower_of(self.y, other.y),
            z: lower_of(self.z, other.z),
        }
    }

    /// The larger coordinate on each axis.
    pub fn max(self, other: Vec3) -> (v: Vec3)
        ensures
            v == self.spec_max(other),
    {
        Vec3 {
            x: upper_of(self.x, other.x),
            y: upper_of(self.y, other.y),
            z: upper_of(self.z, other.z),
        }
    }
}

/// A single mesh vertex: position plus an optional normal.
///
/// Loaders that lack normals leave the normal at zero; the renderer or loader is then expected to
/// generate face/vertex normals before shading.
#[derive(Clone, Copy, Debug, PartialEq, Eq, Structural)]
pub struct Vertex {
    /// Position in model space.
    pub position: Vec3,
    /// Normal in model space, or zero if unknown.
    pub normal: Vec3,
}

impl Vertex {
    /// Creates a vertex with a position and a normal.
    pub fn new(position: Vec3, normal: Vec3) -> (v: Vertex)
        ensures
            v == (Vertex { position, normal }),
    {
        Vertex { position, normal }
    }

    /// Creates a vertex with a position and a zero (unknown) normal.
    pub fn from_position(position: Vec3) -> (v: Vertex)
        ensures
            v == (Vertex { position, normal: Vec3::zero() }),
    {
        Vertex { position, normal: Vec3::zero() }
    }
}

/// An indexed triangle mesh.
///
/// `indices` is a flat list whose length is a multiple of three; each triple indexes into
/// `vertices` to form one triangle.
#[derive(Clone, Debug)]
pub struct Mesh {
    /// The mesh vertices.
    pub vertices: Vec<Vertex>,
    /// Triangle indices into `vertices` (length divisible by 3).
    pub indices: Vec<u32>,
}

impl Mesh {
    /// The number of triangles.
    pub open spec fn triangles(&self) -> nat {
        self.indices@.len() / 3
    }

    /// The positions of the vertices.
    pub open spec fn points(&self) -> Seq<Vec3> {
        self.vertices@.map_values(|v: Vertex| v.position)
    }

    /// Whether the indices come in triples and each names a vertex.
    pub open spec fn wf(&self) -> bool {
        &&& self.indices@.len() % 3 == 0
        &&& forall|i: int|
            0 <= i < self.indices@.len() ==> (#[trigger] self.indices@[i]) < self.vertices@.len()
    }

    /// Creates a mesh from vertices and triangle indices.
    pub fn new(vertices: Vec<Vertex>, indices: Vec<u32>) -> (m: Mesh)
        ensures
            m.vertices == vertices,
            m.indices == indices,
    {
        Mesh { vertices, indices }
    }

    /// The number of triangles (`indices.len() / 3`).
    pub fn triangle_count(&self) -> (n: usize)
        ensures
            n == self.triangles(),
    {
        self.indices.len() / 3
    }

    /// The axis-aligned bounding box of the mesh's vertices, or `None` if it has no vertices.
    pub fn bounding_box(&self) -> (b: Option<BoundingBox>)
        ensures
            b == box_of(self.points()),
    {
        let mut b: Option<BoundingBox> = None;
        let ghost points = self.points();
        let mut i: usize = 0;
        assert(points.take(0) =~= Seq::<Vec3>::empty());
        while i < self.vertices.len()
            invariant
                points == self.points(),
                i <= self.vertices.len(),
                b == box_of(points.take(i as int)),
            decreases self.vertices.len() - i,
        {
            b = grown(b, self.vertices[i].position);
            assert(points.take(i + 1).drop_last() =~= points.take(i as int));
            i = i + 1;
        }
        assert(points.take(i as int) =~= points);
        b
    }
}

impl Default for Mesh {
    fn default() -> (m: Mesh)
        ensures
            m.vertices@ == Seq::<Vertex>::empty(),
            m.indices@ == Seq::<u32>::empty(),
    {
        Mesh { vertices: Vec::new(), indices: Vec::new() }
    }
}

/// A scene: a collection of meshes plus a human-readable name.
#[derive(Clone, Debug)]
pub struct Scene {
    /// An optional source name (e.g. the file stem).
    pub name: String,
    /// The meshes in the scene, with transforms already baked into vertex positions.
    pub meshes: Vec<Mesh>,
}

/// How many vertices the meshes have together.
pub open spec fn vertex_sum(meshes: Seq<Mesh>) -> nat
    decreases meshes.len(),
{
    if meshes.len() == 0 {
        0
    } else {
        vertex_sum(meshes.drop_last()) + meshes.last().vertices@.len()
    }
}

/// How many triangles the meshes have together.
pub open spec fn triangle_sum(meshes: Seq<Mesh>) -> nat
    decreases meshes.len(),
{
    if meshes.len() == 0 {
        0
    } else {
        triangle_sum(meshes.drop_last()) + meshes.last().triangles()
    }
}

/// The positions of the vertices of all meshes, in order.
pub open spec fn all_points(meshes: Seq<Mesh>) -> Seq<Vec3>
    decreases meshes.len(),
{
    if meshes.len() == 0 {
        Seq::empty()
    } else {
        all_points(meshes.drop_last()) + meshes.last().points()
    }
}

proof fn lemma_vertex_sum_take(meshes: Seq<Mesh>, i: int)
    requires
        0 <= i < meshes.len(),
    ensures
        vertex_sum(meshes.take(i + 1)) == vertex_sum(meshes.take(i)) + meshes[i].vertices@.len(),
        vertex_sum(meshes.take(i + 1)) <= vertex_sum(meshes),
    decreases meshes.len() - i,
{
    assert(meshes.take(i + 1).drop_last() =~= meshes.take(i));
    if i + 1 < meshes.len() {
        lemma_vertex_sum_take(meshes, i + 1);
    } else {
        assert(meshes.take(i + 1) =~= meshes);
    }
}

proof fn lemma_triangle_sum_take(meshes: Seq<Mesh>, i: int)
    requires
        0 <= i < meshes.len(),
    ensures
        triangle_sum(meshes.take(i + 1)) == triangle_sum(meshes.take(i)) + meshes[i].triangles(),
        triangle_sum(meshes.take(i + 1)) <= triangle_sum(meshes),
    decreases meshes.len() - i,
{
    assert(meshes.take(i + 1).drop_last() =~= meshes.take(i));
    if i + 1 < meshes.len() {
        lemma_triangle_sum_take(meshes, i + 1);
    } else {
        assert(meshes.take(i + 1) =~= meshes);
    }
}

impl Scene {
    /// Creates a scene from a name and its meshes.
    pub fn new(name: String, meshes: Vec<Mesh>) -> (s: Scene)
        ensures
            s.name == name,
            s.meshes == meshes,
    {
        Scene { name, meshes }
    }

    /// Total vertex count across all meshes.
    pub fn vertex_count(&self) -> (n: usize)
        requires
            vertex_sum(self.meshes@) <= usize::MAX,
        ensures
            n == vertex_sum(self.meshes@),
    {
        let mut n: usize = 0;
        let mut i: usize = 0;
        assert(self.meshes@.take(0) =~= Seq::<Mesh>::empty());
        while i < self.meshes.len()
            invariant
                i <= self.meshes.len(),
                n == vertex_sum(self.meshes@.take(i as int)),
                vertex_sum(self.meshes@) <= usize::MAX,
            decreases self.meshes.len() - i,
        {
            proof {
                lemma_vertex_sum_take(self.meshes@, i as int);
            }
            n = n + self.meshes[i].vertices.len();
            i = i + 1;
        }
        assert(self.meshes@.take(i as int) =~= self.meshes@);
        n
    }

    /// Total triangle count across all meshes.
    pub fn triangle_count(&self) -> (n: usize)
        requires
            triangle_sum(self.meshes@) <= usize::MAX,
        ensures
            n == triangle_sum(self.meshes@),
    {
        let mut n: usize = 0;
        let mut i: usize = 0;
        assert(self.meshes@.take(0) =~= Seq::<Mesh>::empty());
        while i < self.meshes.len()
            invariant
                i <= self.meshes.len(),
                n == triangle_sum(self.meshes@.take(i as int)),
                triangle_sum(self.meshes@) <= usize::MAX,
            decreases self.meshes.len() - i,
        {
            proof {
                lemma_triangle_sum_take(self.meshes@, i as int);
            }
            n = n + self.meshes[i].triangle_count();
            i = i + 1;
        }
        assert(self.meshes@.take(i as int) =~= self.meshes@);
        n
    }

    /// The axis-aligned bounding box enclosing every mesh, or `None` if the scene is empty.
    pub fn bounding_box(&self) -> (b: Option<BoundingBox>)
        ensures
            b == box_of(all_points(self.meshes@)),
    {
        let mut b: Option<BoundingBox> = None;
        let mut i: usize = 0;
        assert(self.meshes@.take(0) =~= Seq::<Mesh>::empty());
        while i < self.meshes.len()
            invariant
                i <= self.meshes.len(),
                b == box_of(all_points(self.meshes@.take(i as int))),
            decreases self.meshes.len() - i,
        {
            let ghost before = all_points(self.meshes@.take(i as int));
            let ghost points = self.meshes@[i as int].points();
            let mut j: usize = 0;
            assert(before + points.take(0) =~= before);
            while j < self.meshes[i].vertices.len()
                invariant
                    i < self.meshes.len(),
                    points == self.meshes@[i as int].points(),
                    j <= points.len(),
                    b == box_of(before + points.take(j as int)),
                decreases points.len() - j,
            {
                b = grown(b, self.meshes[i].vertices[j].position);
                assert((before + points.take(j + 1)).drop_last() =~= before + points.take(
                    j as int,
                ));
                assert((before + points.take(j + 1)).last() == points[j as int]);
                j = j + 1;
            }
            assert(points.take(j as int) =~= points);
            assert(self.meshes@.take(i + 1).drop_last() =~= self.meshes@.take(i as int));
            i = i + 1;
        }
        assert(self.meshes@.take(i as int) =~= self.meshes@);
        b
    }
}

impl Default for Scene {
    fn default() -> (s: Scene)
        ensures
            s.name@ == Seq::<char>::empty(),
            s.meshes@ == Seq::<Mesh>::empty(),
    {
        Scene { name: String::new(), meshes: Vec::new() }
    }
}

/// An axis-aligned bounding box.
#[derive(Clone, Copy, Debug, PartialEq, Eq, Structural)]
pub struct BoundingBox {
    /// The minimum corner.
    pub min: Vec3,
    /// The maximum corner.
    pub max: Vec3,
}

/// A bounding sphere, used for automatic camera framing.
#[derive(Clone, Copy, Debug, PartialEq, Eq, Structural)]
pub struct BoundingSphere {
    /// The sphere center.
    pub center: Vec3,
    /// The sphere radius (always non-negative).
    pub radius: Single,
}

/// The box around `points`: it starts at the first and grows to take in each of the others.
pub open spec fn box_of(points: Seq<Vec3>) -> Option<BoundingBox>
    decreases points.len(),
{
    if points.len() == 0 {
        None
    } else {
        match box_of(points.drop_last()) {
            None => Some(BoundingBox { min: points.last(), max: points.last() }),
            Some(b) => Some(
                BoundingBox {
                    min: b.min.spec_min(points.last()),
                    max: b.max.spec_max(points.last()),
                },
            ),
        }
    }
}

/// The box grown to take in `p`.
fn grown(b: Option<BoundingBox>, p: Vec3) -> (r: Option<BoundingBox>)
    ensures
        r == (match b {
            None => Some(BoundingBox { min: p, max: p }),
            Some(b) => Some(BoundingBox { min: b.min.spec_min(p), max: b.max.spec_max(p) }),
        }),
{
    match b {
        None => Some(BoundingBox { min: p, max: p }),
        Some(b) => Some(BoundingBox { min: b.min.min(p), max: b.max.max(p) }),
    }
}

impl BoundingBox {
    /// Builds the tightest box enclosing `points`, or `None` if there are none.
    pub fn from_points(points: &[Vec3]) -> (b: Option<BoundingBox>)
        ensures
            b == box_of(points@),
    {
        let mut b: Option<BoundingBox> = None;
        let mut i: usize = 0;
        assert(points@.take(0) =~= Seq::<Vec3>::empty());
        while i < points.len()
            invariant
                i <= points.len(),
                b == box_of(points@.take(i as int)),
            decreases points.len() - i,
        {
            b = grown(b, points[i]);
            assert(points@.take(i + 1).drop_last() =~= points@.take(i as int));
            i = i + 1;
        }
        assert(points@.take(i as int) =~= points@);
        b
    }
}

/// Whether `value` is the coordinate, picked by `axis`, of one of the points.
pub open spec fn touches(points: Seq<Vec3>, axis: spec_fn(Vec3) -> Single, value: Single) -> bool {
    exists|i: int| 0 <= i < points.len() && axis(#[trigger] points[i]) == value
}

/// The bounding box encloses every point, and each of its faces passes through one of them, so no
/// smaller box does.
pub proof fn law_box_is_tight(points: Seq<Vec3>)
    requires
        points.len() > 0,
        forall|i: int| 0 <= i < points.len() ==> (#[trigger] points[i]).is_number(),
    ensures
        box_of(points) is Some,
        box_of(points)->0.min.is_number() && box_of(points)->0.max.is_number(),
        forall|i: int|
            0 <= i < points.len() ==> box_of(points)->0.min.below(#[trigger] points[i])
                && points[i].below(box_of(points)->0.max),
        touches(points, |p: Vec3| p.x, box_of(points)->0.min.x),
        touches(points, |p: Vec3| p.y, box_of(points)->0.min.y),
        touches(points, |p: Vec3| p.z, box_of(points)->0.min.z),
        touches(points, |p: Vec3| p.x, box_of(points)->0.max.x),
        touches(points, |p: Vec3| p.y, box_of(points)->0.max.y),
        touches(points, |p: Vec3| p.z, box_of(points)->0.max.z),
    decreases points.len(),
{
    let rest = points.drop_last();
    let p = points.last();
    let fx = |q: Vec3| q.x;
    let fy = |q: Vec3| q.y;
    let fz = |q: Vec3| q.z;
    assert(p == points[points.len() - 1]);
    assert(p.is_number());
    if rest.len() > 0 {
        assert forall|i: int| 0 <= i < rest.len() implies (#[trigger] rest[i]).is_number() by {
            assert(rest[i] == points[i]);
        }
        law_box_is_tight(rest);
        let b = box_of(rest)->0;
        let r = box_of(points)->0;
        assert forall|i: int| 0 <= i < points.len() implies r.min.below(#[trigger] points[i])
            && points[i].below(r.max) by {
            if i < rest.len() {
                assert(rest[i] == points[i]);
            }
        }
        lemma_touch_last(points, fx, b.min.x, r.min.x);
        lemma_touch_last(points, fy, b.min.y, r.min.y);
        lemma_touch_last(points, fz, b.min.z, r.min.z);
        lemma_touch_last(points, fx, b.max.x, r.max.x);
        lemma_touch_last(points, fy, b.max.y, r.max.y);
        lemma_touch_last(points, fz, b.max.z, r.max.z);
    } else {
        assert(box_of(rest) is None);
        assert(fx(points[0]) == p.x && fy(points[0]) == p.y && fz(points[0]) == p.z);
    }
}

proof fn lemma_touch_last(points: Seq<Vec3>, axis: spec_fn(Vec3) -> Single, before: Single, after: Single)
    requires
        points.len() > 0,
        touches(points.drop_last(), axis, before),
        after == before || after == axis(points.last()),
    ensures
        touches(points, axis, after),
{
    let rest = points.drop_last();
    let i = choose|i: int| 0 <= i < rest.len() && axis(#[trigger] rest[i]) == before;
    assert(points[i] == rest[i]);
    if after != before {
        assert(axis(points[points.len() - 1]) == after);
    }
}

/// The counts of a scene add up: those of all its meshes are those of the first ones and of the
/// others, and a mesh alone counts its own vertices and one triangle for each three indices.
pub proof fn law_counts_add_up(first: Seq<Mesh>, others: Seq<Mesh>, one: Mesh)
    ensures
        vertex_sum(first + others) == vertex_sum(first) + vertex_sum(others),
        triangle_sum(first + others) == triangle_sum(first) + triangle_sum(others),
        vertex_sum(seq![one]) == one.vertices@.len(),
        3 * triangle_sum(seq![one]) <= one.indices@.len() < 3 * triangle_sum(seq![one]) + 3,
    decreases others.len(),
{
    assert(seq![one].drop_last() =~= Seq::<Mesh>::empty());
    assert(vertex_sum(Seq::<Mesh>::empty()) == 0 && triangle_sum(Seq::<Mesh>::empty()) == 0);
    if others.len() == 0 {
        assert(first + others =~= first);
    } else {
        let all = first + others;
        assert(all.drop_last() =~= first + others.drop_last());
        law_counts_add_up(first, others.drop_last(), one);
    }
}

/// A point is one of a scene's exactly where a vertex of one of its meshes lies there.
pub proof fn law_points_are_the_vertices(meshes: Seq<Mesh>, p: Vec3)
    ensures
        all_points(meshes).contains(p) <==> exists|m: int, v: int|
            0 <= m < meshes.len() && 0 <= v < meshes[m].vertices@.len()
                && #[trigger] meshes[m].vertices@[v].position == p,
    decreases meshes.len(),
{
    if meshes.len() > 0 {
        let rest = meshes.drop_last();
        let before = all_points(rest);
        let own = meshes.last().points();
        let all = before + own;
        law_points_are_the_vertices(rest, p);
        if all.contains(p) {
            let i = choose|i: int| 0 <= i < all.len() && all[i] == p;
            if i < before.len() {
                assert(before[i] == p);
                let (m, v) = choose|m: int, v: int|
                    0 <= m < rest.len() && 0 <= v < rest[m].vertices@.len()
                        && #[trigger] rest[m].vertices@[v].position == p;
                assert(meshes[m].vertices@[v].position == p);
            } else {
                assert(own[i - before.len()] == p);
                assert(meshes[meshes.len() - 1].vertices@[i - before.len()].position == p);
            }
        }
        if exists|m: int, v: int|
            0 <= m < meshes.len() && 0 <= v < meshes[m].vertices@.len()
                && #[trigger] meshes[m].vertices@[v].position == p {
            let (m, v) = choose|m: int, v: int|
                0 <= m < meshes.len() && 0 <= v < meshes[m].vertices@.len()
                    && #[trigger] meshes[m].vertices@[v].position == p;
            if m < rest.len() {
                assert(rest[m].vertices@[v].position == p);
                let i = choose|i: int| 0 <= i < before.len() && before[i] == p;
                assert(all[i] == p);
            } else {
                assert(own[v] == p);
                assert(all[before.len() + v] == p);
            }
        }
    }
}

/// The smaller of two points is at most both on every axis and the larger at least both, each of
/// their coordinates that of one of the two on the same axis.
pub proof fn law_smaller_and_larger_enclose_both(a: Vec3, b: Vec3)
    requires
        a.is_number(),
        b.is_number(),
    ensures
        a.spec_min(b).below(a) && a.spec_min(b).below(b),
        a.below(a.spec_max(b)) && b.below(a.spec_max(b)),
        a.spec_min(b).x == a.x || a.spec_min(b).x == b.x,
        a.spec_min(b).y == a.y || a.spec_min(b).y == b.y,
        a.spec_min(b).z == a.z || a.spec_min(b).z == b.z,
        a.spec_max(b).x == a.x || a.spec_max(b).x == b.x,
        a.spec_max(b).y == a.y || a.spec_max(b).y == b.y,
        a.spec_max(b).z == a.z || a.spec_max(b).z == b.z,
{
}

} // verus!
