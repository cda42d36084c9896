//! STL mesh loading (binary and ASCII).
//!
//! STL files describe a soup of independent triangles, each carrying only a per-face normal. A
//! file becomes one mesh in one of two ways:
//!
//! * flat: every triangle contributes three fresh vertices, all carrying the face normal;
//! * welded: vertices in the same cell of a grid become one, and the triangles share it.
//!
//! Face normals and grid cells are computed from the coordinates elsewhere.

use crate::error::Error;
use crate::geometry::{
    box_of, all_points, triangle_sum, vertex_sum, BoundingBox, BoundingSphere, Mesh, Scene, Vec3,
    Vertex,
};
use crate::single::Single;
use crate::text::joined;
use crate::weld::{first_seen, weld, welds, CellKey};
use vstd::prelude::*;

verus! {

/// Options controlling how an STL file is converted into a scene.
#[derive(Clone, Copy, Debug, PartialEq, Eq, Structural)]
pub struct StlOptions {
    /// When set, vertices closer together than this (in model units) are welded into a single
    /// shared vertex. It must be a finite, strictly-positive number.
    pub weld_tolerance: Option<Single>,
}

impl Default for StlOptions {
    fn default() -> (o: StlOptions)
        ensures
            o.weld_tolerance is None,
    {
        StlOptions { weld_tolerance: None }
    }
}

/// One triangle of an STL file: its stored normal and its corners, by number.
#[derive(Clone, Copy, Debug, PartialEq, Eq, Structural)]
pub struct StlFace {
    /// The normal as the file has it.
    pub normal: Vec3,
    /// The first corner.
    pub a: usize,
    /// The second corner.
    pub b: usize,
    /// The third corner.
    pub c: usize,
}

/// The triangles of an STL file over their distinct corners.
#[derive(Clone, Debug)]
pub struct StlMesh {
    /// The distinct corners.
    pub vertices: Vec<Vec3>,
    /// The triangles.
    pub faces: Vec<StlFace>,
}

/// What an STL file holds: its corners and its triangles.
pub ghost struct StlData {
    /// The distinct corners.
    pub vertices: Seq<Vec3>,
    /// The triangles.
    pub faces: Seq<StlFace>,
}

impl StlData {
    /// Whether every triangle's corners are there.
    pub open spec fn wf(self) -> bool {
        forall|f: int|
            0 <= f < self.faces.len() ==> {
                let t = #[trigger] self.faces[f];
                &&& t.a < self.vertices.len()
                &&& t.b < self.vertices.len()
                &&& t.c < self.vertices.len()
            }
    }

    /// The position of the corner number `k` among the three of each triangle in turn.
    pub open spec fn corner(self, k: int) -> Vec3 {
        let t = self.faces[k / 3];
        self.vertices[if k % 3 == 0 {
            t.a as int
        } else if k % 3 == 1 {
            t.b as int
        } else {
            t.c as int
        }]
    }
}

impl View for StlMesh {
    type V = StlData;

    open spec fn view(&self) -> StlData {
        StlData { vertices: self.vertices@, faces: self.faces@ }
    }
}

/// What `stl_io::read_stl` reads from these bytes, or the text of its error where it fails.
pub uninterp spec fn stl_contents(bytes: Seq<u8>) -> Result<StlData, Seq<char>>;

/// Calls `stl_io::read_stl` on the bytes and takes over its corners, bit for bit, and its
/// triangles. The call is a function of the bytes; each triangle's indices come out of the list of
/// corners that the same call returns. On failure the text of its error is passed on.
#[verifier::external_body]
fn read_stl(bytes: &[u8]) -> (r: Result<StlMesh, String>)
    ensures
        stl_contents(bytes@) == (match r {
            Ok(m) => Ok(m@),
            Err(e) => Err(e@),
        }),
        r is Ok ==> r->Ok_0@.wf(),
{
    let bits = |v: stl_io::Vertex| {
        let [x, y, z] = v.0.map(|c| Single { bits: c.to_bits() });
        Vec3 { x, y, z }
    };
    let mesh = stl_io::read_stl(&mut std::io::Cursor::new(bytes)).map_err(|e| e.to_string())?;
    let vertices = mesh.vertices.iter().map(|v| bits(*v)).collect();
    let face = |f: &stl_io::IndexedTriangle| StlFace {
        normal: bits(f.normal),
        a: f.vertices[0],
        b: f.vertices[1],
        c: f.vertices[2],
    };
    Ok(StlMesh { vertices, faces: mesh.faces.iter().map(face).collect() })
}

/// Reads the triangles of an STL file, binary or ASCII.
///
/// Malformed input yields [`Error::Decode`].
pub fn parse_stl(bytes: &[u8]) -> (r: Result<StlMesh, Error>)
    ensures
        match stl_contents(bytes@) {
            Ok(d) => r is Ok && r->Ok_0@ == d && d.wf(),
            Err(reason) => r is Err && r->Err_0 is Decode && r->Err_0.detail()
                == "failed to parse STL: "@ + reason,
        },
{
    match read_stl(bytes) {
        Ok(m) => Ok(m),
        Err(m) => Err(parse_failure(m.as_str())),
    }
}

/// The error for a file that could not be parsed, for the parser's reason.
pub fn parse_failure(reason: &str) -> (e: Error)
    ensures
        e is Decode,
        e.detail() == "failed to parse STL: "@ + reason@,
{
    Error::Decode(joined("failed to parse STL: ", reason))
}

/// The three triangle-corner positions of a face.
pub fn face_positions(mesh: &StlMesh, face: usize) -> (p: [Vec3; 3])
    requires
        mesh@.wf(),
        face < mesh@.faces.len(),
    ensures
        forall|k: int| 0 <= k < 3 ==> #[trigger] p[k] == mesh@.corner(3 * face + k),
{
    let t = mesh.faces[face];
    assert(mesh@.faces[face as int] == t);
    [mesh.vertices[t.a], mesh.vertices[t.b], mesh.vertices[t.c]]
}

/// Whether `m` has three vertices of its own for each triangle, with that triangle's normal.
pub open spec fn flattened(data: StlData, normals: Seq<Vec3>, m: Mesh) -> bool {
    &&& m.vertices@ == Seq::new(
        3 * data.faces.len(),
        |k: int| Vertex { position: data.corner(k), normal: normals[k / 3] },
    )
    &&& m.indices@ == Seq::new(3 * data.faces.len(), |k: int| k as u32)
}

/// Builds a flat-shaded mesh: three fresh vertices per triangle, each carrying the face normal,
/// which `normals` has for each face.
pub fn flat_mesh(mesh: &StlMesh, normals: &[Vec3]) -> (m: Mesh)
    requires
        mesh@.wf(),
        normals@.len() == mesh@.faces.len(),
        3 * mesh@.faces.len() <= u32::MAX,
    ensures
        m.wf(),
        flattened(mesh@, normals@, m),
{
    let mut vertices: Vec<Vertex> = Vec::new();
    let mut indices: Vec<u32> = Vec::new();
    let mut f: usize = 0;
    while f < mesh.faces.len()
        invariant
            mesh@.wf(),
            normals@.len() == mesh@.faces.len(),
            3 * mesh@.faces.len() <= u32::MAX,
            f <= mesh@.faces.len(),
            vertices@ == Seq::new(
                3 * f as nat,
                |k: int| Vertex { position: mesh@.corner(k), normal: normals@[k / 3] },
            ),
            indices@ == Seq::new(3 * f as nat, |k: int| k as u32),
        decreases mesh@.faces.len() - f,
    {
        let p = face_positions(mesh, f);
        let n = normals[f];
        let base: u32 = vertices.len() as u32;
        assert(p[0] == mesh@.corner(3 * f + 0));
        assert(p[1] == mesh@.corner(3 * f + 1));
        assert(p[2] == mesh@.corner(3 * f + 2));
        vertices.push(Vertex { position: p[0], normal: n });
        vertices.push(Vertex { position: p[1], normal: n });
        vertices.push(Vertex { position: p[2], normal: n });
        indices.push(base);
        indices.push(base + 1);
        indices.push(base + 2);
        f = f + 1;
        assert(vertices@ =~= Seq::new(
            3 * f as nat,
            |k: int| Vertex { position: mesh@.corner(k), normal: normals@[k / 3] },
        ));
        assert(indices@ =~= Seq::new(3 * f as nat, |k: int| k as u32));
    }
    Mesh { vertices, indices }
}

/// Checks a weld tolerance; `shown` is its text in the message.
pub fn check_tolerance(tolerance: Single, shown: &str) -> (r: Result<(), Error>)
    ensures
        r is Ok <==> tolerance.is_finite() && Single::zero().spec_lt(tolerance),
        r is Err ==> r->Err_0 is Geometry && r->Err_0.detail()
            == "weld tolerance must be finite and positive, got "@ + shown@,
{
    if tolerance.bits % crate::single::SIGN < crate::single::INFINITY && Single::zero().lt(
        tolerance,
    ) {
        Ok(())
    } else {
        Err(Error::Geometry(joined("weld tolerance must be finite and positive, got ", shown)))
    }
}

/// The welded mesh before its normals: the position of each shared vertex, and for each corner of
/// each triangle in turn the vertex that it has become.
#[derive(Clone, Debug)]
pub struct WeldedMesh {
    /// The position of each vertex: that of the first corner in its cell.
    pub positions: Vec<Vec3>,
    /// The vertex of each corner.
    pub indices: Vec<u32>,
}

/// Whether `m` is the mesh welded over these cells, one for each corner.
pub open spec fn welded(data: StlData, keys: Seq<CellKey>, m: WeldedMesh) -> bool {
    let cells = first_seen(keys);
    &&& m.positions@.len() == cells.len()
    &&& m.indices@.len() == keys.len()
    &&& forall|k: int|
        #![trigger m.indices@[k]]
        0 <= k < keys.len() ==> m.indices@[k] < cells.len() && cells[m.indices@[k] as int]
            == keys[k]
    &&& forall|c: int|
        #![trigger m.positions@[c]]
        0 <= c < cells.len() ==> is_first_corner(data, keys, cells[c], m.positions@[c])
}

/// Whether `p` is the position of the first corner that lies in `cell`.
pub open spec fn is_first_corner(data: StlData, keys: Seq<CellKey>, cell: CellKey, p: Vec3) -> bool {
    exists|k: int| #[trigger] is_first(keys, cell, k) && p == data.corner(k)
}

/// Whether `k` is the first place that lies in `cell`.
pub open spec fn is_first(keys: Seq<CellKey>, cell: CellKey, k: int) -> bool {
    &&& 0 <= k < keys.len()
    &&& keys[k] == cell
    &&& forall|j: int| 0 <= j < k ==> #[trigger] keys[j] != cell
}

/// Welds the corners that share a cell; `keys` has the cell of each corner of each triangle in
/// turn.
pub fn weld_mesh(mesh: &StlMesh, keys: &[CellKey]) -> (m: WeldedMesh)
    requires
        mesh@.wf(),
        keys@.len() == 3 * mesh@.faces.len(),
        keys@.len() <= u32::MAX,
    ensures
        welded(mesh@, keys@, m),
{
    let w = weld(keys);
    let mut positions: Vec<Vec3> = Vec::new();
    let mut c: usize = 0;
    while c < w.firsts.len()
        invariant
            mesh@.wf(),
            keys@.len() == 3 * mesh@.faces.len(),
            welds(keys@, w),
            c <= w.firsts@.len(),
            positions@.len() == c,
            forall|d: int|
                #![trigger positions@[d]]
                0 <= d < c ==> positions@[d] == mesh@.corner(w.firsts@[d] as int),
        decreases w.firsts@.len() - c,
    {
        let k: usize = w.firsts[c];
        assert(w.firsts@[c as int] < keys@.len());
        let p = face_positions(mesh, k / 3);
        let r: usize = k % 3;
        assert(p[r as int] == mesh@.corner(3 * (k / 3) + r));
        positions.push(p[r]);
        c = c + 1;
    }
    let m = WeldedMesh { positions, indices: w.remap };
    proof {
        let cells = first_seen(keys@);
        assert forall|k: int| #![trigger m.indices@[k]] 0 <= k < keys@.len() implies m.indices@[k]
            < cells.len() && cells[m.indices@[k] as int] == keys@[k] by {
            assert(m.indices@[k] == w.remap@[k]);
        }
        assert forall|d: int| #![trigger m.positions@[d]] 0 <= d < cells.len() implies is_first_corner(mesh@, keys@, cells[d], m.positions@[d]) by {
            assert(is_first(keys@, cells[d], w.firsts@[d] as int));
        }
    }
    m
}

/// Gives each shared vertex its normal.
pub fn with_normals(positions: &[Vec3], normals: &[Vec3]) -> (vertices: Vec<Vertex>)
    requires
        positions@.len() == normals@.len(),
    ensures
        vertices@ == Seq::new(
            positions@.len(),
            |i: int| Vertex { position: positions@[i], normal: normals@[i] },
        ),
{
    let mut vertices: Vec<Vertex> = Vec::new();
    let mut i: usize = 0;
    while i < positions.len()
        invariant
            positions@.len() == normals@.len(),
            i <= positions.len(),
            vertices@ == Seq::new(
                i as nat,
                |k: int| Vertex { position: positions@[k], normal: normals@[k] },
            ),
        decreases positions.len() - i,
    {
        vertices.push(Vertex { position: positions[i], normal: normals[i] });
        i = i + 1;
        assert(vertices@ =~= Seq::new(
            i as nat,
            |k: int| Vertex { position: positions@[k], normal: normals@[k] },
        ));
    }
    vertices
}

/// Corners of the same cell share a vertex after welding, and no others do.
pub proof fn law_welding_shares_exactly_the_cells(
    data: StlData,
    keys: Seq<CellKey>,
    m: WeldedMesh,
    i: int,
    j: int,
)
    requires
        welded(data, keys, m),
        0 <= i < keys.len(),
        0 <= j < keys.len(),
    ensures
        m.indices@[i] == m.indices@[j] <==> keys[i] == keys[j],
        m.positions@.len() <= keys.len(),
{
    crate::weld::law_first_seen_lists_each_key_once(keys);
}

/// Summary statistics for a loaded STL scene.
#[derive(Clone, Copy, Debug, PartialEq, Eq, Structural)]
pub struct StlStats {
    /// Total number of triangles across the scene.
    pub triangle_count: usize,
    /// Total number of (post-weld) vertices across the scene.
    pub vertex_count: usize,
    /// The axis-aligned bounding box, or `None` if the scene has no vertices.
    pub bounding_box: Option<BoundingBox>,
    /// The bounding sphere used for auto-framing, or `None` if the scene has no vertices.
    pub bounding_sphere: Option<BoundingSphere>,
}

impl StlStats {
    /// Computes statistics from a scene and the sphere around its bounding box.
    pub fn from_scene(scene: &Scene, sphere: Option<BoundingSphere>) -> (s: StlStats)
        requires
            triangle_sum(scene.meshes@) <= usize::MAX,
            vertex_sum(scene.meshes@) <= usize::MAX,
        ensures
            s.triangle_count == triangle_sum(scene.meshes@),
            s.vertex_count == vertex_sum(scene.meshes@),
            s.bounding_box == box_of(all_points(scene.meshes@)),
            s.bounding_sphere == if s.bounding_box is Some {
                sphere
            } else {
                None
            },
    {
        let bounding_box = scene.bounding_box();
        let bounding_sphere = match bounding_box {
            Some(_) => sphere,
            None => None,
        };
        StlStats {
            triangle_count: scene.triangle_count(),
            vertex_count: scene.vertex_count(),
            bounding_box,
            bounding_sphere,
        }
    }
}

/// Flat shading keeps each triangle: it comes out in its place, with its three corners in their
/// order and its own normal at each of them.
pub proof fn law_flat_shading_keeps_the_triangles(data: StlData, normals: Seq<Vec3>, m: Mesh, f: int)
    requires
        data.wf(),
        normals.len() == data.faces.len(),
        3 * data.faces.len() <= u32::MAX,
        flattened(data, normals, m),
        0 <= f < data.faces.len(),
    ensures
        m.indices@.len() == 3 * data.faces.len(),
        ({
            let a = m.vertices@[m.indices@[3 * f] as int];
            let b = m.vertices@[m.indices@[3 * f + 1] as int];
            let c = m.vertices@[m.indices@[3 * f + 2] as int];
            &&& a.position == data.vertices[data.faces[f].a as int]
            &&& b.position == data.vertices[data.faces[f].b as int]
            &&& c.position == data.vertices[data.faces[f].c as int]
            &&& a.normal == normals[f]
            &&& b.normal == normals[f]
            &&& c.normal == normals[f]
        }),
{
}

/// Flat shading shares no vertex: two corners have the same one only where they are the same
/// corner.
pub proof fn law_flat_shading_shares_no_vertex(
    data: StlData,
    normals: Seq<Vec3>,
    m: Mesh,
    i: int,
    j: int,
)
    requires
        3 * data.faces.len() <= u32::MAX,
        flattened(data, normals, m),
        0 <= i < j < m.indices@.len(),
    ensures
        m.indices@[i] != m.indices@[j],
{
}

/// Welding keeps each triangle where every corner has a cell to itself, or shares it only with
/// corners at the same place: its three corners keep their order and positions.
pub proof fn law_welding_keeps_the_triangles(
    data: StlData,
    keys: Seq<CellKey>,
    m: WeldedMesh,
    f: int,
)
    requires
        data.wf(),
        keys.len() == 3 * data.faces.len(),
        welded(data, keys, m),
        forall|i: int, j: int|
            0 <= i < keys.len() && 0 <= j < keys.len() && #[trigger] keys[i] == #[trigger] keys[j]
                ==> data.corner(i) == data.corner(j),
        0 <= f < data.faces.len(),
    ensures
        m.positions@[m.indices@[3 * f] as int] == data.vertices[data.faces[f].a as int],
        m.positions@[m.indices@[3 * f + 1] as int] == data.vertices[data.faces[f].b as int],
        m.positions@[m.indices@[3 * f + 2] as int] == data.vertices[data.faces[f].c as int],
{
    lemma_corner_is_kept(data, keys, m, 3 * f);
    lemma_corner_is_kept(data, keys, m, 3 * f + 1);
    lemma_corner_is_kept(data, keys, m, 3 * f + 2);
}

proof fn lemma_corner_is_kept(data: StlData, keys: Seq<CellKey>, m: WeldedMesh, k: int)
    requires
        welded(data, keys, m),
        forall|i: int, j: int|
            0 <= i < keys.len() && 0 <= j < keys.len() && #[trigger] keys[i] == #[trigger] keys[j]
                ==> data.corner(i) == data.corner(j),
        0 <= k < keys.len(),
    ensures
        m.positions@[m.indices@[k] as int] == data.corner(k),
{
    let c = m.indices@[k] as int;
    let cell = first_seen(keys)[c];
    assert(is_first_corner(data, keys, cell, m.positions@[c]));
    let first = choose|i: int| #[trigger] is_first(keys, cell, i) && m.positions@[c] == data.corner(i);
    assert(keys[first] == keys[k]);
}

/// A welded vertex lies where the first of its corners lies: no corner before that one is in the
/// same cell. The corner is returned.
pub proof fn law_first_corner_places_the_vertex(
    data: StlData,
    keys: Seq<CellKey>,
    m: WeldedMesh,
    k: int,
) -> (first: int)
    requires
        welded(data, keys, m),
        0 <= k < keys.len(),
    ensures
        0 <= first <= k,
        keys[first] == keys[k],
        forall|j: int| 0 <= j < first ==> #[trigger] keys[j] != keys[k],
        m.positions@[m.indices@[k] as int] == data.corner(first),
{
    let c = m.indices@[k] as int;
    let cell = first_seen(keys)[c];
    assert(is_first_corner(data, keys, cell, m.positions@[c]));
    choose|i: int| #[trigger] is_first(keys, cell, i) && m.positions@[c] == data.corner(i)
}

} // verus!
