//! Built-in mesh primitives for demos and tests.
//!
//! The meshes use shared corner vertices (no per-face duplication), so the triangle indices
//! describe the real edge topology. Corner vertices carry a zero normal.

use crate::geometry::{Mesh, Vec3, Vertex};
use crate::raster::negated;
use crate::single::{Single, SIGN};
use vstd::prelude::*;

verus! {

/// The smallest size of a primitive, one ten-thousandth: smaller ones are enlarged to it.
#[verifier::allow_in_spec]
pub fn smallest() -> Single
    returns
        (Single { bits: 0x38d1_b717 }),
{
    Single { bits: 0x38d1_b717 }
}

/// `size`, or the smallest size where it is not larger than that.
pub open spec fn at_least_smallest(size: Single) -> Single {
    if smallest().spec_lt(size) {
        size
    } else {
        smallest()
    }
}

fn negative(v: Single) -> (r: Single)
    ensures
        r == negated(v),
{
    if v.bits >= SIGN {
        Single { bits: v.bits - SIGN }
    } else {
        Single { bits: v.bits + SIGN }
    }
}

/// Where corner `i` of a cube of half-extent `h` lies: on the low or the high end of each axis.
pub open spec fn cube_corner(h: Single, i: int) -> Vec3 {
    Vec3 {
        x: if i % 4 == 1 || i % 4 == 2 {
            h
        } else {
            negated(h)
        },
        y: if i % 4 >= 2 {
            h
        } else {
            negated(h)
        },
        z: if i >= 4 {
            h
        } else {
            negated(h)
        },
    }
}

/// The two triangles of each face of a cube, wound counter-clockwise seen from outside.
pub open spec fn cube_faces() -> Seq<u32> {
    seq![
        4, 5, 6, 4, 6, 7,
        1, 0, 3, 1, 3, 2,
        5, 1, 2, 5, 2, 6,
        0, 4, 7, 0, 7, 3,
        7, 6, 2, 7, 2, 3,
        0, 1, 5, 0, 5, 4,
    ]
}

/// An axis-aligned cube centered at the origin with corners at `±half_extent` on each axis.
///
/// The mesh has 8 shared corner vertices and 12 triangles (two per face), wound counter-clockwise
/// when viewed from outside. A half-extent that is not above the smallest size is enlarged to it
/// so the mesh is never degenerate.
pub fn cube(half_extent: Single) -> (m: Mesh)
    ensures
        m.wf(),
        m.vertices@ == Seq::new(
            8,
            |i: int|
                Vertex {
                    position: cube_corner(at_least_smallest(half_extent), i),
                    normal: Vec3::zero(),
                },
        ),
        m.indices@ == cube_faces(),
{
    let h: Single = if smallest().lt(half_extent) {
        half_extent
    } else {
        smallest()
    };
    let n = negative(h);
    let mut vertices: Vec<Vertex> = Vec::new();
    vertices.push(Vertex::from_position(Vec3 { x: n, y: n, z: n }));
    vertices.push(Vertex::from_position(Vec3 { x: h, y: n, z: n }));
    vertices.push(Vertex::from_position(Vec3 { x: h, y: h, z: n }));
    vertices.push(Vertex::from_position(Vec3 { x: n, y: h, z: n }));
    vertices.push(Vertex::from_position(Vec3 { x: n, y: n, z: h }));
    vertices.push(Vertex::from_position(Vec3 { x: h, y: n, z: h }));
    vertices.push(Vertex::from_position(Vec3 { x: h, y: h, z: h }));
    vertices.push(Vertex::from_position(Vec3 { x: n, y: h, z: h }));
    let indices: Vec<u32> = vec![
        4, 5, 6, 4, 6, 7,
        1, 0, 3, 1, 3, 2,
        5, 1, 2, 5, 2, 6,
        0, 4, 7, 0, 7, 3,
        7, 6, 2, 7, 2, 3,
        0, 1, 5, 0, 5, 4,
    ];
    assert(vertices@ =~= Seq::new(
        8,
        |i: int|
            Vertex {
                position: cube_corner(at_least_smallest(half_extent), i),
                normal: Vec3::zero(),
            },
    ));
    assert(indices@ =~= cube_faces());
    Mesh { vertices, indices }
}

/// Where corner `i` of a tetrahedron lies that is inscribed in a cube of half-extent `s`.
pub open spec fn tetrahedron_corner(s: Single, i: int) -> Vec3 {
    Vec3 {
        x: if i < 2 {
            s
        } else {
            negated(s)
        },
        y: if i % 2 == 0 {
            s
        } else {
            negated(s)
        },
        z: if i == 0 || i == 3 {
            s
        } else {
            negated(s)
        },
    }
}

/// The triangles of a tetrahedron, wound counter-clockwise seen from outside.
pub open spec fn tetrahedron_faces() -> Seq<u32> {
    seq![0, 1, 2, 0, 3, 1, 0, 2, 3, 1, 3, 2]
}

/// The size that a tetrahedron of that circumradius has: at least the smallest.
pub fn tetrahedron_radius(circumradius: Single) -> (r: Single)
    ensures
        r == at_least_smallest(circumradius),
{
    if smallest().lt(circumradius) {
        circumradius
    } else {
        smallest()
    }
}

/// A regular tetrahedron centered at the origin, inscribed in the cube with corners at `±offset`
/// on each axis.
///
/// The mesh has 4 shared vertices and 4 triangles, each wound counter-clockwise when viewed from
/// outside.
pub fn tetrahedron(offset: Single) -> (m: Mesh)
    ensures
        m.wf(),
        m.vertices@ == Seq::new(
            4,
            |i: int| Vertex { position: tetrahedron_corner(offset, i), normal: Vec3::zero() },
        ),
        m.indices@ == tetrahedron_faces(),
{
    let s = offset;
    let n = negative(s);
    let mut vertices: Vec<Vertex> = Vec::new();
    vertices.push(Vertex::from_position(Vec3 { x: s, y: s, z: s }));
    vertices.push(Vertex::from_position(Vec3 { x: s, y: n, z: n }));
    vertices.push(Vertex::from_position(Vec3 { x: n, y: s, z: n }));
    vertices.push(Vertex::from_position(Vec3 { x: n, y: n, z: s }));
    let indices: Vec<u32> = vec![0, 1, 2, 0, 3, 1, 0, 2, 3, 1, 3, 2];
    assert(vertices@ =~= Seq::new(
        4,
        |i: int| Vertex { position: tetrahedron_corner(offset, i), normal: Vec3::zero() },
    ));
    assert(indices@ =~= tetrahedron_faces());
    Mesh { vertices, indices }
}

/// Where the directed edge number `e` of a triangle list starts and ends.
pub open spec fn directed_edge(indices: Seq<u32>, e: int) -> (u32, u32) {
    (indices[e], indices[e / 3 * 3 + (e + 1) % 3])
}

/// Whether another triangle runs through the directed edge number `e` in the other direction.
pub open spec fn runs_back(indices: Seq<u32>, e: int) -> bool {
    exists|o: int|
        0 <= o < indices.len() && #[trigger] directed_edge(indices, o) == (
            directed_edge(indices, e).1,
            directed_edge(indices, e).0,
        )
}

/// Whether every directed edge is run through in the other direction too: the surface is closed
/// and its triangles all wind the same way.
pub open spec fn is_closed(indices: Seq<u32>) -> bool {
    forall|e: int|
        #![trigger directed_edge(indices, e)]
        0 <= e < indices.len() ==> runs_back(indices, e)
}

/// A cube's surface is closed and winds one way.
pub proof fn law_cube_is_closed()
    ensures
        is_closed(cube_faces()),
{
    let f = cube_faces();
    let partner: Seq<int> = seq![34, 17, 3, 2, 24, 19, 30, 23, 9, 8, 28, 13, 31, 11, 15, 14, 25, 1, 35, 5, 21, 20, 29, 7, 4, 16, 27, 26, 10, 22, 6, 12, 33, 32, 0, 18];
    assert(directed_edge(f, 0) == (directed_edge(f, 34).1, directed_edge(f, 34).0));
    assert(directed_edge(f, 1) == (directed_edge(f, 17).1, directed_edge(f, 17).0));
    assert(directed_edge(f, 2) == (directed_edge(f, 3).1, directed_edge(f, 3).0));
    assert(directed_edge(f, 3) == (directed_edge(f, 2).1, directed_edge(f, 2).0));
    assert(directed_edge(f, 4) == (directed_edge(f, 24).1, directed_edge(f, 24).0));
    assert(directed_edge(f, 5) == (directed_edge(f, 19).1, directed_edge(f, 19).0));
    assert(directed_edge(f, 6) == (directed_edge(f, 30).1, directed_edge(f, 30).0));
    assert(directed_edge(f, 7) == (directed_edge(f, 23).1, directed_edge(f, 23).0));
    assert(directed_edge(f, 8) == (directed_edge(f, 9).1, directed_edge(f, 9).0));
    assert(directed_edge(f, 9) == (directed_edge(f, 8).1, directed_edge(f, 8).0));
    assert(directed_edge(f, 10) == (directed_edge(f, 28).1, directed_edge(f, 28).0));
    assert(directed_edge(f, 11) == (directed_edge(f, 13).1, directed_edge(f, 13).0));
    assert(directed_edge(f, 12) == (directed_edge(f, 31).1, directed_edge(f, 31).0));
    assert(directed_edge(f, 13) == (directed_edge(f, 11).1, directed_edge(f, 11).0));
    assert(directed_edge(f, 14) == (directed_edge(f, 15).1, directed_edge(f, 15).0));
    assert(directed_edge(f, 15) == (directed_edge(f, 14).1, directed_edge(f, 14).0));
    assert(directed_edge(f, 16) == (directed_edge(f, 25).1, directed_edge(f, 25).0));
    assert(directed_edge(f, 17) == (directed_edge(f, 1).1, directed_edge(f, 1).0));
    assert(directed_edge(f, 18) == (directed_edge(f, 35).1, directed_edge(f, 35).0));
    assert(directed_edge(f, 19) == (directed_edge(f, 5).1, directed_edge(f, 5).0));
    assert(directed_edge(f, 20) == (directed_edge(f, 21).1, directed_edge(f, 21).0));
    assert(directed_edge(f, 21) == (directed_edge(f, 20).1, directed_edge(f, 20).0));
    assert(directed_edge(f, 22) == (directed_edge(f, 29).1, directed_edge(f, 29).0));
    assert(directed_edge(f, 23) == (directed_edge(f, 7).1, directed_edge(f, 7).0));
    assert(directed_edge(f, 24) == (directed_edge(f, 4).1, directed_edge(f, 4).0));
    assert(directed_edge(f, 25) == (directed_edge(f, 16).1, directed_edge(f, 16).0));
    assert(directed_edge(f, 26) == (directed_edge(f, 27).1, directed_edge(f, 27).0));
    assert(directed_edge(f, 27) == (directed_edge(f, 26).1, directed_edge(f, 26).0));
    assert(directed_edge(f, 28) == (directed_edge(f, 10).1, directed_edge(f, 10).0));
    assert(directed_edge(f, 29) == (directed_edge(f, 22).1, directed_edge(f, 22).0));
    assert(directed_edge(f, 30) == (directed_edge(f, 6).1, directed_edge(f, 6).0));
    assert(directed_edge(f, 31) == (directed_edge(f, 12).1, directed_edge(f, 12).0));
    assert(directed_edge(f, 32) == (directed_edge(f, 33).1, directed_edge(f, 33).0));
    assert(directed_edge(f, 33) == (directed_edge(f, 32).1, directed_edge(f, 32).0));
    assert(directed_edge(f, 34) == (directed_edge(f, 0).1, directed_edge(f, 0).0));
    assert(directed_edge(f, 35) == (directed_edge(f, 18).1, directed_edge(f, 18).0));
    assert forall|e: int| #![trigger directed_edge(f, e)] 0 <= e < f.len() implies runs_back(f, e) by {
        assert(0 <= partner[e] < f.len());
        assert(directed_edge(f, partner[e]) == (directed_edge(f, e).1, directed_edge(f, e).0));
    }
}

/// A tetrahedron's surface is closed and winds one way.
pub proof fn law_tetrahedron_is_closed()
    ensures
        is_closed(tetrahedron_faces()),
{
    let f = tetrahedron_faces();
    let partner: Seq<int> = seq![5, 11, 6, 8, 9, 0, 2, 10, 3, 4, 7, 1];
    assert(directed_edge(f, 0) == (directed_edge(f, 5).1, directed_edge(f, 5).0));
    assert(directed_edge(f, 1) == (directed_edge(f, 11).1, directed_edge(f, 11).0));
    assert(directed_edge(f, 2) == (directed_edge(f, 6).1, directed_edge(f, 6).0));
    assert(directed_edge(f, 3) == (directed_edge(f, 8).1, directed_edge(f, 8).0));
    assert(directed_edge(f, 4) == (directed_edge(f, 9).1, directed_edge(f, 9).0));
    assert(directed_edge(f, 5) == (directed_edge(f, 0).1, directed_edge(f, 0).0));
    assert(directed_edge(f, 6) == (directed_edge(f, 2).1, directed_edge(f, 2).0));
    assert(directed_edge(f, 7) == (directed_edge(f, 10).1, directed_edge(f, 10).0));
    assert(directed_edge(f, 8) == (directed_edge(f, 3).1, directed_edge(f, 3).0));
    assert(directed_edge(f, 9) == (directed_edge(f, 4).1, directed_edge(f, 4).0));
    assert(directed_edge(f, 10) == (directed_edge(f, 7).1, directed_edge(f, 7).0));
    assert(directed_edge(f, 11) == (directed_edge(f, 1).1, directed_edge(f, 1).0));
    assert forall|e: int| #![trigger directed_edge(f, e)] 0 <= e < f.len() implies runs_back(f, e) by {
        assert(0 <= partner[e] < f.len());
        assert(directed_edge(f, partner[e]) == (directed_edge(f, e).1, directed_edge(f, e).0));
    }
}

/// The corners of a cube are all the points that lie at its half-extent from the middle on each axis,
/// on either side. The number of the corner on the given sides is returned.
pub proof fn law_cube_has_a_corner_on_every_side(h: Single, x: bool, y: bool, z: bool) -> (i: int)
    ensures
        0 <= i < 8,
        cube_corner(h, i).x == if x {
            h
        } else {
            negated(h)
        },
        cube_corner(h, i).y == if y {
            h
        } else {
            negated(h)
        },
        cube_corner(h, i).z == if z {
            h
        } else {
            negated(h)
        },
{
    let across: int = if y {
        if x {
            2
        } else {
            3
        }
    } else {
        if x {
            1
        } else {
            0
        }
    };
    if z {
        across + 4
    } else {
        across
    }
}

/// A primitive has the size asked for where that is above the smallest, and the smallest otherwise.
pub proof fn law_size_is_kept_unless_too_small(size: Single)
    ensures
        smallest().spec_lt(size) ==> at_least_smallest(size) == size,
        size.spec_le(smallest()) || size.is_nan() ==> at_least_smallest(size) == smallest(),
        !at_least_smallest(size).spec_lt(smallest()),
        Single::zero().spec_lt(at_least_smallest(size)),
{
}

} // verus!
