//! Mesh simplification by vertex clustering.
//!
//! Vertices are snapped onto a regular grid; all vertices in a cell become one, and the triangles
//! that collapse are dropped. The grid's resolution is the finest for which the triangles that are
//! left still fit the budget. What takes arithmetic on coordinates (the sizes of the cells, averages,
//! areas) is handed in; the rules that turn cells into triangles, and the search for the resolution,
//! are here.

use crate::geometry::{triangle_sum, Mesh, Scene, Vec3, Vertex};
use crate::single::Single;
use crate::text::copied;
use crate::weld::{
    cell_numbers, first_seen, law_cells_decide_the_numbers, law_one_cell_has_one_number,
    law_same_number_is_same_cell, weld, welds, CellKey, Weld,
};
use vstd::prelude::*;

verus! {

/// Whether a scene of `original` triangles is simplified at all: it has triangles, more of them
/// than wanted, and its longest side has a length to divide.
pub open spec fn wants_simplifying(original: nat, target: nat, longest: Option<Single>) -> bool {
    original > 0 && target < original && longest is Some && !longest->0.spec_le(Single::zero())
}

/// Whether a scene of `original` triangles is simplified at all.
pub fn needs_simplifying(original: usize, target: usize, longest: Option<Single>) -> (b: bool)
    ensures
        b == wants_simplifying(original as nat, target as nat, longest),
{
    if original == 0 || target >= original {
        return false;
    }
    match longest {
        None => false,
        Some(side) => !side.le(Single::zero()),
    }
}

/// The cell, among `cells`, in which a coordinate lies whose distance from the low end of the axis
/// is `steps` cells; an axis whose cells have no length has one cell.
pub open spec fn spec_axis_index(cell: Single, steps: i64, cells: i64) -> int {
    if cell.spec_le(Single::zero()) || steps < 0 {
        0
    } else if steps >= cells {
        cells - 1
    } else {
        steps as int
    }
}

/// The cell, among `cells`, in which a coordinate lies whose distance from the low end of the axis
/// is `steps` cells.
pub fn axis_index(cell: Single, steps: i64, cells: i64) -> (i: i64)
    requires
        cells >= 1,
    ensures
        i == spec_axis_index(cell, steps, cells),
        0 <= i < cells,
{
    if cell.le(Single::zero()) || steps < 0 {
        0
    } else if steps >= cells {
        cells - 1
    } else {
        steps
    }
}

/// Three vertices of a triangle, by number.
pub type Face = (u32, u32, u32);

/// What is left of the triangle `(a, b, c)` once its vertices were renumbered: nothing where it
/// names a vertex that is not there, or where two of its vertices have become one.
pub open spec fn surviving(remap: Seq<u32>, a: u32, b: u32, c: u32) -> Option<Face> {
    if a < remap.len() && b < remap.len() && c < remap.len() {
        let (x, y, z) = (remap[a as int], remap[b as int], remap[c as int]);
        if x != y && y != z && x != z {
            Some((x, y, z))
        } else {
            None
        }
    } else {
        None
    }
}

/// What is left of the first `n` triangles once their vertices were renumbered.
pub open spec fn survivors(indices: Seq<u32>, remap: Seq<u32>, n: nat) -> Seq<Face>
    decreases n,
{
    if n == 0 {
        Seq::empty()
    } else {
        let before = survivors(indices, remap, (n - 1) as nat);
        let k = 3 * (n - 1);
        match surviving(remap, indices[k], indices[k + 1], indices[k + 2]) {
            Some(f) => before.push(f),
            None => before,
        }
    }
}

/// Rebuilds the triangles over renumbered vertices, dropping those that collapse. Out-of-range
/// indices are skipped; a trailing partial triple is ignored.
pub fn collapse_faces(indices: &[u32], remap: &[u32]) -> (faces: Vec<Face>)
    ensures
        faces@ == survivors(indices@, remap@, indices@.len() / 3),
{
    let n: usize = indices.len() / 3;
    let mut faces: Vec<Face> = Vec::new();
    let mut t: usize = 0;
    while t < n
        invariant
            n == indices@.len() / 3,
            indices@.len() <= usize::MAX,
            t <= n,
            faces@ == survivors(indices@, remap@, t as nat),
        decreases n - t,
    {
        let a: usize = indices[3 * t] as usize;
        let b: usize = indices[3 * t + 1] as usize;
        let c: usize = indices[3 * t + 2] as usize;
        if a < remap.len() && b < remap.len() && c < remap.len() {
            let x: u32 = remap[a];
            let y: u32 = remap[b];
            let z: u32 = remap[c];
            if x != y && y != z && x != z {
                faces.push((x, y, z));
            }
        }
        t = t + 1;
    }
    faces
}

/// The indices of the faces that are not slivers, three each.
pub open spec fn kept(faces: Seq<Face>, slivers: Seq<bool>) -> Seq<u32>
    decreases faces.len(),
{
    if faces.len() == 0 {
        Seq::empty()
    } else {
        let before = kept(faces.drop_last(), slivers);
        let f = faces.last();
        if slivers[faces.len() - 1] {
            before
        } else {
            before.push(f.0).push(f.1).push(f.2)
        }
    }
}

/// Lists the indices of the faces that have an area, given which are slivers.
pub fn keep_faces(faces: &[Face], slivers: &[bool]) -> (indices: Vec<u32>)
    requires
        slivers@.len() == faces@.len(),
    ensures
        indices@ == kept(faces@, slivers@),
{
    let mut indices: Vec<u32> = Vec::new();
    let mut i: usize = 0;
    assert(faces@.take(0) =~= Seq::<Face>::empty());
    while i < faces.len()
        invariant
            slivers@.len() == faces@.len(),
            i <= faces.len(),
            indices@ == kept(faces@.take(i as int), slivers@),
        decreases faces.len() - i,
    {
        assert(faces@.take(i + 1).drop_last() =~= faces@.take(i as int));
        if !slivers[i] {
            let f = faces[i];
            indices.push(f.0);
            indices.push(f.1);
            indices.push(f.2);
        }
        i = i + 1;
    }
    assert(faces@.take(i as int) =~= faces@);
    indices
}

/// Whether every face has three different vertices among the first `count`.
pub open spec fn proper(faces: Seq<Face>, count: nat) -> bool {
    forall|i: int|
        0 <= i < faces.len() ==> {
            let f = #[trigger] faces[i];
            &&& f.0 != f.1 && f.1 != f.2 && f.0 != f.2
            &&& f.0 < count && f.1 < count && f.2 < count
        }
}

/// Clustering never adds a triangle, and every triangle that it leaves has three different
/// vertices, each of which is there.
pub proof fn law_clustering_only_drops_triangles(
    indices: Seq<u32>,
    keys: Seq<CellKey>,
    w: Weld,
    n: nat,
)
    requires
        welds(keys, w),
    ensures
        survivors(indices, w.remap@, n).len() <= n,
        proper(survivors(indices, w.remap@, n), w.firsts@.len()),
    decreases n,
{
    if n > 0 {
        law_clustering_only_drops_triangles(indices, keys, w, (n - 1) as nat);
        let k = 3 * (n - 1);
        let (a, b, c) = (indices[k], indices[k + 1], indices[k + 2]);
        let before = survivors(indices, w.remap@, (n - 1) as nat);
        let after = survivors(indices, w.remap@, n);
        assert forall|i: int| 0 <= i < after.len() implies {
            let f = #[trigger] after[i];
            &&& f.0 != f.1 && f.1 != f.2 && f.0 != f.2
            &&& f.0 < w.firsts@.len() && f.1 < w.firsts@.len() && f.2 < w.firsts@.len()
        } by {
            if i < before.len() {
                assert(after[i] == before[i]);
            } else {
                assert(w.remap@[a as int] < w.firsts@.len());
                assert(w.remap@[b as int] < w.firsts@.len());
                assert(w.remap@[c as int] < w.firsts@.len());
            }
        }
    }
}

/// The indices that are kept come in triples, never more than the faces, and each names a vertex.
pub proof fn law_kept_indices_name_vertices(faces: Seq<Face>, slivers: Seq<bool>, count: nat)
    requires
        slivers.len() >= faces.len(),
        proper(faces, count),
    ensures
        kept(faces, slivers).len() % 3 == 0,
        kept(faces, slivers).len() / 3 <= faces.len(),
        forall|i: int|
            0 <= i < kept(faces, slivers).len() ==> (#[trigger] kept(faces, slivers)[i]) < count,
    decreases faces.len(),
{
    if faces.len() > 0 {
        assert forall|i: int| 0 <= i < faces.drop_last().len() implies #[trigger] faces.drop_last()[i]
            == faces[i] by {}
        assert(proper(faces.drop_last(), count));
        law_kept_indices_name_vertices(faces.drop_last(), slivers, count);
        let f = faces[faces.len() - 1];
        assert(f.0 < count && f.1 < count && f.2 < count);
    }
}

/// On the coarsest grid, one cell for everything, no triangle is left: so some resolution always
/// fits the budget.
pub proof fn law_one_cell_leaves_no_triangle(
    indices: Seq<u32>,
    keys: Seq<CellKey>,
    w: Weld,
    n: nat,
)
    requires
        welds(keys, w),
        forall|a: int, b: int| 0 <= a < keys.len() && 0 <= b < keys.len() ==> keys[a] == keys[b],
    ensures
        survivors(indices, w.remap@, n).len() == 0,
{
    assert forall|i: int, j: int|
        0 <= i < w.remap@.len() && 0 <= j < w.remap@.len() implies #[trigger] w.remap@[i]
        == #[trigger] w.remap@[j] by {
        law_one_cell_has_one_number(keys, w, i);
        law_one_cell_has_one_number(keys, w, j);
    }
    lemma_one_number_leaves_nothing(indices, w.remap@, n);
}

/// The search for the finest grid whose triangles fit the budget.
#[derive(Clone, Copy, Debug, PartialEq, Eq, Structural)]
pub struct GridSearch {
    /// The budget in triangles.
    pub target: usize,
    /// The coarsest resolution that is still in question.
    pub lo: u32,
    /// The finest resolution that is still in question.
    pub hi: u32,
    /// The finest resolution so far that fits.
    pub best: Option<u32>,
}

impl GridSearch {
    /// Whether the resolutions in question are such that can be tried.
    pub open spec fn wf(self) -> bool {
        1 <= self.lo <= 4097 && self.hi <= 4096
    }

    /// The resolution to try next, or `None` where nothing is in question.
    pub open spec fn next(self) -> Option<u32> {
        if self.lo <= self.hi {
            Some((self.lo + (self.hi - self.lo) / 2) as u32)
        } else {
            None
        }
    }

    /// The search once `next` was tried and left so many triangles.
    pub open spec fn told(self, triangles: nat) -> GridSearch {
        let mid = self.next()->0;
        if triangles <= self.target {
            GridSearch { best: Some(mid), lo: (mid + 1) as u32, ..self }
        } else {
            GridSearch { hi: (mid - 1) as u32, ..self }
        }
    }

    /// What the search finds in the end, where a grid of resolution `r` leaves `counts(r)`
    /// triangles.
    pub open spec fn outcome(self, counts: spec_fn(u32) -> nat) -> Option<u32>
        decreases self.hi - self.lo + 1,
        when self.wf()
    {
        match self.next() {
            None => self.best,
            Some(mid) => self.told(counts(mid)).outcome(counts),
        }
    }

    /// The start of a search for at most `target` triangles, bounded by the estimate.
    pub open spec fn start(target: usize, estimate: u32) -> GridSearch {
        GridSearch {
            target,
            lo: 1,
            hi: if estimate < 4 {
                4
            } else if estimate > 4096 {
                4096
            } else {
                estimate
            },
            best: None,
        }
    }

    /// Starts a search for at most `target` triangles; `estimate` is the resolution at which about
    /// as many are expected to be left, and bounds the search.
    pub fn new(target: usize, estimate: u32) -> (s: GridSearch)
        ensures
            s.wf(),
            s == GridSearch::start(target, estimate),
    {
        let hi: u32 = if estimate < 4 {
            4
        } else if estimate > 4096 {
            4096
        } else {
            estimate
        };
        GridSearch { target, lo: 1, hi, best: None }
    }

    /// The resolution to try next, or `None` where the search is over.
    pub fn probe(&self) -> (r: Option<u32>)
        requires
            self.wf(),
        ensures
            r == self.next(),
            r is Some ==> 1 <= r->0 <= 4096,
    {
        if self.lo <= self.hi {
            Some(self.lo + (self.hi - self.lo) / 2)
        } else {
            None
        }
    }

    /// Takes in how many triangles the resolution to try has left.
    pub fn report(&mut self, triangles: usize)
        requires
            old(self).wf(),
            old(self).next() is Some,
        ensures
            final(self).wf(),
            *final(self) == old(self).told(triangles as nat),
            final(self).hi - final(self).lo < old(self).hi - old(self).lo,
            forall|counts: spec_fn(u32) -> nat|
                counts(old(self).next()->0) == triangles ==> #[trigger] final(self).outcome(counts)
                    == old(self).outcome(counts),
    {
        let mid: u32 = self.lo + (self.hi - self.lo) / 2;
        if triangles <= self.target {
            self.best = Some(mid);
            self.lo = mid + 1;
        } else {
            self.hi = mid - 1;
        }
    }

    /// The resolution that was found, or the coarsest where none was.
    pub fn resolution(&self) -> (r: u32)
        ensures
            r == (match self.best {
                Some(r) => r,
                None => 1,
            }),
    {
        match self.best {
            Some(r) => r,
            None => 1,
        }
    }
}

/// What the search settles on fits the budget, whatever the counts.
pub proof fn law_search_keeps_the_budget(s: GridSearch, counts: spec_fn(u32) -> nat)
    requires
        s.wf(),
        s.best is Some ==> counts(s.best->0) <= s.target,
    ensures
        s.outcome(counts) is Some ==> counts(s.outcome(counts)->0) <= s.target,
    decreases s.hi - s.lo + 1,
{
    match s.next() {
        None => {},
        Some(mid) => {
            law_search_keeps_the_budget(s.told(counts(mid)), counts);
        },
    }
}

/// Where finer grids never leave fewer triangles, the search finds the finest grid in question
/// that fits the budget, if any does.
pub proof fn law_search_finds_the_finest(s: GridSearch, counts: spec_fn(u32) -> nat, r: u32)
    requires
        s.wf(),
        forall|a: u32, b: u32| a <= b ==> #[trigger] counts(a) <= #[trigger] counts(b),
        s.lo <= r <= s.hi,
        counts(r) <= s.target,
    ensures
        s.outcome(counts) is Some,
        s.outcome(counts)->0 >= r,
    decreases s.hi - s.lo + 1,
{
    let mid = s.next()->0;
    let t = s.told(counts(mid));
    if counts(mid) <= s.target {
        if r > mid {
            law_search_finds_the_finest(t, counts, r);
        } else {
            lemma_outcome_is_at_least_best(t, counts);
        }
    } else {
        assert(r < mid) by {
            if mid <= r {
                assert(counts(mid) <= counts(r));
            }
        }
        law_search_finds_the_finest(t, counts, r);
    }
}

proof fn lemma_outcome_is_at_least_best(s: GridSearch, counts: spec_fn(u32) -> nat)
    requires
        s.wf(),
        s.best is Some,
        s.best->0 < s.lo,
    ensures
        s.outcome(counts) is Some,
        s.outcome(counts)->0 >= s.best->0,
    decreases s.hi - s.lo + 1,
{
    match s.next() {
        None => {},
        Some(mid) => {
            lemma_outcome_is_at_least_best(s.told(counts(mid)), counts);
        },
    }
}

/// A grid over one mesh, as far as it is computed from coordinates.
#[derive(Debug)]
pub struct Grid {
    /// The lengths of a cell's sides.
    pub cell: Vec3,
    /// The number of cells along each axis.
    pub cells: (i64, i64, i64),
    /// For each vertex, how many cells it lies from the low end of each axis.
    pub steps: Vec<(i64, i64, i64)>,
}

/// A grid over one mesh.
pub ghost struct GridView {
    /// The lengths of a cell's sides.
    pub cell: Vec3,
    /// The number of cells along each axis.
    pub cells: (i64, i64, i64),
    /// For each vertex, how many cells it lies from the low end of each axis.
    pub steps: Seq<(i64, i64, i64)>,
}

impl View for Grid {
    type V = GridView;

    open spec fn view(&self) -> GridView {
        GridView { cell: self.cell, cells: self.cells, steps: self.steps@ }
    }
}

/// The number of cells along an axis of a grid: at least one, and at most its resolution, which is that
/// of its longest axis.
pub open spec fn spec_axis_cells(cells: i64, resolution: u32) -> i64 {
    if cells < 1 {
        1
    } else if cells > resolution {
        resolution as i64
    } else {
        cells
    }
}

/// The number of cells along an axis of a grid.
fn axis_cells(cells: i64, resolution: u32) -> (n: i64)
    ensures
        n == spec_axis_cells(cells, resolution),
{
    if cells < 1 {
        1
    } else if cells > resolution as i64 {
        resolution as i64
    } else {
        cells
    }
}

impl GridView {
    /// The cell of each vertex, on a grid of that resolution.
    pub open spec fn keys(self, resolution: u32) -> Seq<CellKey> {
        let (nx, ny, nz) = (
            spec_axis_cells(self.cells.0, resolution),
            spec_axis_cells(self.cells.1, resolution),
            spec_axis_cells(self.cells.2, resolution),
        );
        Seq::new(
            self.steps.len(),
            |i: int|
                CellKey {
                    x: spec_axis_index(self.cell.x, self.steps[i].0, nx) as i64,
                    y: spec_axis_index(self.cell.y, self.steps[i].1, ny) as i64,
                    z: spec_axis_index(self.cell.z, self.steps[i].2, nz) as i64,
                },
        )
    }
}

impl Grid {
    /// The cell of each vertex, on a grid of that resolution.
    pub fn keys(&self, resolution: u32) -> (keys: Vec<CellKey>)
        requires
            resolution >= 1,
        ensures
            keys@ == self@.keys(resolution),
    {
        let nx: i64 = axis_cells(self.cells.0, resolution);
        let ny: i64 = axis_cells(self.cells.1, resolution);
        let nz: i64 = axis_cells(self.cells.2, resolution);
        let mut keys: Vec<CellKey> = Vec::with_capacity(self.steps.len());
        let mut i: usize = 0;
        while i < self.steps.len()
            invariant
                nx >= 1,
                ny >= 1,
                nz >= 1,
                nx == spec_axis_cells(self.cells.0, resolution),
                ny == spec_axis_cells(self.cells.1, resolution),
                nz == spec_axis_cells(self.cells.2, resolution),
                i <= self.steps@.len(),
                keys@ == self@.keys(resolution).take(i as int),
            decreases self.steps@.len() - i,
        {
            let (x, y, z) = self.steps[i];
            keys.push(
                CellKey {
                    x: axis_index(self.cell.x, x, nx),
                    y: axis_index(self.cell.y, y, ny),
                    z: axis_index(self.cell.z, z, nz),
                },
            );
            assert(keys@ =~= self@.keys(resolution).take(i + 1));
            i = i + 1;
        }
        assert(keys@ =~= self@.keys(resolution));
        keys
    }
}

/// What becomes of the vertices of one mesh once they were welded, as far as it is computed from
/// coordinates.
#[derive(Debug)]
pub struct Blend {
    /// For each cell, the average of its vertices.
    pub vertices: Vec<Vertex>,
    /// For each face, whether it has no area to speak of.
    pub slivers: Vec<bool>,
}

/// What becomes of the vertices of one mesh once they were welded.
pub ghost struct BlendView {
    /// For each cell, the average of its vertices.
    pub vertices: Seq<Vertex>,
    /// For each face, whether it has no area to speak of.
    pub slivers: Seq<bool>,
}

impl View for Blend {
    type V = BlendView;

    open spec fn view(&self) -> BlendView {
        BlendView { vertices: self.vertices@, slivers: self.slivers@ }
    }
}

/// What a mesh consists of.
pub ghost struct Shape {
    /// The vertices.
    pub vertices: Seq<Vertex>,
    /// The indices of the triangles.
    pub indices: Seq<u32>,
}

/// What the mesh consists of.
pub open spec fn shape_of(m: Mesh) -> Shape {
    Shape { vertices: m.vertices@, indices: m.indices@ }
}

/// What the meshes consist of.
pub open spec fn shapes_of(meshes: Seq<Mesh>) -> Seq<Shape> {
    meshes.map_values(|m: Mesh| shape_of(m))
}

/// How many triangles the shapes have together.
pub open spec fn shape_sum(shapes: Seq<Shape>) -> nat
    decreases shapes.len(),
{
    if shapes.len() == 0 {
        0
    } else {
        shape_sum(shapes.drop_last()) + shapes.last().indices.len() / 3
    }
}

/// The arithmetic on coordinates that clustering rests on, as functions: the grid over each mesh at a
/// resolution, and what becomes of the vertices of each mesh, given the number of each vertex's cell,
/// how many cells there are, and the faces.
pub ghost struct Arithmetic {
    /// The grid over each mesh at a resolution.
    pub grid: spec_fn(int, u32) -> GridView,
    /// What becomes of the vertices of each mesh.
    pub blend: spec_fn(int, Seq<u32>, nat, Seq<Face>) -> BlendView,
}

impl Arithmetic {
    /// The mesh number `i` clustered at a resolution.
    pub open spec fn clustered(self, m: Mesh, i: int, resolution: u32) -> Shape {
        let keys = (self.grid)(i, resolution).keys(resolution);
        let remap = cell_numbers(keys);
        let faces = survivors(m.indices@, remap, m.indices@.len() / 3);
        let blend = (self.blend)(i, remap, first_seen(keys).len(), faces);
        Shape { vertices: blend.vertices, indices: kept(faces, blend.slivers) }
    }

    /// The meshes clustered at a resolution.
    pub open spec fn all_clustered(self, meshes: Seq<Mesh>, resolution: u32) -> Seq<Shape> {
        Seq::new(meshes.len(), |i: int| self.clustered(meshes[i], i, resolution))
    }

    /// How many triangles each resolution leaves of the meshes.
    pub open spec fn counts(self, meshes: Seq<Mesh>) -> spec_fn(u32) -> nat {
        |r: u32| shape_sum(self.all_clustered(meshes, r))
    }

    /// The meshes simplified to at most `target` triangles: as they are where nothing is to be done,
    /// else clustered at the resolution that the search finds.
    pub open spec fn simplified(
        self,
        meshes: Seq<Mesh>,
        target: usize,
        longest: Option<Single>,
        estimate: u32,
    ) -> Seq<Shape> {
        if wants_simplifying(triangle_sum(meshes), target as nat, longest) {
            let found = GridSearch::start(target, estimate).outcome(self.counts(meshes));
            self.all_clustered(
                meshes,
                match found {
                    Some(r) => r,
                    None => 1,
                },
            )
        } else {
            shapes_of(meshes)
        }
    }
}

/// Whether `grid` can be called for every mesh at every resolution, and gives each vertex a place.
pub open spec fn lays_grids<G: Fn(usize, u32) -> Grid>(meshes: Seq<Mesh>, grid: G) -> bool {
    &&& forall|i: usize, r: u32|
        i < meshes.len() && 1 <= r <= 4096 ==> #[trigger] call_requires(grid, (i, r))
    &&& forall|i: usize, r: u32, g: Grid|
        i < meshes.len() && #[trigger] call_ensures(grid, (i, r), g) ==> g@.steps.len()
            == meshes[i as int].vertices@.len()
}

/// Whether every number is one of the first `n`.
pub open spec fn numbered(numbers: Seq<u32>, n: nat) -> bool {
    forall|i: int| 0 <= i < numbers.len() ==> (#[trigger] numbers[i]) < n
}

/// Whether `blend` can be called for every mesh once it was welded, and gives each cell a vertex and
/// each face an answer.
pub open spec fn blends_cells<B: Fn(usize, &[u32], usize, &[Face]) -> Blend>(
    meshes: Seq<Mesh>,
    blend: B,
) -> bool {
    &&& forall|i: usize, w: &[u32], n: usize, f: &[Face]|
        i < meshes.len() && w@.len() == meshes[i as int].vertices@.len() && numbered(w@, n as nat)
            && proper(f@, n as nat) ==> #[trigger] call_requires(blend, (i, w, n, f))
    &&& forall|i: usize, w: &[u32], n: usize, f: &[Face], b: Blend|
        i < meshes.len() && #[trigger] call_ensures(blend, (i, w, n, f), b) ==> b.vertices@.len()
            == n && b.slivers@.len() == f@.len()
}

/// Whether `grid` and `blend` compute what `a` says.
pub open spec fn computes<G: Fn(usize, u32) -> Grid, B: Fn(usize, &[u32], usize, &[Face]) -> Blend>(
    grid: G,
    blend: B,
    a: Arithmetic,
) -> bool {
    &&& forall|i: usize, r: u32, g: Grid| #[trigger]
        call_ensures(grid, (i, r), g) ==> g@ == (a.grid)(i as int, r)
    &&& forall|i: usize, w: &[u32], n: usize, f: &[Face], b: Blend| #[trigger]
        call_ensures(blend, (i, w, n, f), b) ==> b@ == (a.blend)(i as int, w@, n as nat, f@)
}

/// Clusters mesh number `i` at a resolution: welds the vertices that share a cell, then rebuilds the
/// triangles.
fn cluster_mesh<G: Fn(usize, u32) -> Grid, B: Fn(usize, &[u32], usize, &[Face]) -> Blend>(
    meshes: &[Mesh],
    i: usize,
    resolution: u32,
    grid: &G,
    blend: &B,
) -> (m: Mesh)
    requires
        i < meshes@.len(),
        1 <= resolution <= 4096,
        meshes@[i as int].vertices@.len() <= u32::MAX,
        lays_grids(meshes@, *grid),
        blends_cells(meshes@, *blend),
    ensures
        m.wf(),
        m.triangles() <= meshes@[i as int].triangles(),
        resolution == 1 ==> m.triangles() == 0,
        forall|a: Arithmetic| #[trigger]
            computes(*grid, *blend, a) ==> shape_of(m) == a.clustered(
                meshes@[i as int],
                i as int,
                resolution,
            ),
{
    let laid = grid(i, resolution);
    let keys = laid.keys(resolution);
    let w = weld(keys.as_slice());
    let faces = collapse_faces(meshes[i].indices.as_slice(), w.remap.as_slice());
    proof {
        law_clustering_only_drops_triangles(
            meshes@[i as int].indices@,
            keys@,
            w,
            meshes@[i as int].indices@.len() / 3,
        );
        law_cells_decide_the_numbers(keys@, w);
        if resolution == 1 {
            lemma_one_cell(laid@);
            lemma_one_number_leaves_nothing(
                meshes@[i as int].indices@,
                w.remap@,
                meshes@[i as int].indices@.len() / 3,
            );
        }
    }
    let blended = blend(i, w.remap.as_slice(), w.firsts.len(), faces.as_slice());
    let indices = keep_faces(faces.as_slice(), blended.slivers.as_slice());
    proof {
        law_kept_indices_name_vertices(faces@, blended.slivers@, w.firsts@.len());
    }
    Mesh::new(blended.vertices, indices)
}

/// Shapes have as many triangles together as the meshes they are of.
proof fn lemma_shape_sum(meshes: Seq<Mesh>)
    ensures
        shape_sum(shapes_of(meshes)) == triangle_sum(meshes),
    decreases meshes.len(),
{
    if meshes.len() > 0 {
        lemma_shape_sum(meshes.drop_last());
        assert(shapes_of(meshes).drop_last() =~= shapes_of(meshes.drop_last()));
    }
}

/// Meshes that have no more triangles one by one have no more together.
proof fn lemma_sum_is_bounded(a: Seq<Mesh>, b: Seq<Mesh>)
    requires
        a.len() <= b.len(),
        forall|i: int| 0 <= i < a.len() ==> (#[trigger] a[i]).triangles() <= b[i].triangles(),
    ensures
        triangle_sum(a) <= triangle_sum(b),
    decreases b.len(),
{
    if a.len() == b.len() {
        if a.len() > 0 {
            assert forall|i: int| 0 <= i < a.drop_last().len() implies (#[trigger]
            a.drop_last()[i]).triangles() <= b.drop_last()[i].triangles() by {
                assert(a.drop_last()[i] == a[i]);
            }
            lemma_sum_is_bounded(a.drop_last(), b.drop_last());
            assert(a[a.len() - 1].triangles() <= b[a.len() - 1].triangles());
        }
    } else {
        lemma_sum_is_bounded(a, b.drop_last());
    }
}

/// Meshes without triangles have none together.
proof fn lemma_no_triangles_sum_to_none(meshes: Seq<Mesh>)
    requires
        forall|i: int| 0 <= i < meshes.len() ==> (#[trigger] meshes[i]).triangles() == 0,
    ensures
        triangle_sum(meshes) == 0,
    decreases meshes.len(),
{
    if meshes.len() > 0 {
        assert forall|i: int| 0 <= i < meshes.drop_last().len() implies (#[trigger]
        meshes.drop_last()[i]).triangles() == 0 by {
            assert(meshes.drop_last()[i] == meshes[i]);
        }
        lemma_no_triangles_sum_to_none(meshes.drop_last());
        assert(meshes[meshes.len() - 1].triangles() == 0);
    }
}

/// Clusters every mesh at a resolution.
fn cluster_meshes<G: Fn(usize, u32) -> Grid, B: Fn(usize, &[u32], usize, &[Face]) -> Blend>(
    meshes: &[Mesh],
    resolution: u32,
    grid: &G,
    blend: &B,
) -> (out: Vec<Mesh>)
    requires
        1 <= resolution <= 4096,
        forall|i: int|
            0 <= i < meshes@.len() ==> (#[trigger] meshes@[i]).vertices@.len() <= u32::MAX,
        lays_grids(meshes@, *grid),
        blends_cells(meshes@, *blend),
    ensures
        out@.len() == meshes@.len(),
        forall|i: int| 0 <= i < out@.len() ==> (#[trigger] out@[i]).wf(),
        triangle_sum(out@) <= triangle_sum(meshes@),
        resolution == 1 ==> triangle_sum(out@) == 0,
        forall|a: Arithmetic| #[trigger]
            computes(*grid, *blend, a) ==> shapes_of(out@) == a.all_clustered(meshes@, resolution),
{
    let mut out: Vec<Mesh> = Vec::with_capacity(meshes.len());
    let mut i: usize = 0;
    while i < meshes.len()
        invariant
            1 <= resolution <= 4096,
            forall|k: int|
                0 <= k < meshes@.len() ==> (#[trigger] meshes@[k]).vertices@.len() <= u32::MAX,
            lays_grids(meshes@, *grid),
            blends_cells(meshes@, *blend),
            i <= meshes@.len(),
            out@.len() == i,
            forall|k: int|
                0 <= k < i ==> (#[trigger] out@[k]).wf() && out@[k].triangles()
                    <= meshes@[k].triangles() && (resolution == 1 ==> out@[k].triangles() == 0),
            forall|a: Arithmetic, k: int|
                #![trigger computes(*grid, *blend, a), out@[k]]
                computes(*grid, *blend, a) && 0 <= k < i ==> shape_of(out@[k]) == a.clustered(
                    meshes@[k],
                    k,
                    resolution,
                ),
        decreases meshes@.len() - i,
    {
        out.push(cluster_mesh(meshes, i, resolution, grid, blend));
        i = i + 1;
    }
    proof {
        lemma_sum_is_bounded(out@, meshes@);
        if resolution == 1 {
            lemma_no_triangles_sum_to_none(out@);
        }
        assert forall|a: Arithmetic| #[trigger] computes(*grid, *blend, a) implies shapes_of(out@)
            == a.all_clustered(meshes@, resolution) by {
            assert forall|k: int| 0 <= k < out@.len() implies #[trigger] shapes_of(out@)[k]
                == a.all_clustered(meshes@, resolution)[k] by {
                assert(shape_of(out@[k]) == a.clustered(meshes@[k], k, resolution));
            }
            assert(shapes_of(out@) =~= a.all_clustered(meshes@, resolution));
        }
    }
    out
}

/// A copy of the meshes.
fn copied_meshes(meshes: &[Mesh]) -> (out: Vec<Mesh>)
    ensures
        shapes_of(out@) == shapes_of(meshes@),
{
    let mut out: Vec<Mesh> = Vec::with_capacity(meshes.len());
    let mut i: usize = 0;
    while i < meshes.len()
        invariant
            i <= meshes@.len(),
            out@.len() == i,
            forall|k: int| 0 <= k < i ==> shape_of(#[trigger] out@[k]) == shape_of(meshes@[k]),
        decreases meshes@.len() - i,
    {
        let m = &meshes[i];
        out.push(Mesh::new(copied(m.vertices.as_slice()), copied(m.indices.as_slice())));
        i = i + 1;
    }
    assert(shapes_of(out@) =~= shapes_of(meshes@));
    out
}

/// Whether `out` is `scene` simplified to at most `target` triangles, by the arithmetic `a`.
pub open spec fn simplifies_to(
    scene: Scene,
    target: usize,
    longest: Option<Single>,
    estimate: u32,
    a: Arithmetic,
    out: Scene,
) -> bool {
    &&& out.name@ == scene.name@
    &&& shapes_of(out.meshes@) == a.simplified(scene.meshes@, target, longest, estimate)
}

/// Simplifies `scene` to at most `target_tris` triangles using vertex clustering.
///
/// Returns a new scene. If the scene is empty, has degenerate (zero-size) bounds, or already has at
/// most `target_tris` triangles, the scene is returned unchanged (a copy). `longest` is the longest
/// side of the scene's bounding box, and `estimate` the resolution at which about as many triangles
/// are expected to be left. `grid` lays a grid of a resolution over a mesh, given by its number, and
/// `blend` averages the vertices of each of its cells and finds the slivers among its faces: it gets
/// the mesh's number, the number of each vertex's cell, how many cells there are, and the faces.
pub fn simplify_scene<G: Fn(usize, u32) -> Grid, B: Fn(usize, &[u32], usize, &[Face]) -> Blend>(
    scene: &Scene,
    target_tris: usize,
    longest: Option<Single>,
    estimate: u32,
    grid: G,
    blend: B,
) -> (out: Scene)
    requires
        triangle_sum(scene.meshes@) <= usize::MAX,
        forall|i: int|
            0 <= i < scene.meshes@.len() ==> (#[trigger] scene.meshes@[i]).vertices@.len()
                <= u32::MAX,
        lays_grids(scene.meshes@, grid),
        blends_cells(scene.meshes@, blend),
    ensures
        out.name@ == scene.name@,
        out.meshes@.len() == scene.meshes@.len(),
        triangle_sum(out.meshes@) <= triangle_sum(scene.meshes@),
        longest is Some && !longest->0.spec_le(Single::zero()) ==> triangle_sum(out.meshes@)
            <= target_tris,
        if wants_simplifying(triangle_sum(scene.meshes@), target_tris as nat, longest) {
            forall|i: int| 0 <= i < out.meshes@.len() ==> (#[trigger] out.meshes@[i]).wf()
        } else {
            shapes_of(out.meshes@) == shapes_of(scene.meshes@)
        },
        forall|a: Arithmetic| #[trigger]
            computes(grid, blend, a) ==> simplifies_to(
                *scene,
                target_tris,
                longest,
                estimate,
                a,
                out,
            ),
{
    let name = scene.name.clone();
    let meshes = scene.meshes.as_slice();
    if !needs_simplifying(scene.triangle_count(), target_tris, longest) {
        let same = copied_meshes(meshes);
        proof {
            assert(shapes_of(same@).len() == same@.len());
            lemma_shape_sum(same@);
            lemma_shape_sum(meshes@);
        }
        return Scene::new(name, same);
    }
    let mut search = GridSearch::new(target_tris, estimate);
    let ghost start = search;
    let mut best: Option<Vec<Mesh>> = None;
    loop
        invariant
            meshes@ == scene.meshes@,
            triangle_sum(meshes@) <= usize::MAX,
            forall|i: int|
                0 <= i < meshes@.len() ==> (#[trigger] meshes@[i]).vertices@.len() <= u32::MAX,
            lays_grids(meshes@, grid),
            blends_cells(meshes@, blend),
            search.wf(),
            search.target == target_tris,
            best is Some <==> search.best is Some,
            best is Some ==> {
                &&& best->0@.len() == meshes@.len()
                &&& triangle_sum(best->0@) <= triangle_sum(meshes@)
                &&& triangle_sum(best->0@) <= target_tris
                &&& forall|i: int| 0 <= i < best->0@.len() ==> (#[trigger] best->0@[i]).wf()
            },
            forall|a: Arithmetic| #[trigger]
                computes(grid, blend, a) ==> {
                    &&& search.outcome(a.counts(meshes@)) == start.outcome(a.counts(meshes@))
                    &&& best is Some ==> shapes_of(best->0@) == a.all_clustered(
                        meshes@,
                        search.best->0,
                    )
                },
        ensures
            search.next() is None,
        decreases search.hi - search.lo + 1,
    {
        let resolution: u32 = match search.probe() {
            Some(resolution) => resolution,
            None => {
                break;
            },
        };
        let ghost before = search;
        let candidate = Scene::new(String::new(), cluster_meshes(meshes, resolution, &grid, &blend));
        let left: usize = candidate.triangle_count();
        proof {
            lemma_shape_sum(candidate.meshes@);
        }
        search.report(left);
        proof {
            assert forall|a: Arithmetic| #[trigger] computes(grid, blend, a) implies search.outcome(
                a.counts(meshes@),
            ) == start.outcome(a.counts(meshes@)) by {
                let counts = a.counts(meshes@);
                assert(counts(before.next()->0) == left);
            }
        }
        if left <= target_tris {
            best = Some(candidate.meshes);
        }
    }
    let found = match best {
        Some(found) => found,
        None => cluster_meshes(meshes, search.resolution(), &grid, &blend),
    };
    assert(forall|a: Arithmetic| #[trigger]
        computes(grid, blend, a) ==> search.outcome(a.counts(meshes@)) == search.best);
    proof {
        assert(shapes_of(found@).len() == found@.len());
    }
    Scene::new(name, found)
}

/// The simplified scene of a scene that has an extent never has more triangles than wanted. It has the name of the scene and as many meshes, and a scene that has
/// no more triangles than wanted stays as it is.
pub proof fn law_simplifying_keeps_the_budget(
    scene: Scene,
    target: usize,
    longest: Single,
    estimate: u32,
    a: Arithmetic,
    out: Scene,
)
    requires
        !longest.spec_le(Single::zero()),
        simplifies_to(scene, target, Some(longest), estimate, a, out),
    ensures
        triangle_sum(out.meshes@) <= target,
        out.name@ == scene.name@,
        out.meshes@.len() == scene.meshes@.len(),
        triangle_sum(scene.meshes@) <= target ==> shapes_of(out.meshes@) == shapes_of(
            scene.meshes@,
        ),
{
    let meshes = scene.meshes@;
    lemma_shape_sum(meshes);
    lemma_shape_sum(out.meshes@);
    assert(shapes_of(meshes).len() == meshes.len());
    assert(shapes_of(out.meshes@).len() == out.meshes@.len());
    law_search_keeps_the_budget(GridSearch::start(target, estimate), a.counts(meshes));
    assert forall|i: int| 0 <= i < meshes.len() implies #[trigger] a.all_clustered(
        meshes,
        1,
    )[i].indices.len() == 0 by {
        let g = (a.grid)(i, 1u32);
        lemma_one_cell(g);
        lemma_one_number_leaves_nothing(
            meshes[i].indices@,
            cell_numbers(g.keys(1)),
            meshes[i].indices@.len() / 3,
        );
    }
    lemma_nothing_sums_to_nothing(a.all_clustered(meshes, 1));
}

/// The arithmetic decides the simplified scene: simplifying twice gives the same scene.
pub proof fn law_simplifying_is_deterministic(
    scene: Scene,
    target: usize,
    longest: Option<Single>,
    estimate: u32,
    a: Arithmetic,
    first: Scene,
    second: Scene,
)
    requires
        simplifies_to(scene, target, longest, estimate, a, first),
        simplifies_to(scene, target, longest, estimate, a, second),
    ensures
        first.name@ == second.name@,
        first.meshes@.len() == second.meshes@.len(),
        forall|i: int|
            0 <= i < first.meshes@.len() ==> (#[trigger] first.meshes@[i]).vertices@
                == second.meshes@[i].vertices@ && first.meshes@[i].indices@
                == second.meshes@[i].indices@,
{
    assert(shapes_of(first.meshes@).len() == first.meshes@.len());
    assert(shapes_of(second.meshes@).len() == second.meshes@.len());
    assert forall|i: int| 0 <= i < first.meshes@.len() implies (#[trigger]
    first.meshes@[i]).vertices@ == second.meshes@[i].vertices@ && first.meshes@[i].indices@
        == second.meshes@[i].indices@ by {
        assert(shapes_of(first.meshes@)[i] == shapes_of(second.meshes@)[i]);
    }
}

/// On a grid of resolution one, every vertex lies in the same cell and has the same number.
proof fn lemma_one_cell(g: GridView)
    ensures
        forall|i: int, j: int|
            0 <= i < g.steps.len() && 0 <= j < g.steps.len() ==> #[trigger] cell_numbers(
                g.keys(1),
            )[i] == #[trigger] cell_numbers(g.keys(1))[j],
{
    assert forall|i: int, j: int|
        0 <= i < g.steps.len() && 0 <= j < g.steps.len() implies #[trigger] cell_numbers(
        g.keys(1),
    )[i] == #[trigger] cell_numbers(g.keys(1))[j] by {
        assert(g.keys(1)[i] == g.keys(1)[j]);
    }
}

/// Where every vertex has the same number, every triangle collapses.
proof fn lemma_one_number_leaves_nothing(indices: Seq<u32>, remap: Seq<u32>, n: nat)
    requires
        forall|i: int, j: int|
            0 <= i < remap.len() && 0 <= j < remap.len() ==> #[trigger] remap[i]
                == #[trigger] remap[j],
    ensures
        survivors(indices, remap, n).len() == 0,
    decreases n,
{
    if n > 0 {
        lemma_one_number_leaves_nothing(indices, remap, (n - 1) as nat);
    }
}

/// Shapes without triangles have none together.
proof fn lemma_nothing_sums_to_nothing(shapes: Seq<Shape>)
    requires
        forall|i: int| 0 <= i < shapes.len() ==> (#[trigger] shapes[i]).indices.len() == 0,
    ensures
        shape_sum(shapes) == 0,
    decreases shapes.len(),
{
    if shapes.len() > 0 {
        assert forall|i: int| 0 <= i < shapes.drop_last().len() implies (#[trigger]
        shapes.drop_last()[i]).indices.len() == 0 by {
            assert(shapes.drop_last()[i] == shapes[i]);
        }
        lemma_nothing_sums_to_nothing(shapes.drop_last());
        assert(shapes[shapes.len() - 1].indices.len() == 0);
    }
}

/// Each part of a vertex's cell lies on its own axis: where an axis has cells of some length, no more
/// of them than the resolution, and the vertex lies within them, that part is the number of cells
/// from the low end of that axis.
pub proof fn law_cells_follow_each_axis(g: GridView, resolution: u32, i: int)
    requires
        0 <= i < g.steps.len(),
    ensures
        g.keys(resolution).len() == g.steps.len(),
        Single::zero().spec_lt(g.cell.x) && 0 <= g.steps[i].0 < g.cells.0 <= resolution
            ==> g.keys(resolution)[i].x == g.steps[i].0,
        Single::zero().spec_lt(g.cell.y) && 0 <= g.steps[i].1 < g.cells.1 <= resolution
            ==> g.keys(resolution)[i].y == g.steps[i].1,
        Single::zero().spec_lt(g.cell.z) && 0 <= g.steps[i].2 < g.cells.2 <= resolution
            ==> g.keys(resolution)[i].z == g.steps[i].2,
{
}

/// Two vertices that lie in different cells of an axis, whichever it is, are never merged: their keys
/// differ, and so do the numbers of their cells.
pub proof fn law_vertices_apart_stay_apart(g: GridView, resolution: u32, w: Weld, i: int, j: int)
    requires
        welds(g.keys(resolution), w),
        0 <= i < g.steps.len(),
        0 <= j < g.steps.len(),
        ({
            ||| Single::zero().spec_lt(g.cell.x) && 0 <= g.steps[i].0 < g.cells.0 <= resolution && 0
                <= g.steps[j].0 < g.cells.0 && g.steps[i].0 != g.steps[j].0
            ||| Single::zero().spec_lt(g.cell.y) && 0 <= g.steps[i].1 < g.cells.1 <= resolution && 0
                <= g.steps[j].1 < g.cells.1 && g.steps[i].1 != g.steps[j].1
            ||| Single::zero().spec_lt(g.cell.z) && 0 <= g.steps[i].2 < g.cells.2 <= resolution && 0
                <= g.steps[j].2 < g.cells.2 && g.steps[i].2 != g.steps[j].2
        }),
    ensures
        g.keys(resolution)[i] != g.keys(resolution)[j],
        w.remap@[i] != w.remap@[j],
{
    law_cells_follow_each_axis(g, resolution, i);
    law_cells_follow_each_axis(g, resolution, j);
    law_same_number_is_same_cell(g.keys(resolution), w, i, j);
}

/// Two vertices that lie in the same cell of every axis are merged.
pub proof fn law_vertices_together_are_merged(g: GridView, resolution: u32, w: Weld, i: int, j: int)
    requires
        welds(g.keys(resolution), w),
        0 <= i < g.steps.len(),
        0 <= j < g.steps.len(),
        g.steps[i] == g.steps[j],
    ensures
        w.remap@[i] == w.remap@[j],
{
    law_same_number_is_same_cell(g.keys(resolution), w, i, j);
}

/// Which triangles are left: exactly those whose three corners are vertices with three different
/// numbers, each as its corners' numbers in the order of the corners, and in the order of the
/// triangles.
pub proof fn law_triangles_keep_their_corners(indices: Seq<u32>, remap: Seq<u32>, n: nat)
    requires
        3 * n <= indices.len(),
    ensures
        ({
            let faces = survivors(indices, remap, n);
            &&& forall|t: int|
                #![trigger indices[3 * t]]
                0 <= t < n && indices[3 * t] < remap.len() && indices[3 * t + 1] < remap.len()
                    && indices[3 * t + 2] < remap.len() && remap[indices[3 * t] as int]
                    != remap[indices[3 * t + 1] as int] && remap[indices[3 * t + 1] as int]
                    != remap[indices[3 * t + 2] as int] && remap[indices[3 * t] as int]
                    != remap[indices[3 * t + 2] as int] ==> faces.contains(
                    (
                        remap[indices[3 * t] as int],
                        remap[indices[3 * t + 1] as int],
                        remap[indices[3 * t + 2] as int],
                    ),
                )
            &&& exists|places: Seq<int>|
                {
                    &&& places.len() == faces.len()
                    &&& forall|a: int, b: int|
                        0 <= a < b < places.len() ==> #[trigger] places[a] < #[trigger] places[b]
                    &&& forall|k: int|
                        #![trigger places[k]]
                        0 <= k < places.len() ==> {
                            let t = places[k];
                            &&& 0 <= t < n
                            &&& indices[3 * t] < remap.len() && faces[k].0
                                == remap[indices[3 * t] as int]
                            &&& indices[3 * t + 1] < remap.len() && faces[k].1
                                == remap[indices[3 * t + 1] as int]
                            &&& indices[3 * t + 2] < remap.len() && faces[k].2
                                == remap[indices[3 * t + 2] as int]
                        }
                }
        }),
    decreases n,
{
    let faces = survivors(indices, remap, n);
    if n == 0 {
        let places = Seq::<int>::empty();
        assert(places.len() == faces.len());
    } else {
        let m = (n - 1) as nat;
        law_triangles_keep_their_corners(indices, remap, m);
        let before = survivors(indices, remap, m);
        let earlier = choose|places: Seq<int>|
            {
                &&& places.len() == before.len()
                &&& forall|a: int, b: int|
                    0 <= a < b < places.len() ==> #[trigger] places[a] < #[trigger] places[b]
                &&& forall|k: int|
                    #![trigger places[k]]
                    0 <= k < places.len() ==> {
                        let t = places[k];
                        &&& 0 <= t < m
                        &&& indices[3 * t] < remap.len() && before[k].0
                            == remap[indices[3 * t] as int]
                        &&& indices[3 * t + 1] < remap.len() && before[k].1
                            == remap[indices[3 * t + 1] as int]
                        &&& indices[3 * t + 2] < remap.len() && before[k].2
                            == remap[indices[3 * t + 2] as int]
                    }
            };
        let places = if faces.len() > before.len() {
            earlier.push(m as int)
        } else {
            earlier
        };
        assert forall|k: int|
            #![trigger places[k]]
            0 <= k < places.len() implies {
            let t = places[k];
            &&& 0 <= t < n
            &&& indices[3 * t] < remap.len() && faces[k].0 == remap[indices[3 * t] as int]
            &&& indices[3 * t + 1] < remap.len() && faces[k].1
                == remap[indices[3 * t + 1] as int]
            &&& indices[3 * t + 2] < remap.len() && faces[k].2
                == remap[indices[3 * t + 2] as int]
        } by {
            if k < before.len() {
                assert(places[k] == earlier[k]);
                assert(faces[k] == before[k]);
            }
        }
        assert forall|a: int, b: int| 0 <= a < b < places.len() implies #[trigger] places[a]
            < #[trigger] places[b] by {
            assert(places[a] == earlier[a]);
            if b < before.len() {
                assert(places[b] == earlier[b]);
            }
        }
        assert forall|t: int|
            #![trigger indices[3 * t]]
            0 <= t < n && indices[3 * t] < remap.len() && indices[3 * t + 1] < remap.len()
                && indices[3 * t + 2] < remap.len() && remap[indices[3 * t] as int]
                != remap[indices[3 * t + 1] as int] && remap[indices[3 * t + 1] as int]
                != remap[indices[3 * t + 2] as int] && remap[indices[3 * t] as int]
                != remap[indices[3 * t + 2] as int] implies faces.contains(
            (
                remap[indices[3 * t] as int],
                remap[indices[3 * t + 1] as int],
                remap[indices[3 * t + 2] as int],
            ),
        ) by {
            let f = (
                remap[indices[3 * t] as int],
                remap[indices[3 * t + 1] as int],
                remap[indices[3 * t + 2] as int],
            );
            if t < m {
                assert(before.contains(f));
                let k = choose|k: int| 0 <= k < before.len() && before[k] == f;
                assert(faces[k] == f);
            } else {
                assert(faces.last() == f);
            }
        }
        assert(places.len() == faces.len());
    }
}

/// Cells keep the order of the vertices on each axis, from the first cell on to at most as many as the
/// axis has and the resolution allows; a vertex before the low end is in the first, and all are in one
/// cell of an axis whose cells have no length.
pub proof fn law_cells_keep_the_order(g: GridView, resolution: u32, i: int, j: int)
    requires
        resolution >= 1,
        0 <= i < g.steps.len(),
        0 <= j < g.steps.len(),
    ensures
        ({
            let (a, b) = (g.keys(resolution)[i], g.keys(resolution)[j]);
            &&& g.steps[i].0 <= g.steps[j].0 ==> a.x <= b.x
            &&& g.steps[i].1 <= g.steps[j].1 ==> a.y <= b.y
            &&& g.steps[i].2 <= g.steps[j].2 ==> a.z <= b.z
            &&& 0 <= a.x < resolution && 0 <= a.y < resolution && 0 <= a.z < resolution
            &&& a.x == 0 || a.x < g.cells.0
            &&& a.y == 0 || a.y < g.cells.1
            &&& a.z == 0 || a.z < g.cells.2
            &&& g.steps[i].0 <= 0 || g.cell.x.spec_le(Single::zero()) ==> a.x == 0
            &&& g.steps[i].1 <= 0 || g.cell.y.spec_le(Single::zero()) ==> a.y == 0
            &&& g.steps[i].2 <= 0 || g.cell.z.spec_le(Single::zero()) ==> a.z == 0
        }),
{
}

/// The faces that are kept are those that are no slivers, each with its three vertices in their
/// order. Which face each kept one is is returned.
pub proof fn law_slivers_are_dropped(faces: Seq<Face>, slivers: Seq<bool>) -> (places: Seq<int>)
    requires
        slivers.len() >= faces.len(),
    ensures
        kept(faces, slivers).len() == 3 * places.len(),
        forall|a: int, b: int|
            0 <= a < b < places.len() ==> #[trigger] places[a] < #[trigger] places[b],
        forall|f: int|
            0 <= f < faces.len() ==> (places.contains(f) <==> !#[trigger] slivers[f]),
        forall|k: int|
            #![trigger places[k]]
            0 <= k < places.len() ==> {
                &&& 0 <= places[k] < faces.len()
                &&& kept(faces, slivers)[3 * k] == faces[places[k]].0
                &&& kept(faces, slivers)[3 * k + 1] == faces[places[k]].1
                &&& kept(faces, slivers)[3 * k + 2] == faces[places[k]].2
            },
    decreases faces.len(),
{
    if faces.len() == 0 {
        Seq::empty()
    } else {
        let n = faces.len() - 1;
        let rest = faces.drop_last();
        let earlier = law_slivers_are_dropped(rest, slivers);
        let before = kept(rest, slivers);
        let all = kept(faces, slivers);
        let places = if slivers[n] {
            earlier
        } else {
            earlier.push(n)
        };
        assert forall|f: int| 0 <= f < faces.len() implies (places.contains(f)
            <==> !#[trigger] slivers[f]) by {
            if !slivers[n] {
                assert(places[earlier.len() as int] == n);
            }
            if f < n {
                if earlier.contains(f) {
                    let k = choose|k: int| 0 <= k < earlier.len() && earlier[k] == f;
                    assert(places[k] == f);
                }
                if places.contains(f) {
                    let k = choose|k: int| 0 <= k < places.len() && places[k] == f;
                    assert(earlier[k] == f);
                }
            } else if slivers[n] && places.contains(f) {
                let k = choose|k: int| 0 <= k < earlier.len() && earlier[k] == f;
                assert(0 <= earlier[k] < rest.len());
            }
        }
        assert forall|k: int| #![trigger places[k]] 0 <= k < places.len() implies {
            &&& 0 <= places[k] < faces.len()
            &&& all[3 * k] == faces[places[k]].0
            &&& all[3 * k + 1] == faces[places[k]].1
            &&& all[3 * k + 2] == faces[places[k]].2
        } by {
            if k < earlier.len() {
                assert(places[k] == earlier[k]);
                assert(faces[places[k]] == rest[earlier[k]]);
                assert(all[3 * k] == before[3 * k]);
                assert(all[3 * k + 1] == before[3 * k + 1]);
                assert(all[3 * k + 2] == before[3 * k + 2]);
            }
        }
        assert forall|a: int, b: int| 0 <= a < b < places.len() implies #[trigger] places[a]
            < #[trigger] places[b] by {
            assert(places[a] == earlier[a]);
            assert(0 <= earlier[a] < rest.len());
            if b < earlier.len() {
                assert(places[b] == earlier[b]);
            }
        }
        places
    }
}

/// Whether triangle `q` of a simplified mesh is what is left of triangle `t` of the mesh it was: each
/// corner is the cell of that corner, and the cells of its corners are three.
pub open spec fn descends(m: Mesh, keys: Seq<CellKey>, s: Shape, q: int, t: int) -> bool {
    &&& forall|c: int|
        #![trigger s.indices[3 * q + c]]
        0 <= c < 3 ==> m.indices@[3 * t + c] < keys.len() && s.indices[3 * q + c] == cell_numbers(
            keys,
        )[m.indices@[3 * t + c] as int]
    &&& s.indices[3 * q] != s.indices[3 * q + 1]
    &&& s.indices[3 * q + 1] != s.indices[3 * q + 2]
    &&& s.indices[3 * q] != s.indices[3 * q + 2]
}

/// Every triangle of a simplified scene is left over from a triangle of the same mesh, with its
/// corners in their order, each moved to the vertex that its cell has become. The resolution of the
/// grid and the triangle are returned.
pub proof fn law_triangles_descend_from_their_mesh(
    scene: Scene,
    target: usize,
    longest: Option<Single>,
    estimate: u32,
    a: Arithmetic,
    out: Scene,
    m: int,
    q: int,
) -> (from: (u32, int))
    requires
        wants_simplifying(triangle_sum(scene.meshes@), target as nat, longest),
        simplifies_to(scene, target, longest, estimate, a, out),
        0 <= m < out.meshes@.len(),
        0 <= q < out.meshes@[m].triangles(),
        forall|i: int, w: Seq<u32>, n: nat, f: Seq<Face>| #[trigger]
            (a.blend)(i, w, n, f).slivers.len() == f.len(),
    ensures
        out.meshes@.len() == scene.meshes@.len(),
        0 <= from.1 < scene.meshes@[m].triangles(),
        descends(
            scene.meshes@[m],
            (a.grid)(m, from.0).keys(from.0),
            shape_of(out.meshes@[m]),
            q,
            from.1,
        ),
{
    let meshes = scene.meshes@;
    let r = match GridSearch::start(target, estimate).outcome(a.counts(meshes)) {
        Some(r) => r,
        None => 1,
    };
    let all = a.all_clustered(meshes, r);
    assert(shapes_of(out.meshes@).len() == all.len());
    let s = shapes_of(out.meshes@)[m];
    assert(s == a.clustered(meshes[m], m, r));
    let keys = (a.grid)(m, r).keys(r);
    let remap = cell_numbers(keys);
    let indices = meshes[m].indices@;
    let n = indices.len() / 3;
    let faces = survivors(indices, remap, n);
    let blend = (a.blend)(m, remap, first_seen(keys).len(), faces);
    let places = law_slivers_are_dropped(faces, blend.slivers);
    let f = places[q];
    let t = lemma_survivor_comes_from(indices, remap, n, f);
    assert(s.indices[3 * q] == faces[f].0);
    assert(s.indices[3 * q + 1] == faces[f].1);
    assert(s.indices[3 * q + 2] == faces[f].2);
    assert forall|c: int| #![trigger s.indices[3 * q + c]] 0 <= c < 3 implies indices[3 * t + c]
        < keys.len() && s.indices[3 * q + c] == remap[indices[3 * t + c] as int] by {
        assert(c == 0 || c == 1 || c == 2);
    }
    (r, t)
}

proof fn lemma_survivor_comes_from(indices: Seq<u32>, remap: Seq<u32>, n: nat, f: int) -> (t: int)
    requires
        3 * n <= indices.len(),
        0 <= f < survivors(indices, remap, n).len(),
    ensures
        0 <= t < n,
        surviving(remap, indices[3 * t], indices[3 * t + 1], indices[3 * t + 2]) == Some(
            survivors(indices, remap, n)[f],
        ),
    decreases n,
{
    let before = survivors(indices, remap, (n - 1) as nat);
    if f < before.len() {
        lemma_survivor_comes_from(indices, remap, (n - 1) as nat, f)
    } else {
        n - 1
    }
}

} // verus!
