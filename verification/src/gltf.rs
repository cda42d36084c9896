//! Assembling a scene out of a glTF 2.0 document.
//!
//! A document's nodes, primitives and animation channels come in as plain data. Here the node
//! hierarchy is flattened, primitives are checked and turned into meshes, and channels are matched
//! to the nodes they drive. Only triangle primitives become geometry; morph targets are left out,
//! and skinning is detected but not applied.

use crate::anim::{
    AnimChannel, AnimatedScene, AnimationInfo, ChannelSamples, Interpolation, MeshInstance,
    NodeTransform, Quat, SceneAnimation, SceneNode,
};
use crate::error::Error;
use crate::geometry::{
    all_points, box_of, triangle_sum, vertex_sum, BoundingBox, BoundingSphere, Mesh, Scene, Vec3,
    Vertex,
};
use crate::single::Single;
use crate::text::{copied, decimal, push_decimal};
use std::collections::{HashMap, HashSet};
use vstd::prelude::*;
use vstd::string::*;

verus! {

broadcast use vstd::std_specs::hash::group_hash_axioms;

/// One primitive of a mesh, as its document has it.
#[derive(Clone, Debug)]
pub struct PrimitiveData {
    /// Whether its vertices form separate triangles (not points, lines, strips or fans).
    pub triangles: bool,
    /// The vertex positions, if it has any attribute for them.
    pub positions: Option<Vec<Vec3>>,
    /// The vertex normals, if it has any attribute for them.
    pub normals: Option<Vec<Vec3>>,
    /// The indices, if it is indexed.
    pub indices: Option<Vec<u32>>,
    /// The base color RGBA factor of its material.
    pub base_color: [Single; 4],
}

/// One node of a document.
#[derive(Clone, Debug)]
pub struct NodeData {
    /// The node's name, if it has one.
    pub name: Option<String>,
    /// The node's transform relative to its parent.
    pub local: NodeTransform,
    /// The node's children, by their place in the document.
    pub children: Vec<usize>,
    /// The primitives of the node's mesh, if it has one.
    pub primitives: Vec<PrimitiveData>,
}

/// One step of the walk over a document's nodes: which node is entered, under which earlier step.
#[derive(Clone, Copy, Debug, PartialEq, Eq, Structural)]
pub struct Visit {
    /// The node's place in the document.
    pub source: usize,
    /// The step at which its parent was entered, or `None` for a root.
    pub parent: Option<usize>,
}

/// Whether every node below `node` is there, and no path down from it is longer than `depth`.
pub open spec fn shallow(nodes: Seq<NodeData>, node: int, depth: nat) -> bool
    decreases depth,
{
    &&& depth > 0
    &&& 0 <= node < nodes.len()
    &&& forall|i: int|
        0 <= i < nodes[node].children@.len() ==> shallow(
            nodes,
            #[trigger] nodes[node].children@[i] as int,
            (depth - 1) as nat,
        )
}

/// Finds the nodes from which no path down is longer than the number of nodes, round after round:
/// those of round `k` are the ones whose children are all among those of round `k - 1`.
fn shallow_nodes(nodes: &[NodeData]) -> (known: Vec<bool>)
    ensures
        known@.len() == nodes@.len(),
        forall|i: int| 0 <= i < nodes@.len() ==> #[trigger] known@[i] == shallow(nodes@, i, nodes@.len()),
{
    let n: usize = nodes.len();
    let mut known: Vec<bool> = Vec::new();
    while known.len() < n
        invariant
            n == nodes@.len(),
            known@.len() <= n,
            forall|i: int| 0 <= i < known@.len() ==> #[trigger] known@[i] == shallow(nodes@, i, 0),
        decreases n - known@.len(),
    {
        known.push(false);
    }
    let mut round: usize = 0;
    while round < n
        invariant
            n == nodes@.len(),
            round <= n,
            known@.len() == n,
            forall|i: int|
                0 <= i < n ==> #[trigger] known@[i] == shallow(nodes@, i, round as nat),
        decreases n - round,
    {
        let next = next_round(nodes, &known, Ghost(round as nat));
        let same: bool = same_flags(&known, &next);
        if same {
            proof {
                assert forall|i: int| 0 <= i < n implies #[trigger] shallow(nodes@, i, round as nat)
                    == shallow(nodes@, i, (round + 1) as nat) by {
                    assert(known@[i] == next@[i]);
                }
                assert forall|i: int| 0 <= i < n implies #[trigger] known@[i] == shallow(
                    nodes@,
                    i,
                    n as nat,
                ) by {
                    lemma_settled(nodes@, round as nat, n as nat, i);
                }
            }
            return known;
        }
        known = next;
        round = round + 1;
    }
    known
}

/// The nodes whose children are all among the known ones.
fn next_round(nodes: &[NodeData], known: &Vec<bool>, Ghost(round): Ghost<nat>) -> (next: Vec<bool>)
    requires
        known@.len() == nodes@.len(),
        forall|i: int|
            0 <= i < nodes@.len() ==> #[trigger] known@[i] == shallow(nodes@, i, round),
    ensures
        next@.len() == nodes@.len(),
        forall|i: int|
            0 <= i < nodes@.len() ==> #[trigger] next@[i] == shallow(nodes@, i, round + 1),
{
    let mut next: Vec<bool> = Vec::new();
    while next.len() < nodes.len()
        invariant
            known@.len() == nodes@.len(),
            next@.len() <= nodes@.len(),
            forall|i: int|
                0 <= i < nodes@.len() ==> #[trigger] known@[i] == shallow(nodes@, i, round),
            forall|i: int|
                0 <= i < next@.len() ==> #[trigger] next@[i] == shallow(nodes@, i, round + 1),
        decreases nodes@.len() - next@.len(),
    {
        let at: usize = next.len();
        let ghost children = nodes@[at as int].children@;
        let mut all: bool = true;
        let mut c: usize = 0;
        while c < nodes[at].children.len()
            invariant
                at < nodes@.len(),
                known@.len() == nodes@.len(),
                children == nodes@[at as int].children@,
                c <= children.len(),
                forall|i: int|
                    0 <= i < nodes@.len() ==> #[trigger] known@[i] == shallow(nodes@, i, round),
                all == (forall|k: int|
                    0 <= k < c ==> shallow(nodes@, #[trigger] children[k] as int, round)),
            decreases children.len() - c,
        {
            let child: usize = nodes[at].children[c];
            assert(child == children[c as int]);
            if child >= nodes.len() || !known[child] {
                assert(!shallow(nodes@, children[c as int] as int, round));
                all = false;
            }
            c = c + 1;
        }
        assert(shallow(nodes@, at as int, round + 1) == all);
        next.push(all);
    }
    next
}

/// Whether two lists hold the same flags.
fn same_flags(a: &Vec<bool>, b: &Vec<bool>) -> (same: bool)
    requires
        a@.len() == b@.len(),
    ensures
        same == (a@ =~= b@),
{
    let mut i: usize = 0;
    while i < a.len()
        invariant
            i <= a@.len(),
            a@.len() == b@.len(),
            forall|k: int| 0 <= k < i ==> a@[k] == b@[k],
        decreases a@.len() - i,
    {
        if a[i] != b[i] {
            return false;
        }
        i = i + 1;
    }
    true
}

/// Where one more step of depth changes nothing, no further one does.
proof fn lemma_settled(nodes: Seq<NodeData>, round: nat, depth: nat, node: int)
    requires
        round <= depth,
        forall|i: int|
            0 <= i < nodes.len() ==> #[trigger] shallow(nodes, i, round) == shallow(
                nodes,
                i,
                round + 1,
            ),
        0 <= node < nodes.len(),
    ensures
        shallow(nodes, node, depth) == shallow(nodes, node, round),
    decreases depth,
{
    if depth > round {
        let children = nodes[node].children@;
        assert forall|k: int| 0 <= k < children.len() implies shallow(
            nodes,
            #[trigger] children[k] as int,
            (depth - 1) as nat,
        ) == shallow(nodes, children[k] as int, round) by {
            if children[k] < nodes.len() {
                lemma_settled(nodes, round, (depth - 1) as nat, children[k] as int);
            }
        }
        assert(shallow(nodes, node, depth) == shallow(nodes, node, round + 1));
    }
}

/// Whether the nodes below the roots are all there and none is below itself, so that they can be
/// walked over.
pub fn is_forest(nodes: &[NodeData], roots: &[usize]) -> (b: bool)
    ensures
        b == (forall|i: int|
            0 <= i < roots@.len() ==> shallow(nodes@, #[trigger] roots@[i] as int, nodes@.len())),
{
    let known = shallow_nodes(nodes);
    let mut i: usize = 0;
    while i < roots.len()
        invariant
            i <= roots@.len(),
            known@.len() == nodes@.len(),
            forall|k: int|
                0 <= k < nodes@.len() ==> #[trigger] known@[k] == shallow(nodes@, k, nodes@.len()),
            forall|k: int|
                0 <= k < i ==> shallow(nodes@, #[trigger] roots@[k] as int, nodes@.len()),
        decreases roots@.len() - i,
    {
        if roots[i] >= nodes.len() || !known[roots[i]] {
            assert(!shallow(nodes@, roots@[i as int] as int, nodes@.len()));
            return false;
        }
        i = i + 1;
    }
    true
}

/// The walk over `node` and everything below it, depth first, parents before their children, where
/// the first step has the number `base`.
pub open spec fn walk(
    nodes: Seq<NodeData>,
    node: usize,
    parent: Option<usize>,
    base: nat,
    depth: nat,
) -> Seq<Visit>
    decreases depth, 0nat,
{
    if depth == 0 {
        Seq::empty()
    } else {
        seq![Visit { source: node, parent }] + walk_all(
            nodes,
            nodes[node as int].children@,
            Some(base as usize),
            base + 1,
            (depth - 1) as nat,
        )
    }
}

/// The walks over several nodes with the same parent, one after the other.
pub open spec fn walk_all(
    nodes: Seq<NodeData>,
    list: Seq<usize>,
    parent: Option<usize>,
    base: nat,
    depth: nat,
) -> Seq<Visit>
    decreases depth, list.len() + 1,
{
    if list.len() == 0 {
        Seq::empty()
    } else {
        let before = walk_all(nodes, list.drop_last(), parent, base, depth);
        before + walk(nodes, list.last(), parent, base + before.len(), depth)
    }
}

/// Walks over `node` and everything below it, adding the steps to `out`.
fn visit(nodes: &[NodeData], node: usize, parent: Option<usize>, depth: usize, out: &mut Vec<Visit>)
    requires
        shallow(nodes@, node as int, depth as nat),
    ensures
        final(out)@ == old(out)@ + walk(nodes@, node, parent, old(out)@.len(), depth as nat),
    decreases depth,
{
    let ghost before = out@;
    let step: usize = out.len();
    out.push(Visit { source: node, parent });
    let ghost children = nodes@[node as int].children@;
    let ghost entered = out@;
    assert(out.len() == step + 1);
    let mut i: usize = 0;
    assert(children.take(0) =~= Seq::<usize>::empty());
    assert(out@ =~= entered + walk_all(
        nodes@,
        children.take(0),
        Some(step),
        (step + 1) as nat,
        (depth - 1) as nat,
    ));
    while i < nodes[node].children.len()
        invariant
            node < nodes@.len(),
            depth > 0,
            step < usize::MAX,
            children == nodes@[node as int].children@,
            i <= children.len(),
            entered.len() == step + 1,
            forall|k: int|
                0 <= k < children.len() ==> shallow(
                    nodes@,
                    #[trigger] children[k] as int,
                    (depth - 1) as nat,
                ),
            out@ == entered + walk_all(
                nodes@,
                children.take(i as int),
                Some(step),
                (step + 1) as nat,
                (depth - 1) as nat,
            ),
        decreases children.len() - i,
    {
        let child: usize = nodes[node].children[i];
        assert(shallow(nodes@, children[i as int] as int, (depth - 1) as nat));
        let ghost so_far = out@;
        visit(nodes, child, Some(step), depth - 1, out);
        assert(children.take(i + 1).drop_last() =~= children.take(i as int));
        assert(out@ =~= entered + walk_all(
            nodes@,
            children.take(i + 1),
            Some(step),
            (step + 1) as nat,
            (depth - 1) as nat,
        ));
        i = i + 1;
    }
    assert(children.take(i as int) =~= children);
    assert(out@ =~= before + walk(nodes@, node, parent, before.len(), depth as nat));
}

/// Walks over the scene's root nodes and everything below them.
pub fn flatten(nodes: &[NodeData], roots: &[usize]) -> (visits: Vec<Visit>)
    requires
        forall|i: int|
            0 <= i < roots@.len() ==> shallow(nodes@, #[trigger] roots@[i] as int, nodes@.len()),
    ensures
        visits@ == walk_all(nodes@, roots@, None, 0, nodes@.len()),
        preordered(visits@),
        visits_known_nodes(nodes@, visits@),
{
    let mut visits: Vec<Visit> = Vec::new();
    let mut i: usize = 0;
    assert(roots@.take(0) =~= Seq::<usize>::empty());
    while i < roots.len()
        invariant
            forall|k: int|
                0 <= k < roots@.len() ==> shallow(nodes@, #[trigger] roots@[k] as int, nodes@.len()),
            i <= roots@.len(),
            visits@ == walk_all(nodes@, roots@.take(i as int), None, 0, nodes@.len()),
        decreases roots@.len() - i,
    {
        assert(shallow(nodes@, roots@[i as int] as int, nodes@.len()));
        visit(nodes, roots[i], None, nodes.len(), &mut visits);
        assert(roots@.take(i + 1).drop_last() =~= roots@.take(i as int));
        i = i + 1;
    }
    assert(roots@.take(i as int) =~= roots@);
    assert(visits.len() == visits@.len());
    proof {
        law_parents_come_first(nodes@, roots@, nodes@.len());
        lemma_walk_all_sources(nodes@, roots@, None, 0, nodes@.len());
    }
    visits
}

/// Whether every step is over a node that is there.
pub open spec fn visits_known_nodes(nodes: Seq<NodeData>, visits: Seq<Visit>) -> bool {
    forall|k: int| 0 <= k < visits.len() ==> (#[trigger] visits[k]).source < nodes.len()
}

proof fn lemma_walk_sources(
    nodes: Seq<NodeData>,
    node: usize,
    parent: Option<usize>,
    base: nat,
    depth: nat,
)
    requires
        shallow(nodes, node as int, depth),
    ensures
        visits_known_nodes(nodes, walk(nodes, node, parent, base, depth)),
    decreases depth, 0nat,
{
    let children = nodes[node as int].children@;
    let below = walk_all(nodes, children, Some(base as usize), base + 1, (depth - 1) as nat);
    let all = walk(nodes, node, parent, base, depth);
    lemma_walk_all_sources(nodes, children, Some(base as usize), base + 1, (depth - 1) as nat);
    assert forall|k: int| 0 <= k < all.len() implies (#[trigger] all[k]).source < nodes.len() by {
        if k > 0 {
            assert(all[k] == below[k - 1]);
        }
    }
}

proof fn lemma_walk_all_sources(
    nodes: Seq<NodeData>,
    list: Seq<usize>,
    parent: Option<usize>,
    base: nat,
    depth: nat,
)
    requires
        forall|i: int| 0 <= i < list.len() ==> shallow(nodes, #[trigger] list[i] as int, depth),
    ensures
        visits_known_nodes(nodes, walk_all(nodes, list, parent, base, depth)),
    decreases depth, list.len() + 1,
{
    if list.len() > 0 {
        let before = walk_all(nodes, list.drop_last(), parent, base, depth);
        let last = walk(nodes, list.last(), parent, base + before.len(), depth);
        let all = walk_all(nodes, list, parent, base, depth);
        assert forall|i: int| 0 <= i < list.drop_last().len() implies shallow(
            nodes,
            #[trigger] list.drop_last()[i] as int,
            depth,
        ) by {
            assert(list.drop_last()[i] == list[i]);
        }
        lemma_walk_all_sources(nodes, list.drop_last(), parent, base, depth);
        assert(shallow(nodes, list[list.len() - 1] as int, depth));
        lemma_walk_sources(nodes, list.last(), parent, base + before.len(), depth);
        assert forall|k: int| 0 <= k < all.len() implies (#[trigger] all[k]).source < nodes.len() by {
            if k < before.len() {
                assert(all[k] == before[k]);
            } else {
                assert(all[k] == last[k - before.len()]);
            }
        }
    }
}

/// Whether every step's parent is an earlier step.
pub open spec fn preordered(visits: Seq<Visit>) -> bool {
    forall|k: int|
        #![trigger visits[k]]
        0 <= k < visits.len() ==> (visits[k].parent is Some ==> visits[k].parent->0 < k)
}

/// In a flattened hierarchy every parent comes before its children, so world transforms compose in
/// a single ascending pass.
pub proof fn law_parents_come_first(nodes: Seq<NodeData>, roots: Seq<usize>, depth: nat)
    requires
        walk_all(nodes, roots, None, 0, depth).len() <= usize::MAX,
    ensures
        preordered(walk_all(nodes, roots, None, 0, depth)),
{
    lemma_walk_all_parents(nodes, roots, None, 0, depth);
    let visits = walk_all(nodes, roots, None, 0, depth);
    assert forall|k: int|
        #![trigger visits[k]]
        0 <= k < visits.len() && visits[k].parent is Some implies visits[k].parent->0 < k by {
        assert(parent_is_earlier(visits, None, 0, k));
    }
}

/// Whether step `k` of a walk that begins with the number `base` has the given parent or an earlier
/// step of the walk.
spec fn parent_is_earlier(visits: Seq<Visit>, parent: Option<usize>, base: nat, k: int) -> bool {
    visits[k].parent == parent || (visits[k].parent is Some && base <= visits[k].parent->0 < base
        + k)
}

proof fn lemma_walk_parents(
    nodes: Seq<NodeData>,
    node: usize,
    parent: Option<usize>,
    base: nat,
    depth: nat,
)
    requires
        base + walk(nodes, node, parent, base, depth).len() <= usize::MAX,
    ensures
        forall|k: int|
            0 <= k < walk(nodes, node, parent, base, depth).len() ==> #[trigger] parent_is_earlier(
                walk(nodes, node, parent, base, depth),
                parent,
                base,
                k,
            ),
    decreases depth, 0nat,
{
    if depth > 0 {
        let below = walk_all(
            nodes,
            nodes[node as int].children@,
            Some(base as usize),
            base + 1,
            (depth - 1) as nat,
        );
        let all = walk(nodes, node, parent, base, depth);
        lemma_walk_all_parents(
            nodes,
            nodes[node as int].children@,
            Some(base as usize),
            base + 1,
            (depth - 1) as nat,
        );
        assert forall|k: int| 0 <= k < all.len() implies #[trigger] parent_is_earlier(
            all,
            parent,
            base,
            k,
        ) by {
            if k > 0 {
                assert(all[k] == below[k - 1]);
                assert(parent_is_earlier(below, Some(base as usize), base + 1, k - 1));
            }
        }
    }
}

proof fn lemma_walk_all_parents(
    nodes: Seq<NodeData>,
    list: Seq<usize>,
    parent: Option<usize>,
    base: nat,
    depth: nat,
)
    requires
        base + walk_all(nodes, list, parent, base, depth).len() <= usize::MAX,
    ensures
        forall|k: int|
            0 <= k < walk_all(nodes, list, parent, base, depth).len()
                ==> #[trigger] parent_is_earlier(
                walk_all(nodes, list, parent, base, depth),
                parent,
                base,
                k,
            ),
    decreases depth, list.len() + 1,
{
    if list.len() > 0 {
        let before = walk_all(nodes, list.drop_last(), parent, base, depth);
        let last = walk(nodes, list.last(), parent, base + before.len(), depth);
        let all = walk_all(nodes, list, parent, base, depth);
        lemma_walk_all_parents(nodes, list.drop_last(), parent, base, depth);
        lemma_walk_parents(nodes, list.last(), parent, base + before.len(), depth);
        assert forall|k: int| 0 <= k < all.len() implies #[trigger] parent_is_earlier(
            all,
            parent,
            base,
            k,
        ) by {
            if k < before.len() {
                assert(all[k] == before[k]);
                assert(parent_is_earlier(before, parent, base, k));
            } else {
                assert(all[k] == last[k - before.len()]);
                assert(parent_is_earlier(last, parent, base + before.len(), k - before.len()));
            }
        }
    }
}

/// The steps among the first `n` that have that parent, in order.
pub open spec fn children_of(visits: Seq<Visit>, parent: Option<usize>, n: nat) -> Seq<usize>
    decreases n,
{
    if n == 0 {
        Seq::empty()
    } else {
        let before = children_of(visits, parent, (n - 1) as nat);
        if visits[n - 1].parent == parent {
            before.push((n - 1) as usize)
        } else {
            before
        }
    }
}

/// Whether `n` is the node of that step, with the children that it has among the first `count`
/// steps.
pub open spec fn is_node_of(
    nodes: Seq<NodeData>,
    visits: Seq<Visit>,
    k: int,
    count: nat,
    n: SceneNode,
) -> bool {
    let data = nodes[visits[k].source as int];
    &&& n.local == data.local
    &&& n.parent == visits[k].parent
    &&& n.name is Some <==> data.name is Some
    &&& n.name is Some ==> n.name->0@ == data.name->0@
    &&& n.children@ == children_of(visits, Some(k as usize), count)
}

/// The node hierarchy of a scene, and its roots.
#[derive(Clone, Debug)]
pub struct Hierarchy {
    /// The nodes, parents before their children.
    pub nodes: Vec<SceneNode>,
    /// The nodes without a parent.
    pub roots: Vec<usize>,
}

/// Builds the node hierarchy out of the walk over a document's nodes.
pub fn build_hierarchy(nodes: &[NodeData], visits: &[Visit]) -> (h: Hierarchy)
    requires
        preordered(visits@),
        visits_known_nodes(nodes@, visits@),
    ensures
        h.nodes@.len() == visits@.len(),
        h.roots@ == children_of(visits@, None, visits@.len()),
        forall|k: int|
            #![trigger h.nodes@[k]]
            0 <= k < visits@.len() ==> is_node_of(
                nodes@,
                visits@,
                k,
                visits@.len(),
                h.nodes@[k],
            ),
{
    let mut list: Vec<SceneNode> = Vec::new();
    let mut roots: Vec<usize> = Vec::new();
    let mut i: usize = 0;
    while i < visits.len()
        invariant
            preordered(visits@),
            forall|k: int|
                0 <= k < visits@.len() ==> (#[trigger] visits@[k]).source < nodes@.len(),
            i <= visits@.len(),
            list@.len() == i,
            roots@ == children_of(visits@, None, i as nat),
            forall|k: int|
                #![trigger list@[k]]
                0 <= k < i ==> is_node_of(nodes@, visits@, k, i as nat, list@[k]),
        decreases visits@.len() - i,
    {
        let v = visits[i];
        assert(visits@[i as int].source < nodes@.len());
        let ghost before = list@;
        let data = &nodes[v.source];
        match v.parent {
            Some(p) => {
                list[p].children.push(i);
            },
            None => {
                roots.push(i);
            },
        }
        assert(list@.len() == i);
        assert forall|k: int| #![trigger list@[k]] 0 <= k < i implies is_node_of(
            nodes@,
            visits@,
            k,
            (i + 1) as nat,
            list@[k],
        ) by {
            assert(is_node_of(nodes@, visits@, k, i as nat, before[k]));
        }
        let name = match &data.name {
            Some(n) => Some(n.clone()),
            None => None,
        };
        proof {
            lemma_no_children_yet(visits@, i as nat, (i + 1) as nat);
        }
        let ghost linked = list@;
        list.push(SceneNode { name, local: data.local, parent: v.parent, children: Vec::new() });
        assert forall|k: int| #![trigger list@[k]] 0 <= k < i + 1 implies is_node_of(
            nodes@,
            visits@,
            k,
            (i + 1) as nat,
            list@[k],
        ) by {
            if k < i {
                assert(list@[k] == linked[k]);
            } else {
                assert(list@[k].children@ =~= children_of(visits@, Some(i), (i + 1) as nat));
            }
        }
        i = i + 1;
    }
    Hierarchy { nodes: list, roots }
}

/// No step up to and including `k` is a child of step `k`.
proof fn lemma_no_children_yet(visits: Seq<Visit>, k: nat, n: nat)
    requires
        preordered(visits),
        k < visits.len() <= usize::MAX,
        n <= k + 1,
    ensures
        children_of(visits, Some(k as usize), n).len() == 0,
    decreases n,
{
    if n > 0 {
        lemma_no_children_yet(visits, k, (n - 1) as nat);
        assert(visits[n - 1].parent is Some ==> visits[n - 1].parent->0 < n - 1);
    }
}

/// The first index that names no vertex, or the number of indices.
pub open spec fn first_bad(indices: Seq<u32>, vertices: nat) -> nat
    decreases indices.len(),
{
    if indices.len() == 0 || indices[0] >= vertices {
        0
    } else {
        1 + first_bad(indices.drop_first(), vertices)
    }
}

proof fn lemma_first_bad(indices: Seq<u32>, vertices: nat, n: nat)
    requires
        n <= indices.len(),
        forall|i: int| 0 <= i < n ==> (#[trigger] indices[i]) < vertices,
        n < indices.len() ==> indices[n as int] >= vertices,
    ensures
        first_bad(indices, vertices) == n,
    decreases n,
{
    if n > 0 {
        let rest = indices.drop_first();
        assert forall|i: int| 0 <= i < n - 1 implies (#[trigger] rest[i]) < vertices by {
            assert(rest[i] == indices[i + 1]);
        }
        lemma_first_bad(rest, vertices, (n - 1) as nat);
    }
}

proof fn lemma_first_bad_bound(indices: Seq<u32>, vertices: nat)
    ensures
        first_bad(indices, vertices) <= indices.len(),
    decreases indices.len(),
{
    if indices.len() > 0 {
        lemma_first_bad_bound(indices.drop_first(), vertices);
    }
}

/// The vertices of a primitive: a position each, and its normal or zero where there is none.
pub open spec fn vertices_of(positions: Seq<Vec3>, normals: Seq<Vec3>) -> Seq<Vertex> {
    Seq::new(
        positions.len(),
        |i: int|
            Vertex {
                position: positions[i],
                normal: if i < normals.len() {
                    normals[i]
                } else {
                    Vec3::zero()
                },
            },
    )
}

/// The normals of a primitive, none where it has no attribute for them.
pub open spec fn normals_of(p: PrimitiveData) -> Seq<Vec3> {
    match p.normals {
        Some(n) => n@,
        None => Seq::empty(),
    }
}

/// The indices of a primitive: its own, or all its vertices in order where it is not indexed.
pub open spec fn indices_of(p: PrimitiveData) -> Seq<u32> {
    match p.indices {
        Some(i) => i@,
        None => Seq::new(p.positions->0@.len(), |i: int| i as u32),
    }
}

/// What a triangle primitive is loaded as: an error, nothing where it is empty, or its mesh.
pub open spec fn loads_as(p: PrimitiveData, r: Result<Option<Mesh>, Error>) -> bool {
    match p.positions {
        None => {
            &&& r is Err
            &&& r->Err_0 is Geometry
            &&& r->Err_0.detail() == "glTF primitive is missing POSITION attribute"@
        },
        Some(positions) => {
            let indices = indices_of(p);
            let bad = first_bad(indices, positions@.len());
            if positions@.len() == 0 {
                r == Ok::<Option<Mesh>, Error>(None)
            } else if indices.len() % 3 != 0 {
                &&& r is Err
                &&& r->Err_0 is Geometry
                &&& r->Err_0.detail() == "glTF triangle primitive has "@ + decimal(indices.len())
                    + " indices, not a multiple of three"@
            } else if bad < indices.len() {
                &&& r is Err
                &&& r->Err_0 is Geometry
                &&& r->Err_0.detail() == "glTF index "@ + decimal(indices[bad as int] as nat)
                    + " is out of range for "@ + decimal(positions@.len()) + " vertices"@
            } else {
                &&& r is Ok
                &&& r->Ok_0 is Some
                &&& r->Ok_0->0.wf()
                &&& r->Ok_0->0.vertices@ == vertices_of(positions@, normals_of(p))
                &&& r->Ok_0->0.indices@ == indices
            }
        },
    }
}

/// Reads a single triangle-mode primitive into a local-space mesh. Returns `Ok(None)` for an empty
/// primitive.
pub fn load_primitive(p: &PrimitiveData) -> (r: Result<Option<Mesh>, Error>)
    requires
        p.positions is Some ==> p.positions->0@.len() <= u32::MAX,
    ensures
        loads_as(*p, r),
{
    let positions = match &p.positions {
        Some(positions) => positions,
        None => {
            return Err(
                Error::Geometry("glTF primitive is missing POSITION attribute".to_owned()),
            );
        },
    };
    if positions.len() == 0 {
        return Ok(None);
    }
    let ghost normals = normals_of(*p);
    let mut vertices: Vec<Vertex> = Vec::new();
    let mut i: usize = 0;
    while i < positions.len()
        invariant
            i <= positions@.len(),
            normals == normals_of(*p),
            vertices@ == vertices_of(positions@, normals).take(i as int),
        decreases positions@.len() - i,
    {
        let normal: Vec3 = match &p.normals {
            Some(n) => {
                if i < n.len() {
                    n[i]
                } else {
                    Vec3::zero()
                }
            },
            None => Vec3::zero(),
        };
        vertices.push(Vertex { position: positions[i], normal });
        assert(vertices@ =~= vertices_of(positions@, normals).take(i + 1));
        i = i + 1;
    }
    assert(vertices@ =~= vertices_of(positions@, normals));
    let indices: Vec<u32> = match &p.indices {
        Some(indices) => copied(indices.as_slice()),
        None => counted(positions.len() as u32),
    };
    assert(indices@ =~= indices_of(*p));
    if indices.len() % 3 != 0 {
        let mut m = "glTF triangle primitive has ".to_owned();
        push_decimal(&mut m, indices.len() as u64);
        m.append(" indices, not a multiple of three");
        return Err(Error::Geometry(m));
    }
    let mut k: usize = 0;
    while k < indices.len() && (indices[k] as usize) < vertices.len()
        invariant
            k <= indices@.len(),
            forall|j: int| 0 <= j < k ==> (#[trigger] indices@[j]) < vertices@.len(),
        decreases indices@.len() - k,
    {
        k = k + 1;
    }
    proof {
        lemma_first_bad(indices@, vertices@.len(), k as nat);
    }
    if k < indices.len() {
        let mut m = "glTF index ".to_owned();
        push_decimal(&mut m, indices[k] as u64);
        m.append(" is out of range for ");
        push_decimal(&mut m, vertices.len() as u64);
        m.append(" vertices");
        return Err(Error::Geometry(m));
    }
    Ok(Some(Mesh { vertices, indices }))
}

/// The numbers from zero up to but not including `n`.
fn counted(n: u32) -> (list: Vec<u32>)
    ensures
        list@ == Seq::new(n as nat, |i: int| i as u32),
{
    let mut list: Vec<u32> = Vec::new();
    let mut i: u32 = 0;
    while i < n
        invariant
            i <= n,
            list@ == Seq::new(i as nat, |k: int| k as u32),
        decreases n - i,
    {
        list.push(i);
        i = i + 1;
        assert(list@ =~= Seq::new(i as nat, |k: int| k as u32));
    }
    list
}

/// Whether every primitive's vertices can be numbered.
pub open spec fn countable(nodes: Seq<NodeData>) -> bool {
    forall|n: int, p: int|
        #![trigger nodes[n].primitives@[p]]
        0 <= n < nodes.len() && 0 <= p < nodes[n].primitives@.len()
            && nodes[n].primitives@[p].positions is Some
            ==> nodes[n].primitives@[p].positions->0@.len() <= u32::MAX
}

/// The places of all primitives of the first `n` steps that become geometry, in order: the step
/// and the primitive's number in its mesh.
pub open spec fn primitive_places(nodes: Seq<NodeData>, visits: Seq<Visit>, n: nat) -> Seq<(
    int,
    int,
)>
    decreases n,
{
    if n == 0 {
        Seq::empty()
    } else {
        primitive_places(nodes, visits, (n - 1) as nat) + node_places(
            nodes[visits[n - 1].source as int].primitives@,
            n - 1,
            nodes[visits[n - 1].source as int].primitives@.len(),
        )
    }
}

/// The places of those of the first `m` primitives of a step's mesh that are triangles.
pub open spec fn node_places(primitives: Seq<PrimitiveData>, step: int, m: nat) -> Seq<(int, int)>
    decreases m,
{
    if m == 0 {
        Seq::empty()
    } else {
        let before = node_places(primitives, step, (m - 1) as nat);
        if primitives[m - 1].triangles {
            before.push((step, m - 1))
        } else {
            before
        }
    }
}

/// The primitive at that place.
pub open spec fn primitive_at(nodes: Seq<NodeData>, visits: Seq<Visit>, place: (int, int)) -> PrimitiveData {
    nodes[visits[place.0].source as int].primitives@[place.1]
}

/// Whether the primitive at that place is there but empty.
pub open spec fn is_empty_primitive(p: PrimitiveData) -> bool {
    p.positions is Some && p.positions->0@.len() == 0
}

/// Those of the places whose primitives are not empty.
pub open spec fn filled_places(
    nodes: Seq<NodeData>,
    visits: Seq<Visit>,
    places: Seq<(int, int)>,
) -> Seq<(int, int)>
    decreases places.len(),
{
    if places.len() == 0 {
        Seq::empty()
    } else {
        let before = filled_places(nodes, visits, places.drop_last());
        if is_empty_primitive(primitive_at(nodes, visits, places.last())) {
            before
        } else {
            before.push(places.last())
        }
    }
}

/// Whether the primitive can be loaded.
pub open spec fn loads(p: PrimitiveData) -> bool {
    p.positions is Some && (p.positions->0@.len() == 0 || (indices_of(p).len() % 3 == 0 && first_bad(
        indices_of(p),
        p.positions->0@.len(),
    ) == indices_of(p).len()))
}

/// Whether `i` is the instance of the primitive at that place.
pub open spec fn is_instance_of(
    nodes: Seq<NodeData>,
    visits: Seq<Visit>,
    place: (int, int),
    i: MeshInstance,
) -> bool {
    let p = primitive_at(nodes, visits, place);
    &&& i.node == place.0
    &&& i.base_color == p.base_color
    &&& loads_as(p, Ok(Some(i.mesh)))
}

/// Whether `r` is what loading the primitives at these places gives: an instance for each that is
/// not empty, or the error of the first that cannot be loaded.
pub open spec fn loaded(
    nodes: Seq<NodeData>,
    visits: Seq<Visit>,
    places: Seq<(int, int)>,
    r: Result<Seq<MeshInstance>, Error>,
) -> bool {
    match r {
        Ok(instances) => {
            let filled = filled_places(nodes, visits, places);
            &&& forall|k: int|
                0 <= k < places.len() ==> loads(primitive_at(nodes, visits, #[trigger] places[k]))
            &&& instances.len() == filled.len()
            &&& forall|k: int|
                #![trigger instances[k]]
                0 <= k < instances.len() ==> is_instance_of(
                    nodes,
                    visits,
                    filled[k],
                    instances[k],
                )
        },
        Err(e) => fails_first(nodes, visits, places, e),
    }
}

/// Whether `e` is the error of the first primitive at these places that cannot be loaded.
pub open spec fn fails_first(
    nodes: Seq<NodeData>,
    visits: Seq<Visit>,
    places: Seq<(int, int)>,
    e: Error,
) -> bool {
    exists|k: int|
        {
            &&& 0 <= k < places.len()
            &&& !loads(primitive_at(nodes, visits, #[trigger] places[k]))
            &&& loads_as(primitive_at(nodes, visits, places[k]), Err(e))
            &&& forall|j: int|
                0 <= j < k ==> loads(primitive_at(nodes, visits, #[trigger] places[j]))
        }
}

/// A result for the places so far, carried over to more places behind them.
proof fn lemma_failure_stays_first(
    nodes: Seq<NodeData>,
    visits: Seq<Visit>,
    places: Seq<(int, int)>,
    more: Seq<(int, int)>,
    e: Error,
)
    requires
        fails_first(nodes, visits, places, e),
    ensures
        fails_first(nodes, visits, places + more, e),
{
    let k = choose|k: int|
        {
            &&& 0 <= k < places.len()
            &&& !loads(primitive_at(nodes, visits, #[trigger] places[k]))
            &&& loads_as(primitive_at(nodes, visits, places[k]), Err(e))
            &&& forall|j: int|
                0 <= j < k ==> loads(primitive_at(nodes, visits, #[trigger] places[j]))
        };
    let all = places + more;
    assert(all[k] == places[k]);
    assert forall|j: int| 0 <= j < k implies loads(
        primitive_at(nodes, visits, #[trigger] all[j]),
    ) by {
        assert(all[j] == places[j]);
    }
}

proof fn lemma_places_are_a_prefix(nodes: Seq<NodeData>, visits: Seq<Visit>, n: nat, m: nat)
    requires
        n <= m,
    ensures
        primitive_places(nodes, visits, n).is_prefix_of(primitive_places(nodes, visits, m)),
    decreases m - n,
{
    if n < m {
        lemma_places_are_a_prefix(nodes, visits, n, (m - 1) as nat);
        let a = primitive_places(nodes, visits, n);
        let b = primitive_places(nodes, visits, (m - 1) as nat);
        let c = primitive_places(nodes, visits, m);
        assert(a =~= c.subrange(0, a.len() as int)) by {
            assert(a == b.subrange(0, a.len() as int));
            assert forall|i: int| 0 <= i < a.len() implies a[i] == c[i] by {
                assert(a[i] == b[i]);
                assert(c[i] == b[i]);
            }
        }
    }
}

proof fn lemma_node_places_are_a_prefix(primitives: Seq<PrimitiveData>, step: int, n: nat, m: nat)
    requires
        n <= m,
    ensures
        node_places(primitives, step, n).is_prefix_of(node_places(primitives, step, m)),
    decreases m - n,
{
    if n < m {
        lemma_node_places_are_a_prefix(primitives, step, n, (m - 1) as nat);
        let a = node_places(primitives, step, n);
        let b = node_places(primitives, step, (m - 1) as nat);
        let c = node_places(primitives, step, m);
        assert(a =~= c.subrange(0, a.len() as int)) by {
            assert(a == b.subrange(0, a.len() as int));
            assert forall|i: int| 0 <= i < a.len() implies a[i] == c[i] by {
                assert(a[i] == b[i]);
                assert(c[i] == b[i]);
            }
        }
    }
}

proof fn lemma_prefix_sum<A>(a: Seq<A>, b: Seq<A>)
    requires
        a.is_prefix_of(b),
    ensures
        b == a + b.skip(a.len() as int),
{
    assert(b =~= a + b.skip(a.len() as int));
}

/// Loads the triangle primitives of every step, in order; the first that cannot be loaded ends it.
pub fn build_instances(nodes: &[NodeData], visits: &[Visit]) -> (r: Result<Vec<MeshInstance>, Error>)
    requires
        countable(nodes@),
        visits_known_nodes(nodes@, visits@),
    ensures
        loaded(
            nodes@,
            visits@,
            primitive_places(nodes@, visits@, visits@.len()),
            match r {
                Ok(v) => Ok(v@),
                Err(e) => Err(e),
            },
        ),
{
    let mut instances: Vec<MeshInstance> = Vec::new();
    let mut i: usize = 0;
    while i < visits.len()
        invariant
            countable(nodes@),
            forall|k: int|
                0 <= k < visits@.len() ==> (#[trigger] visits@[k]).source < nodes@.len(),
            i <= visits@.len(),
            loaded(
                nodes@,
                visits@,
                primitive_places(nodes@, visits@, i as nat),
                Ok(instances@),
            ),
        decreases visits@.len() - i,
    {
        let source: usize = visits[i].source;
        assert(visits@[i as int].source < nodes@.len());
        let ghost done = primitive_places(nodes@, visits@, i as nat);
        let ghost prims = nodes@[source as int].primitives@;
        let mut j: usize = 0;
        assert(done + node_places(prims, i as int, 0) =~= done);
        while j < nodes[source].primitives.len()
            invariant
                countable(nodes@),
                i < visits@.len(),
                source == visits@[i as int].source,
                source < nodes@.len(),
                prims == nodes@[source as int].primitives@,
                done == primitive_places(nodes@, visits@, i as nat),
                j <= prims.len(),
                loaded(
                    nodes@,
                    visits@,
                    done + node_places(prims, i as int, j as nat),
                    Ok(instances@),
                ),
            decreases prims.len() - j,
        {
            let p = &nodes[source].primitives[j];
            let ghost places = done + node_places(prims, i as int, j as nat);
            let ghost next = done + node_places(prims, i as int, (j + 1) as nat);
            let ghost place = (i as int, j as int);
            assert(*p == nodes@[source as int].primitives@[j as int]);
            if p.triangles {
                proof {
                    assert(next =~= places.push(place));
                    assert(next.drop_last() =~= places);
                    assert(primitive_at(nodes@, visits@, place) == *p);
                    assert(next[places.len() as int] == place);
                }
                match load_primitive(p) {
                    Ok(Some(mesh)) => {
                        let ghost before = instances@;
                        instances.push(MeshInstance { node: i, mesh, base_color: p.base_color });
                        proof {
                            let filled = filled_places(nodes@, visits@, next);
                            lemma_first_bad_bound(indices_of(*p), p.positions->0@.len());
                            assert forall|k: int| 0 <= k < next.len() implies loads(
                                primitive_at(nodes@, visits@, #[trigger] next[k]),
                            ) by {
                                if k < places.len() {
                                    assert(next[k] == places[k]);
                                }
                            }
                            assert forall|k: int| #![trigger instances@[k]] 0 <= k
                                < instances@.len() implies is_instance_of(
                                nodes@,
                                visits@,
                                filled[k],
                                instances@[k],
                            ) by {
                                if k < before.len() {
                                    assert(instances@[k] == before[k]);
                                }
                            }
                        }
                    },
                    Ok(None) => {
                        proof {
                            assert forall|k: int| 0 <= k < next.len() implies loads(
                                primitive_at(nodes@, visits@, #[trigger] next[k]),
                            ) by {
                                if k < places.len() {
                                    assert(next[k] == places[k]);
                                }
                            }
                        }
                    },
                    Err(e) => {
                        proof {
                            assert(!loads(primitive_at(nodes@, visits@, next[places.len() as int])));
                            assert forall|k: int| 0 <= k < places.len() implies loads(
                                primitive_at(nodes@, visits@, #[trigger] next[k]),
                            ) by {
                                assert(next[k] == places[k]);
                            }
                            assert(fails_first(nodes@, visits@, next, e));
                            let all = primitive_places(nodes@, visits@, visits@.len());
                            let here = node_places(prims, i as int, prims.len());
                            let part = node_places(prims, i as int, (j + 1) as nat);
                            lemma_node_places_are_a_prefix(
                                prims,
                                i as int,
                                (j + 1) as nat,
                                prims.len(),
                            );
                            lemma_prefix_sum(part, here);
                            lemma_failure_stays_first(
                                nodes@,
                                visits@,
                                next,
                                here.skip(part.len() as int),
                                e,
                            );
                            let through = primitive_places(nodes@, visits@, (i + 1) as nat);
                            assert(through =~= next + here.skip(part.len() as int));
                            lemma_places_are_a_prefix(
                                nodes@,
                                visits@,
                                (i + 1) as nat,
                                visits@.len(),
                            );
                            lemma_prefix_sum(through, all);
                            lemma_failure_stays_first(
                                nodes@,
                                visits@,
                                through,
                                all.skip(through.len() as int),
                                e,
                            );
                        }
                        return Err(e);
                    },
                }
            } else {
                assert(next =~= places);
            }
            j = j + 1;
        }
        i = i + 1;
    }
    Ok(instances)
}

/// Where each node of a document was entered, for matching channels to nodes.
pub struct NodeMap {
    map: HashMap<usize, usize>,
}

/// The last of the first `n` steps that entered that node.
pub open spec fn last_entry(visits: Seq<Visit>, source: usize, n: nat) -> Option<usize>
    decreases n,
{
    if n == 0 {
        None
    } else if visits[n - 1].source == source {
        Some((n - 1) as usize)
    } else {
        last_entry(visits, source, (n - 1) as nat)
    }
}

impl NodeMap {
    /// The step at which each node was entered last.
    pub closed spec fn entries(&self) -> Map<usize, usize> {
        self.map@
    }

    /// The step at which the node was entered, or `None` where the walk never reached it.
    pub open spec fn step_of(&self, source: usize) -> Option<usize> {
        if self.entries().contains_key(source) {
            Some(self.entries()[source])
        } else {
            None
        }
    }

    /// Notes where each node was entered. A node entered twice counts as entered the last time.
    pub fn new(visits: &[Visit]) -> (m: NodeMap)
        ensures
            forall|source: usize| #[trigger]
                m.step_of(source) == last_entry(visits@, source, visits@.len()),
    {
        let mut map: HashMap<usize, usize> = HashMap::new();
        let mut i: usize = 0;
        while i < visits.len()
            invariant
                i <= visits@.len(),
                forall|source: usize|
                    #![trigger map@.contains_key(source)]
                    #![trigger last_entry(visits@, source, i as nat)]
                    (if map@.contains_key(source) {
                        Some(map@[source])
                    } else {
                        None
                    }) == last_entry(visits@, source, i as nat),
            decreases visits@.len() - i,
        {
            let ghost before = map@;
            map.insert(visits[i].source, i);
            assert forall|source: usize|
                #![trigger map@.contains_key(source)]
                #![trigger last_entry(visits@, source, (i + 1) as nat)]
                (if map@.contains_key(source) {
                    Some(map@[source])
                } else {
                    None
                }) == last_entry(visits@, source, (i + 1) as nat) by {
                assert(before.contains_key(source) || !before.contains_key(source));
            }
            i = i + 1;
        }
        NodeMap { map }
    }

    /// The step at which the node was entered, or `None` where the walk never reached it.
    pub fn get(&self, source: usize) -> (r: Option<usize>)
        ensures
            r == self.step_of(source),
    {
        match self.map.get(&source) {
            Some(step) => Some(*step),
            None => None,
        }
    }
}

/// The steps at which the first `n` joints were entered.
pub open spec fn joint_steps(joints: Seq<usize>, map: NodeMap, n: nat) -> Set<usize>
    decreases n,
{
    if n == 0 {
        Set::empty()
    } else {
        let before = joint_steps(joints, map, (n - 1) as nat);
        match map.step_of(joints[n - 1]) {
            Some(step) => before.insert(step),
            None => before,
        }
    }
}

/// The set of steps that are skin joints, so animations touching them can be flagged as skinned
/// even though their rigid node motion still plays. `joints` lists the joints of all skins.
pub fn skinned_node_set(joints: &[usize], map: &NodeMap) -> (set: HashSet<usize>)
    ensures
        set@ == joint_steps(joints@, *map, joints@.len()),
{
    let mut set: HashSet<usize> = HashSet::new();
    let mut i: usize = 0;
    while i < joints.len()
        invariant
            i <= joints@.len(),
            set@ == joint_steps(joints@, *map, i as nat),
        decreases joints@.len() - i,
    {
        if let Some(step) = map.get(joints[i]) {
            set.insert(step);
        }
        i = i + 1;
    }
    set
}

/// The keyframe values of a channel, as its document has them.
#[derive(Clone, Debug)]
pub enum ChannelOutputs {
    /// Translation keyframes.
    Translations(Vec<Vec3>),
    /// Rotation keyframes.
    Rotations(Vec<Quat>),
    /// Scale keyframes.
    Scales(Vec<Vec3>),
    /// Morph-target weights, which are not played.
    MorphTargetWeights,
}

/// How a channel's values are meant to be blended, as its document has it.
#[derive(Clone, Copy, Debug, PartialEq, Eq, Structural)]
pub enum ChannelInterpolation {
    /// The earlier value is held.
    Step,
    /// Values are blended evenly.
    Linear,
    /// Values are blended along a curve. For each keyframe the document lists an in-tangent, the
    /// value, and an out-tangent.
    CubicSpline,
}

impl ChannelInterpolation {
    /// How the channel is played. Curves are played as straight lines between their values.
    pub open spec fn spec_played(self) -> Interpolation {
        match self {
            ChannelInterpolation::Step => Interpolation::Step,
            _ => Interpolation::Linear,
        }
    }

    /// How the channel is played.
    pub fn played(self) -> (i: Interpolation)
        ensures
            i == self.spec_played(),
    {
        match self {
            ChannelInterpolation::Step => Interpolation::Step,
            _ => Interpolation::Linear,
        }
    }
}

/// One channel of an animation, as its document has it.
#[derive(Clone, Debug)]
pub struct ChannelData {
    /// The node that it targets, by its place in the document.
    pub node: usize,
    /// How its values are meant to be blended.
    pub interpolation: ChannelInterpolation,
    /// The keyframe times, if they can be read.
    pub times: Option<Vec<Single>>,
    /// The keyframe values, with the tangents of a curve among them, if they can be read.
    pub outputs: Option<ChannelOutputs>,
}

/// One animation of a document.
#[derive(Clone, Debug)]
pub struct AnimationData {
    /// The animation's name, if it has one.
    pub name: Option<String>,
    /// The animation's channels.
    pub channels: Vec<ChannelData>,
}

/// Whether a channel is played: its node was entered, and it has times and values to play.
pub open spec fn is_played(c: ChannelData, map: NodeMap) -> bool {
    &&& map.step_of(c.node) is Some
    &&& c.times is Some
    &&& c.times->0@.len() > 0
    &&& c.outputs is Some
    &&& !(c.outputs->0 is MorphTargetWeights)
}

/// The channels among the first `n` that are played, in order.
pub open spec fn played(channels: Seq<ChannelData>, map: NodeMap, n: nat) -> Seq<int>
    decreases n,
{
    if n == 0 {
        Seq::empty()
    } else {
        let before = played(channels, map, (n - 1) as nat);
        if is_played(channels[n - 1], map) {
            before.push(n - 1)
        } else {
            before
        }
    }
}

/// The latest end of the channels among the first `n` that are played, and at least zero.
pub open spec fn latest_end(channels: Seq<ChannelData>, map: NodeMap, n: nat) -> Single
    decreases n,
{
    if n == 0 {
        Single::zero()
    } else {
        let before = latest_end(channels, map, (n - 1) as nat);
        let c = channels[n - 1];
        if is_played(c, map) && before.spec_lt(c.times->0@.last()) {
            c.times->0@.last()
        } else {
            before
        }
    }
}

/// Whether one of the first `n` channels targets a joint.
pub open spec fn touches_joint(
    channels: Seq<ChannelData>,
    map: NodeMap,
    joints: Set<usize>,
    n: nat,
) -> bool {
    exists|k: int|
        0 <= k < n && map.step_of((#[trigger] channels[k]).node) is Some && joints.contains(
            map.step_of(channels[k].node)->0,
        )
}

/// The values that are played of a channel's outputs: all of them, or, of a curve, the middle one of
/// each three, without the tangents.
pub open spec fn value_points<T>(interpolation: ChannelInterpolation, outputs: Seq<T>) -> Seq<T> {
    if interpolation is CubicSpline {
        Seq::new(outputs.len() / 3, |i: int| outputs[3 * i + 1])
    } else {
        outputs
    }
}

/// Whether `s` are the values that are played of `o`.
pub open spec fn same_values(
    interpolation: ChannelInterpolation,
    o: ChannelOutputs,
    s: ChannelSamples,
) -> bool {
    match o {
        ChannelOutputs::Translations(v) => s is Translation && s->Translation_0@ == value_points(
            interpolation,
            v@,
        ),
        ChannelOutputs::Rotations(v) => s is Rotation && s->Rotation_0@ == value_points(
            interpolation,
            v@,
        ),
        ChannelOutputs::Scales(v) => s is Scale && s->Scale_0@ == value_points(interpolation, v@),
        ChannelOutputs::MorphTargetWeights => false,
    }
}

/// Whether `a` plays the channel `c`.
pub open spec fn plays(c: ChannelData, map: NodeMap, a: AnimChannel) -> bool {
    &&& is_played(c, map)
    &&& a.node == map.step_of(c.node)->0
    &&& a.interpolation == c.interpolation.spec_played()
    &&& a.times@ == c.times->0@
    &&& same_values(c.interpolation, c.outputs->0, a.samples)
}

/// How many values a channel's outputs are.
pub open spec fn output_count(o: ChannelOutputs) -> nat {
    match o {
        ChannelOutputs::Translations(v) => v@.len(),
        ChannelOutputs::Rotations(v) => v@.len(),
        ChannelOutputs::Scales(v) => v@.len(),
        ChannelOutputs::MorphTargetWeights => 0,
    }
}

/// Whether `samples` are `count` values, each the middle one of three outputs.
pub open spec fn are_middles<T>(outputs: Seq<T>, samples: Seq<T>, count: nat) -> bool {
    &&& samples.len() == count
    &&& forall|i: int| 0 <= i < count ==> #[trigger] samples[i] == outputs[3 * i + 1]
}

/// A curve with three outputs for each of its keyframe times is played as straight lines between
/// its values: one sample for each time, the value without its tangents.
pub proof fn law_curve_is_played_on_its_values(c: ChannelData, map: NodeMap, a: AnimChannel)
    requires
        plays(c, map, a),
        c.interpolation is CubicSpline,
        output_count(c.outputs->0) == 3 * c.times->0@.len(),
    ensures
        a.interpolation is Linear,
        a.times@ == c.times->0@,
        match (c.outputs->0, a.samples) {
            (ChannelOutputs::Translations(v), ChannelSamples::Translation(w)) => are_middles(
                v@,
                w@,
                a.times@.len(),
            ),
            (ChannelOutputs::Rotations(v), ChannelSamples::Rotation(w)) => are_middles(
                v@,
                w@,
                a.times@.len(),
            ),
            (ChannelOutputs::Scales(v), ChannelSamples::Scale(w)) => are_middles(
                v@,
                w@,
                a.times@.len(),
            ),
            _ => false,
        },
{
}

/// Whether `a` plays the animation number `i` of a document.
pub open spec fn plays_animation(
    d: AnimationData,
    map: NodeMap,
    joints: Set<usize>,
    i: int,
    a: SceneAnimation,
) -> bool {
    let sources = played(d.channels@, map, d.channels@.len());
    &&& a.name@ == match d.name {
        Some(name) => name@,
        None => "animation "@ + decimal(i as nat),
    }
    &&& a.duration == latest_end(d.channels@, map, d.channels@.len())
    &&& a.skinned == touches_joint(d.channels@, map, joints, d.channels@.len())
    &&& a.channels@.len() == sources.len()
    &&& forall|k: int|
        #![trigger a.channels@[k]]
        0 <= k < a.channels@.len() ==> plays(d.channels@[sources[k]], map, a.channels@[k])
}

/// The values that are played of a channel's outputs.
fn played_values<T: Copy>(interpolation: ChannelInterpolation, outputs: &[T]) -> (values: Vec<T>)
    ensures
        values@ == value_points(interpolation, outputs@),
{
    match interpolation {
        ChannelInterpolation::CubicSpline => {},
        _ => {
            return copied(outputs);
        },
    }
    let n: usize = outputs.len() / 3;
    let mut values: Vec<T> = Vec::with_capacity(n);
    let mut i: usize = 0;
    while i < n
        invariant
            interpolation is CubicSpline,
            n == outputs@.len() / 3,
            outputs@.len() <= usize::MAX,
            i <= n,
            values@ == value_points(interpolation, outputs@).take(i as int),
        decreases n - i,
    {
        values.push(outputs[3 * i + 1]);
        assert(values@ =~= value_points(interpolation, outputs@).take(i + 1));
        i = i + 1;
    }
    assert(values@ =~= value_points(interpolation, outputs@));
    values
}

/// The channel that plays `c` on the node entered at `node`.
fn build_channel(c: &ChannelData, node: usize) -> (r: Option<AnimChannel>)
    ensures
        r is Some <==> c.times is Some && c.times->0@.len() > 0 && c.outputs is Some && !(
        c.outputs->0 is MorphTargetWeights),
        r is Some ==> {
            &&& r->0.node == node
            &&& r->0.interpolation == c.interpolation.spec_played()
            &&& r->0.times@ == c.times->0@
            &&& same_values(c.interpolation, c.outputs->0, r->0.samples)
        },
{
    let interpolation = c.interpolation.played();
    let times = match &c.times {
        Some(times) => copied(times.as_slice()),
        None => {
            return None;
        },
    };
    if times.len() == 0 {
        return None;
    }
    let samples = match &c.outputs {
        None => {
            return None;
        },
        Some(ChannelOutputs::Translations(v)) => ChannelSamples::Translation(
            played_values(c.interpolation, v.as_slice()),
        ),
        Some(ChannelOutputs::Rotations(v)) => ChannelSamples::Rotation(
            played_values(c.interpolation, v.as_slice()),
        ),
        Some(ChannelOutputs::Scales(v)) => ChannelSamples::Scale(
            played_values(c.interpolation, v.as_slice()),
        ),
        Some(ChannelOutputs::MorphTargetWeights) => {
            return None;
        },
    };
    Some(AnimChannel { node, interpolation, times, samples })
}

/// Builds one animation, matching channel targets to the nodes of the hierarchy. Channels that
/// target unreachable nodes, that cannot be read, or that drive morph weights are left out. Curves are
/// played as straight lines between their values, without the tangents.
pub fn build_animation(d: &AnimationData, map: &NodeMap, joints: &HashSet<usize>, number: usize) -> (a:
    SceneAnimation)
    ensures
        plays_animation(*d, *map, joints@, number as int, a),
{
    let name = match &d.name {
        Some(name) => name.clone(),
        None => {
            let mut m = "animation ".to_owned();
            push_decimal(&mut m, number as u64);
            m
        },
    };
    let mut channels: Vec<AnimChannel> = Vec::new();
    let mut duration: Single = Single::zero();
    let mut skinned: bool = false;
    let mut i: usize = 0;
    while i < d.channels.len()
        invariant
            i <= d.channels@.len(),
            duration == latest_end(d.channels@, *map, i as nat),
            skinned == touches_joint(d.channels@, *map, joints@, i as nat),
            channels@.len() == played(d.channels@, *map, i as nat).len(),
            forall|k: int|
                #![trigger channels@[k]]
                0 <= k < channels@.len() ==> plays(
                    d.channels@[played(d.channels@, *map, i as nat)[k]],
                    *map,
                    channels@[k],
                ),
        decreases d.channels@.len() - i,
    {
        let ghost before = channels@;
        let ghost sources = played(d.channels@, *map, i as nat);
        let ghost was = skinned;
        let c = &d.channels[i];
        assert(*c == d.channels@[i as int]);
        if let Some(node) = map.get(c.node) {
            if joints.contains(&node) {
                skinned = true;
            }
            if let Some(channel) = build_channel(c, node) {
                let last = channel.times[channel.times.len() - 1];
                if duration.lt(last) {
                    duration = last;
                }
                channels.push(channel);
            }
        }
        proof {
            if touches_joint(d.channels@, *map, joints@, (i + 1) as nat) {
                let k = choose|k: int|
                    0 <= k < i + 1 && map.step_of((#[trigger] d.channels@[k]).node) is Some
                        && joints@.contains(map.step_of(d.channels@[k].node)->0);
                if k < i {
                    assert(touches_joint(d.channels@, *map, joints@, i as nat));
                }
            }
            if was {
                let k = choose|k: int|
                    0 <= k < i && map.step_of((#[trigger] d.channels@[k]).node) is Some
                        && joints@.contains(map.step_of(d.channels@[k].node)->0);
                assert(0 <= k < i + 1 && map.step_of(d.channels@[k].node) is Some);
            }
            assert forall|k: int| #![trigger channels@[k]] 0 <= k < channels@.len() implies plays(
                d.channels@[played(d.channels@, *map, (i + 1) as nat)[k]],
                *map,
                channels@[k],
            ) by {
                if k < before.len() {
                    assert(channels@[k] == before[k]);
                    assert(played(d.channels@, *map, (i + 1) as nat)[k] == sources[k]);
                }
            }
        }
        i = i + 1;
    }
    SceneAnimation { name, duration, skinned, channels }
}

/// Builds every animation of a document. `joints` lists the joints of all its skins.
pub fn build_animations(data: &[AnimationData], map: &NodeMap, joints: &[usize]) -> (list: Vec<
    SceneAnimation,
>)
    ensures
        plays_all(data@, *map, joints@, list@),
{
    let set = skinned_node_set(joints, map);
    let mut list: Vec<SceneAnimation> = Vec::new();
    let mut i: usize = 0;
    while i < data.len()
        invariant
            i <= data@.len(),
            list@.len() == i,
            forall|k: int|
                #![trigger list@[k]]
                0 <= k < i ==> plays_animation(data@[k], *map, set@, k, list@[k]),
        decreases data@.len() - i,
    {
        list.push(build_animation(&data[i], map, &set, i));
        i = i + 1;
    }
    list
}

/// Whether `a` is the animated scene of a document's nodes, reached from its roots, and of its
/// animations.
pub open spec fn is_scene_of(
    nodes: Seq<NodeData>,
    roots: Seq<usize>,
    animations: Seq<AnimationData>,
    joints: Seq<usize>,
    a: AnimatedScene,
) -> bool {
    let visits = walk_all(nodes, roots, None, 0, nodes.len());
    &&& a.nodes@.len() == visits.len()
    &&& a.roots@ == children_of(visits, None, visits.len())
    &&& forall|k: int|
        #![trigger a.nodes@[k]]
        0 <= k < visits.len() ==> is_node_of(nodes, visits, k, visits.len(), a.nodes@[k])
    &&& loaded(
        nodes,
        visits,
        primitive_places(nodes, visits, visits.len()),
        Ok::<Seq<MeshInstance>, Error>(a.instances@),
    )
    &&& exists|map: NodeMap| #[trigger]
        numbers(map, visits) && plays_all(animations, map, joints, a.animations@)
}

/// Whether `map` tells for each node of a document the last step over it.
pub open spec fn numbers(map: NodeMap, visits: Seq<Visit>) -> bool {
    forall|source: usize| #[trigger]
        map.step_of(source) == last_entry(visits, source, visits.len())
}

/// Whether `list` holds what is played of each of a document's animations.
pub open spec fn plays_all(
    data: Seq<AnimationData>,
    map: NodeMap,
    joints: Seq<usize>,
    list: Seq<SceneAnimation>,
) -> bool {
    &&& list.len() == data.len()
    &&& forall|i: int|
        #![trigger list[i]]
        0 <= i < list.len() ==> plays_animation(
            data[i],
            map,
            joint_steps(joints, map, joints.len()),
            i,
            list[i],
        )
}

/// The places of a node's primitives name that node.
proof fn lemma_node_places_name_the_step(primitives: Seq<PrimitiveData>, step: int, m: nat)
    ensures
        forall|k: int|
            0 <= k < node_places(primitives, step, m).len() ==> (#[trigger] node_places(
                primitives,
                step,
                m,
            )[k]).0 == step,
    decreases m,
{
    if m > 0 {
        lemma_node_places_name_the_step(primitives, step, (m - 1) as nat);
        let before = node_places(primitives, step, (m - 1) as nat);
        let all = node_places(primitives, step, m);
        assert forall|k: int| 0 <= k < all.len() implies (#[trigger] all[k]).0 == step by {
            if k < before.len() {
                assert(all[k] == before[k]);
            }
        }
    }
}

/// The places of the primitives name steps of the walk.
proof fn lemma_places_name_steps(nodes: Seq<NodeData>, visits: Seq<Visit>, n: nat)
    ensures
        forall|k: int|
            0 <= k < primitive_places(nodes, visits, n).len() ==> 0 <= (#[trigger] primitive_places(
                nodes,
                visits,
                n,
            )[k]).0 < n,
    decreases n,
{
    if n > 0 {
        lemma_places_name_steps(nodes, visits, (n - 1) as nat);
        let primitives = nodes[visits[n - 1].source as int].primitives@;
        lemma_node_places_name_the_step(primitives, n - 1, primitives.len());
        let before = primitive_places(nodes, visits, (n - 1) as nat);
        let own = node_places(primitives, n - 1, primitives.len());
        let all = primitive_places(nodes, visits, n);
        assert forall|k: int| 0 <= k < all.len() implies 0 <= (#[trigger] all[k]).0 < n by {
            if k < before.len() {
                assert(all[k] == before[k]);
            } else {
                assert(all[k] == own[k - before.len()]);
            }
        }
    }
}

/// Every filled place is one of the places.
proof fn lemma_filled_places_are_places(
    nodes: Seq<NodeData>,
    visits: Seq<Visit>,
    places: Seq<(int, int)>,
    n: nat,
)
    requires
        forall|k: int| 0 <= k < places.len() ==> 0 <= (#[trigger] places[k]).0 < n,
    ensures
        forall|k: int|
            0 <= k < filled_places(nodes, visits, places).len() ==> 0 <= (#[trigger] filled_places(
                nodes,
                visits,
                places,
            )[k]).0 < n,
    decreases places.len(),
{
    if places.len() > 0 {
        assert forall|k: int| 0 <= k < places.drop_last().len() implies 0 <= (#[trigger]
        places.drop_last()[k]).0 < n by {
            assert(places.drop_last()[k] == places[k]);
        }
        lemma_filled_places_are_places(nodes, visits, places.drop_last(), n);
        assert(0 <= places[places.len() - 1].0 < n);
        let before = filled_places(nodes, visits, places.drop_last());
        let all = filled_places(nodes, visits, places);
        assert forall|k: int| 0 <= k < all.len() implies 0 <= (#[trigger] all[k]).0 < n by {
            if k < before.len() {
                assert(all[k] == before[k]);
            }
        }
    }
}

/// Assembles the animated scene of a document from its nodes, the roots of the scene that is shown,
/// its animations, and the joints of its skins.
pub fn import_animated(
    name: String,
    nodes: &[NodeData],
    roots: &[usize],
    animations: &[AnimationData],
    joints: &[usize],
) -> (r: Result<AnimatedScene, Error>)
    requires
        countable(nodes@),
        forall|i: int|
            0 <= i < roots@.len() ==> shallow(nodes@, #[trigger] roots@[i] as int, nodes@.len()),
    ensures
        match r {
            Ok(a) => a.name == name && a.wf() && is_scene_of(
                nodes@,
                roots@,
                animations@,
                joints@,
                a,
            ),
            Err(e) => {
                let visits = walk_all(nodes@, roots@, None, 0, nodes@.len());
                fails_first(
                    nodes@,
                    visits,
                    primitive_places(nodes@, visits, visits.len()),
                    e,
                )
            },
        },
{
    let visits = flatten(nodes, roots);
    let instances = match build_instances(nodes, &visits) {
        Ok(instances) => instances,
        Err(e) => {
            return Err(e);
        },
    };
    let hierarchy = build_hierarchy(nodes, &visits);
    let map = NodeMap::new(&visits);
    let animations = build_animations(animations, &map, joints);
    assert(numbers(map, visits@));
    let a = AnimatedScene {
        name,
        nodes: hierarchy.nodes,
        roots: hierarchy.roots,
        instances,
        animations,
    };
    proof {
        let places = primitive_places(nodes@, visits@, visits@.len());
        lemma_places_name_steps(nodes@, visits@, visits@.len());
        lemma_filled_places_are_places(nodes@, visits@, places, visits@.len());
        assert forall|k: int| 0 <= k < a.instances@.len() implies (#[trigger] a.instances@[k]).node
            < a.nodes@.len() by {
            let filled = filled_places(nodes@, visits@, places);
            assert(is_instance_of(nodes@, visits@, filled[k], a.instances@[k]));
            assert(0 <= filled[k].0 < visits@.len());
        }
        assert forall|i: int|
            #![trigger a.nodes@[i]]
            0 <= i < a.nodes@.len() && a.nodes@[i].parent is Some implies a.nodes@[i].parent->0
            < i by {
            assert(is_node_of(nodes@, visits@, i, visits@.len(), a.nodes@[i]));
            assert(visits@[i].parent is Some ==> visits@[i].parent->0 < i);
        }
    }
    Ok(a)
}

/// Summary statistics for a loaded glTF asset.
///
/// Counts such as the materials reflect what the asset declares, even though materials are not
/// shaded.
#[derive(Clone, Debug)]
pub struct GltfStats {
    /// Number of meshes produced (one per triangle-mode primitive that carried geometry).
    pub mesh_count: usize,
    /// Total vertex count across all produced meshes.
    pub vertex_count: usize,
    /// Total triangle count across all produced meshes.
    pub triangle_count: usize,
    /// Number of materials declared by the asset.
    pub material_count: usize,
    /// Number of animations declared by the asset.
    pub animation_count: usize,
    /// The name, duration, and skinning flag of each declared animation.
    pub animations: Vec<AnimationInfo>,
    /// The base color RGBA factor of each produced mesh.
    pub base_colors: Vec<[Single; 4]>,
    /// The axis-aligned bounding box enclosing every mesh, or `None` for an empty scene.
    pub bounding_box: Option<BoundingBox>,
    /// The bounding sphere of the bounding box, or `None` for an empty scene.
    pub bounding_sphere: Option<BoundingSphere>,
}

/// Whether `s` are the statistics of an asset.
pub open spec fn sums_up(
    scene: Scene,
    animated: AnimatedScene,
    material_count: usize,
    sphere: Option<BoundingSphere>,
    s: GltfStats,
) -> bool {
    &&& s.mesh_count == scene.meshes@.len()
    &&& s.vertex_count == vertex_sum(scene.meshes@)
    &&& s.triangle_count == triangle_sum(scene.meshes@)
    &&& s.material_count == material_count
    &&& s.animation_count == animated.animations@.len()
    &&& s.animations@.len() == animated.animations@.len()
    &&& forall|i: int|
        #![trigger s.animations@[i]]
        0 <= i < s.animations@.len() ==> s.animations@[i].name@
            == animated.animations@[i].name@ && s.animations@[i].duration
            == animated.animations@[i].duration && s.animations@[i].skinned
            == animated.animations@[i].skinned
    &&& s.base_colors@ == animated.instances@.map_values(|i: MeshInstance| i.base_color)
    &&& s.bounding_box == box_of(all_points(scene.meshes@))
    &&& s.bounding_sphere == if s.bounding_box is Some {
        sphere
    } else {
        None
    }
}

impl GltfStats {
    /// Gathers the statistics of an asset from the scene that it was baked into, its animated form,
    /// the number of its materials, and the sphere around its bounding box.
    pub fn gather(
        scene: &Scene,
        animated: &AnimatedScene,
        material_count: usize,
        sphere: Option<BoundingSphere>,
    ) -> (s: GltfStats)
        requires
            triangle_sum(scene.meshes@) <= usize::MAX,
            vertex_sum(scene.meshes@) <= usize::MAX,
        ensures
            sums_up(*scene, *animated, material_count, sphere, s),
    {
        let ghost colors = animated.instances@.map_values(|i: MeshInstance| i.base_color);
        let mut base_colors: Vec<[Single; 4]> = Vec::new();
        let mut i: usize = 0;
        while i < animated.instances.len()
            invariant
                colors == animated.instances@.map_values(|i: MeshInstance| i.base_color),
                i <= animated.instances@.len(),
                base_colors@ == colors.take(i as int),
            decreases animated.instances@.len() - i,
        {
            base_colors.push(animated.instances[i].base_color);
            assert(base_colors@ =~= colors.take(i + 1));
            i = i + 1;
        }
        assert(base_colors@ =~= colors);
        let bounding_box = scene.bounding_box();
        let bounding_sphere = match bounding_box {
            Some(_) => sphere,
            None => None,
        };
        GltfStats {
            mesh_count: scene.meshes.len(),
            vertex_count: scene.vertex_count(),
            triangle_count: scene.triangle_count(),
            material_count,
            animation_count: animated.animations.len(),
            animations: animated.animation_infos(),
            base_colors,
            bounding_box,
            bounding_sphere,
        }
    }
}

/// The document's node that each node of the scene stands for.
pub open spec fn sources_of(nodes: Seq<NodeData>, roots: Seq<usize>) -> Seq<usize> {
    walk_all(nodes, roots, None, 0, nodes.len()).map_values(|v: Visit| v.source)
}

/// Whether step `k` of a walk that starts at step `base` goes down from where it says: from `parent`
/// to a node of the list, or from an earlier step to a child of its node.
pub open spec fn goes_down(
    nodes: Seq<NodeData>,
    list: Seq<usize>,
    parent: Option<usize>,
    base: int,
    walk: Seq<Visit>,
    k: int,
) -> bool {
    if walk[k].parent is Some && walk[k].parent->0 >= base {
        &&& walk[k].parent->0 < base + k
        &&& nodes[walk[walk[k].parent->0 - base].source as int].children@.contains(walk[k].source)
    } else {
        walk[k].parent == parent && list.contains(walk[k].source)
    }
}

/// Whether a step of the walk enters that node from that parent.
pub open spec fn enters(walk: Seq<Visit>, source: usize, parent: Option<usize>) -> bool {
    exists|k: int| 0 <= k < walk.len() && #[trigger] walk[k] == (Visit { source, parent })
}

/// Whether every child of the node of step `p` is entered from there.
pub open spec fn goes_everywhere(nodes: Seq<NodeData>, base: int, walk: Seq<Visit>, p: int) -> bool {
    forall|i: int|
        0 <= i < nodes[walk[p].source as int].children@.len() ==> enters(
            walk,
            #[trigger] nodes[walk[p].source as int].children@[i],
            Some((base + p) as usize),
        )
}

proof fn lemma_walk_edges(
    nodes: Seq<NodeData>,
    node: usize,
    parent: Option<usize>,
    base: nat,
    depth: nat,
)
    requires
        shallow(nodes, node as int, depth),
        parent is Some ==> parent->0 < base,
        base + walk(nodes, node, parent, base, depth).len() <= usize::MAX,
    ensures
        ({
            let w = walk(nodes, node, parent, base, depth);
            &&& w.len() > 0
            &&& w[0] == (Visit { source: node, parent })
            &&& forall|k: int|
                0 <= k < w.len() ==> #[trigger] goes_down(
                    nodes,
                    seq![node],
                    parent,
                    base as int,
                    w,
                    k,
                )
            &&& forall|p: int|
                0 <= p < w.len() ==> #[trigger] goes_everywhere(nodes, base as int, w, p)
        }),
    decreases depth, 0nat,
{
    let w = walk(nodes, node, parent, base, depth);
    let children = nodes[node as int].children@;
    let own = Some(base as usize);
    let below = walk_all(nodes, children, own, base + 1, (depth - 1) as nat);
    lemma_walk_all_edges(nodes, children, own, base + 1, (depth - 1) as nat);
    assert(seq![node][0] == node);
    assert forall|k: int| 0 <= k < w.len() implies #[trigger] goes_down(
        nodes,
        seq![node],
        parent,
        base as int,
        w,
        k,
    ) by {
        if k > 0 {
            assert(w[k] == below[k - 1]);
            assert(goes_down(nodes, children, own, base as int + 1, below, k - 1));
            if below[k - 1].parent->0 > base {
                let up = below[k - 1].parent->0 - (base + 1);
                assert(w[up + 1] == below[up]);
            }
        }
    }
    assert forall|p: int| 0 <= p < w.len() implies #[trigger] goes_everywhere(
        nodes,
        base as int,
        w,
        p,
    ) by {
        let kids = nodes[w[p].source as int].children@;
        assert forall|i: int| 0 <= i < kids.len() implies enters(
            w,
            #[trigger] kids[i],
            Some((base + p) as usize),
        ) by {
            if p > 0 {
                assert(w[p] == below[p - 1]);
                assert(goes_everywhere(nodes, base as int + 1, below, p - 1));
                assert(enters(below, kids[i], Some((base + 1 + (p - 1)) as usize)));
            } else {
                assert(enters(below, children[i], own));
            }
            let entry = Visit { source: kids[i], parent: Some((base + p) as usize) };
            let k = choose|k: int| 0 <= k < below.len() && #[trigger] below[k] == entry;
            assert(w[k + 1] == entry);
        }
    }
}

proof fn lemma_walk_all_edges(
    nodes: Seq<NodeData>,
    list: Seq<usize>,
    parent: Option<usize>,
    base: nat,
    depth: nat,
)
    requires
        forall|i: int| 0 <= i < list.len() ==> shallow(nodes, #[trigger] list[i] as int, depth),
        parent is Some ==> parent->0 < base,
        base + walk_all(nodes, list, parent, base, depth).len() <= usize::MAX,
    ensures
        ({
            let w = walk_all(nodes, list, parent, base, depth);
            &&& forall|k: int|
                0 <= k < w.len() ==> #[trigger] goes_down(nodes, list, parent, base as int, w, k)
            &&& forall|p: int|
                0 <= p < w.len() ==> #[trigger] goes_everywhere(nodes, base as int, w, p)
            &&& forall|i: int| 0 <= i < list.len() ==> enters(w, #[trigger] list[i], parent)
        }),
    decreases depth, list.len() + 1,
{
    if list.len() > 0 {
        let w = walk_all(nodes, list, parent, base, depth);
        let rest = list.drop_last();
        let before = walk_all(nodes, rest, parent, base, depth);
        let n = before.len() as int;
        let last = walk(nodes, list.last(), parent, base + before.len(), depth);
        assert(w == before + last);
        assert forall|i: int| 0 <= i < rest.len() implies shallow(
            nodes,
            #[trigger] rest[i] as int,
            depth,
        ) by {
            assert(rest[i] == list[i]);
        }
        lemma_walk_all_edges(nodes, rest, parent, base, depth);
        lemma_walk_edges(nodes, list.last(), parent, base + before.len(), depth);
        assert forall|k: int| 0 <= k < w.len() implies #[trigger] goes_down(
            nodes,
            list,
            parent,
            base as int,
            w,
            k,
        ) by {
            if k < n {
                assert(goes_down(nodes, rest, parent, base as int, before, k));
                assert(w[k] == before[k]);
                if w[k].parent is Some && w[k].parent->0 >= base {
                    let up = w[k].parent->0 - base;
                    assert(w[up] == before[up]);
                } else {
                    let i = choose|i: int| 0 <= i < rest.len() && rest[i] == w[k].source;
                    assert(list[i] == w[k].source);
                }
            } else {
                assert(goes_down(nodes, seq![list.last()], parent, base + n, last, k - n));
                assert(w[k] == last[k - n]);
                if w[k].parent is Some && w[k].parent->0 >= base + n {
                    let up = w[k].parent->0 - (base + n);
                    assert(w[up + n] == last[up]);
                } else {
                    assert(list[list.len() - 1] == w[k].source);
                }
            }
        }
        assert forall|p: int| 0 <= p < w.len() implies #[trigger] goes_everywhere(
            nodes,
            base as int,
            w,
            p,
        ) by {
            let kids = nodes[w[p].source as int].children@;
            assert forall|i: int| 0 <= i < kids.len() implies enters(
                w,
                #[trigger] kids[i],
                Some((base + p) as usize),
            ) by {
                let entry = Visit { source: kids[i], parent: Some((base + p) as usize) };
                if p < n {
                    assert(w[p] == before[p]);
                    assert(goes_everywhere(nodes, base as int, before, p));
                    assert(enters(before, kids[i], Some((base + p) as usize)));
                    let k = choose|k: int| 0 <= k < before.len() && #[trigger] before[k] == entry;
                    assert(w[k] == entry);
                } else {
                    assert(w[p] == last[p - n]);
                    assert(goes_everywhere(nodes, base + n, last, p - n));
                    assert(enters(last, kids[i], Some((base + n + (p - n)) as usize)));
                    let k = choose|k: int| 0 <= k < last.len() && #[trigger] last[k] == entry;
                    assert(w[k + n] == entry);
                }
            }
        }
        assert forall|i: int| 0 <= i < list.len() implies enters(w, #[trigger] list[i], parent) by {
            let entry = Visit { source: list[i], parent };
            if i < rest.len() {
                assert(enters(before, rest[i], parent));
                let k = choose|k: int| 0 <= k < before.len() && #[trigger] before[k] == entry;
                assert(w[k] == entry);
            } else {
                assert(w[n] == last[0]);
            }
        }
    }
}

/// A step is among the children of a parent exactly where it has that parent.
proof fn lemma_children_have_their_parent(visits: Seq<Visit>, parent: Option<usize>, n: nat, k: usize)
    requires
        n <= visits.len() <= usize::MAX,
    ensures
        children_of(visits, parent, n).contains(k) <==> k < n && visits[k as int].parent == parent,
    decreases n,
{
    if n > 0 {
        let before = children_of(visits, parent, (n - 1) as nat);
        lemma_children_have_their_parent(visits, parent, (n - 1) as nat, k);
        if visits[n - 1].parent == parent {
            let all = before.push((n - 1) as usize);
            assert(all[all.len() - 1] == n - 1);
            if before.contains(k) {
                let i = choose|i: int| 0 <= i < before.len() && before[i] == k;
                assert(all[i] == k);
            }
            if all.contains(k) && k != n - 1 {
                let i = choose|i: int| 0 <= i < all.len() && all[i] == k;
                assert(before[i] == k);
            }
        }
    }
}

/// A node of the scene has the transform and the name of the document's node that it stands for,
/// and hangs where that one does: below a node that stands for one with this child, or, without a
/// parent, at a root.
pub proof fn law_nodes_hang_where_the_document_has_them(
    nodes: Seq<NodeData>,
    roots: Seq<usize>,
    animations: Seq<AnimationData>,
    joints: Seq<usize>,
    a: AnimatedScene,
    k: int,
)
    requires
        forall|i: int|
            0 <= i < roots.len() ==> shallow(nodes, #[trigger] roots[i] as int, nodes.len()),
        is_scene_of(nodes, roots, animations, joints, a),
        0 <= k < a.nodes@.len() <= usize::MAX,
    ensures
        sources_of(nodes, roots).len() == a.nodes@.len(),
        ({
            let sources = sources_of(nodes, roots);
            let data = nodes[sources[k] as int];
            &&& a.nodes@[k].local == data.local
            &&& a.nodes@[k].name is Some <==> data.name is Some
            &&& a.nodes@[k].name is Some ==> a.nodes@[k].name->0@ == data.name->0@
            &&& match a.nodes@[k].parent {
                Some(p) => {
                    &&& p < k
                    &&& nodes[sources[p as int] as int].children@.contains(sources[k])
                    &&& a.nodes@[p as int].children@.contains(k as usize)
                },
                None => roots.contains(sources[k]) && a.roots@.contains(k as usize),
            }
        }),
{
    let visits = walk_all(nodes, roots, None, 0, nodes.len());
    lemma_walk_all_edges(nodes, roots, None, 0, nodes.len());
    assert(goes_down(nodes, roots, None, 0, visits, k));
    assert(is_node_of(nodes, visits, k, visits.len(), a.nodes@[k]));
    lemma_children_have_their_parent(visits, visits[k].parent, visits.len(), k as usize);
    if let Some(p) = visits[k].parent {
        assert(is_node_of(nodes, visits, p as int, visits.len(), a.nodes@[p as int]));
    }
}

/// No node that the document has below a root is left out: each root is there, and for each node of
/// the scene each child of the document's node that it stands for. The place of the child is
/// returned.
pub proof fn law_every_child_is_there(
    nodes: Seq<NodeData>,
    roots: Seq<usize>,
    animations: Seq<AnimationData>,
    joints: Seq<usize>,
    a: AnimatedScene,
    parent: Option<usize>,
    i: int,
) -> (k: int)
    requires
        forall|j: int|
            0 <= j < roots.len() ==> shallow(nodes, #[trigger] roots[j] as int, nodes.len()),
        is_scene_of(nodes, roots, animations, joints, a),
        a.nodes@.len() <= usize::MAX,
        parent is None ==> 0 <= i < roots.len(),
        parent is Some ==> parent->0 < a.nodes@.len() && 0 <= i
            < nodes[sources_of(nodes, roots)[parent->0 as int] as int].children@.len(),
    ensures
        0 <= k < a.nodes@.len(),
        a.nodes@[k].parent == parent,
        sources_of(nodes, roots)[k] == match parent {
            Some(p) => nodes[sources_of(nodes, roots)[p as int] as int].children@[i],
            None => roots[i],
        },
{
    let visits = walk_all(nodes, roots, None, 0, nodes.len());
    lemma_walk_all_edges(nodes, roots, None, 0, nodes.len());
    let source = match parent {
        Some(p) => nodes[visits[p as int].source as int].children@[i],
        None => roots[i],
    };
    if let Some(p) = parent {
        assert(goes_everywhere(nodes, 0, visits, p as int));
    }
    assert(enters(visits, source, parent));
    let k = choose|k: int| 0 <= k < visits.len() && #[trigger] visits[k] == (Visit { source, parent });
    assert(is_node_of(nodes, visits, k, visits.len(), a.nodes@[k]));
    k
}

/// A node's children in the scene are the nodes that have it as their parent, and the roots those
/// that have none.
pub proof fn law_children_and_parents_agree(
    nodes: Seq<NodeData>,
    roots: Seq<usize>,
    animations: Seq<AnimationData>,
    joints: Seq<usize>,
    a: AnimatedScene,
    p: usize,
    k: usize,
)
    requires
        is_scene_of(nodes, roots, animations, joints, a),
        p < a.nodes@.len() <= usize::MAX,
        k < a.nodes@.len(),
    ensures
        a.nodes@[p as int].children@.contains(k) <==> a.nodes@[k as int].parent == Some(p),
        a.roots@.contains(k) <==> a.nodes@[k as int].parent is None,
{
    let visits = walk_all(nodes, roots, None, 0, nodes.len());
    assert(is_node_of(nodes, visits, p as int, visits.len(), a.nodes@[p as int]));
    assert(is_node_of(nodes, visits, k as int, visits.len(), a.nodes@[k as int]));
    lemma_children_have_their_parent(visits, Some(p), visits.len(), k);
    lemma_children_have_their_parent(visits, None, visits.len(), k);
}

/// The first index that names no vertex is where the search stops, and all before it do name one.
proof fn lemma_first_bad_is_first(indices: Seq<u32>, vertices: nat)
    ensures
        ({
            let bad = first_bad(indices, vertices);
            &&& bad <= indices.len()
            &&& bad < indices.len() ==> indices[bad as int] >= vertices
            &&& forall|i: int| 0 <= i < bad ==> (#[trigger] indices[i]) < vertices
        }),
    decreases indices.len(),
{
    if indices.len() > 0 && indices[0] < vertices {
        let rest = indices.drop_first();
        lemma_first_bad_is_first(rest, vertices);
        assert forall|i: int| 0 <= i < first_bad(indices, vertices) implies (#[trigger] indices[i])
            < vertices by {
            if i > 0 {
                assert(indices[i] == rest[i - 1]);
            }
        }
    }
}

/// A primitive is loaded unless it has no positions, its indices do not make up triangles, or one
/// of them names no vertex. One without vertices comes to nothing.
pub proof fn law_primitive_loads_where_its_indices_fit(
    p: PrimitiveData,
    indices: Seq<u32>,
    r: Result<Option<Mesh>, Error>,
)
    requires
        loads_as(p, r),
        p.indices is Some,
        indices == p.indices->0@,
    ensures
        r is Ok <==> p.positions is Some && (p.positions->0@.len() == 0 || indices.len() % 3 == 0
            && forall|i: int|
            0 <= i < indices.len() ==> (#[trigger] indices[i]) < p.positions->0@.len()),
        r is Ok ==> (r->Ok_0 is None <==> p.positions->0@.len() == 0),
{
    if p.positions is Some {
        lemma_first_bad_is_first(indices, p.positions->0@.len());
    }
}

/// A loaded primitive keeps its vertices: each in its place, with its own position and its own
/// normal, or a zero normal where there is none for it.
pub proof fn law_primitive_keeps_its_vertices(
    p: PrimitiveData,
    r: Result<Option<Mesh>, Error>,
    i: int,
)
    requires
        loads_as(p, r),
        r is Ok,
        r->Ok_0 is Some,
        0 <= i < p.positions->0@.len(),
    ensures
        ({
            let mesh = r->Ok_0->0;
            &&& mesh.vertices@.len() == p.positions->0@.len()
            &&& mesh.vertices@[i].position == p.positions->0@[i]
            &&& p.normals is Some && i < p.normals->0@.len() ==> mesh.vertices@[i].normal
                == p.normals->0@[i]
            &&& p.normals is None || i >= p.normals->0@.len() ==> mesh.vertices@[i].normal
                == Vec3::zero()
        }),
{
}

/// A loaded primitive keeps its triangles: those that it lists, or each three vertices in turn where
/// it lists none.
pub proof fn law_primitive_keeps_its_triangles(
    p: PrimitiveData,
    r: Result<Option<Mesh>, Error>,
    k: int,
)
    requires
        p.positions is Some ==> p.positions->0@.len() <= u32::MAX,
        loads_as(p, r),
        r is Ok,
        r->Ok_0 is Some,
        0 <= k < r->Ok_0->0.indices@.len(),
    ensures
        ({
            let mesh = r->Ok_0->0;
            let corner = mesh.vertices@[mesh.indices@[k] as int].position;
            &&& p.indices is Some ==> mesh.indices@.len() == p.indices->0@.len() && corner
                == p.positions->0@[p.indices->0@[k] as int]
            &&& p.indices is None ==> mesh.indices@.len() == p.positions->0@.len() && corner
                == p.positions->0@[k]
        }),
{
    lemma_first_bad_is_first(indices_of(p), p.positions->0@.len());
}

proof fn lemma_node_places(primitives: Seq<PrimitiveData>, step: int, m: nat, place: (int, int))
    requires
        m <= primitives.len(),
    ensures
        node_places(primitives, step, m).contains(place) <==> place.0 == step && 0 <= place.1 < m
            && primitives[place.1].triangles,
    decreases m,
{
    if m > 0 {
        let before = node_places(primitives, step, (m - 1) as nat);
        lemma_node_places(primitives, step, (m - 1) as nat, place);
        if primitives[m - 1].triangles {
            lemma_pushed_contains(before, (step, m - 1), place);
        }
    }
}

proof fn lemma_pushed_contains<A>(s: Seq<A>, new: A, x: A)
    ensures
        s.push(new).contains(x) <==> s.contains(x) || x == new,
{
    let all = s.push(new);
    assert(all[s.len() as int] == new);
    if s.contains(x) {
        let i = choose|i: int| 0 <= i < s.len() && s[i] == x;
        assert(all[i] == x);
    }
    if all.contains(x) && x != new {
        let i = choose|i: int| 0 <= i < all.len() && all[i] == x;
        assert(s[i] == x);
    }
}

proof fn lemma_primitive_places(
    nodes: Seq<NodeData>,
    visits: Seq<Visit>,
    n: nat,
    place: (int, int),
)
    requires
        n <= visits.len(),
    ensures
        primitive_places(nodes, visits, n).contains(place) <==> 0 <= place.0 < n && 0 <= place.1
            < nodes[visits[place.0].source as int].primitives@.len() && primitive_at(
            nodes,
            visits,
            place,
        ).triangles,
    decreases n,
{
    if n > 0 {
        let before = primitive_places(nodes, visits, (n - 1) as nat);
        let primitives = nodes[visits[n - 1].source as int].primitives@;
        let own = node_places(primitives, n - 1, primitives.len());
        lemma_primitive_places(nodes, visits, (n - 1) as nat, place);
        lemma_node_places(primitives, n - 1, primitives.len(), place);
        let all = before + own;
        if before.contains(place) {
            let i = choose|i: int| 0 <= i < before.len() && before[i] == place;
            assert(all[i] == place);
        }
        if own.contains(place) {
            let i = choose|i: int| 0 <= i < own.len() && own[i] == place;
            assert(all[before.len() + i] == place);
        }
        if all.contains(place) {
            let i = choose|i: int| 0 <= i < all.len() && all[i] == place;
            assert(i < before.len() ==> before[i] == place);
            assert(i >= before.len() ==> own[i - before.len()] == place);
        }
    }
}

proof fn lemma_filled_places(
    nodes: Seq<NodeData>,
    visits: Seq<Visit>,
    places: Seq<(int, int)>,
    place: (int, int),
)
    ensures
        filled_places(nodes, visits, places).contains(place) <==> places.contains(place)
            && !is_empty_primitive(primitive_at(nodes, visits, place)),
    decreases places.len(),
{
    if places.len() > 0 {
        let rest = places.drop_last();
        lemma_filled_places(nodes, visits, rest, place);
        lemma_pushed_contains(rest, places.last(), place);
        assert(rest.push(places.last()) =~= places);
        lemma_pushed_contains(filled_places(nodes, visits, rest), places.last(), place);
    }
}

/// Every instance draws a triangle primitive of the document's node that its own node stands for,
/// in that primitive's color. The primitive's number is returned.
pub proof fn law_instances_draw_their_nodes_primitives(
    nodes: Seq<NodeData>,
    roots: Seq<usize>,
    animations: Seq<AnimationData>,
    joints: Seq<usize>,
    a: AnimatedScene,
    i: int,
) -> (number: int)
    requires
        is_scene_of(nodes, roots, animations, joints, a),
        0 <= i < a.instances@.len(),
    ensures
        0 <= a.instances@[i].node < a.nodes@.len(),
        ({
            let own = nodes[sources_of(nodes, roots)[a.instances@[i].node as int] as int];
            let p = own.primitives@[number];
            &&& 0 <= number < own.primitives@.len()
            &&& p.triangles
            &&& p.positions is Some
            &&& p.positions->0@.len() > 0
            &&& a.instances@[i].base_color == p.base_color
            &&& loads_as(p, Ok(Some(a.instances@[i].mesh)))
        }),
{
    let visits = walk_all(nodes, roots, None, 0, nodes.len());
    let places = primitive_places(nodes, visits, visits.len());
    let filled = filled_places(nodes, visits, places);
    assert(is_instance_of(nodes, visits, filled[i], a.instances@[i]));
    assert(filled.contains(filled[i]));
    lemma_filled_places(nodes, visits, places, filled[i]);
    lemma_primitive_places(nodes, visits, visits.len(), filled[i]);
    filled[i].1
}

/// Every triangle primitive with vertices is drawn by an instance on each node that stands for its
/// own. The instance is returned.
pub proof fn law_every_primitive_is_drawn(
    nodes: Seq<NodeData>,
    roots: Seq<usize>,
    animations: Seq<AnimationData>,
    joints: Seq<usize>,
    a: AnimatedScene,
    step: int,
    number: int,
) -> (i: int)
    requires
        is_scene_of(nodes, roots, animations, joints, a),
        0 <= step < a.nodes@.len(),
        0 <= number < nodes[sources_of(nodes, roots)[step] as int].primitives@.len(),
        ({
            let p = nodes[sources_of(nodes, roots)[step] as int].primitives@[number];
            p.triangles && (p.positions is Some ==> p.positions->0@.len() > 0)
        }),
    ensures
        0 <= i < a.instances@.len(),
        a.instances@[i].node == step,
        ({
            let p = nodes[sources_of(nodes, roots)[step] as int].primitives@[number];
            &&& a.instances@[i].base_color == p.base_color
            &&& loads_as(p, Ok(Some(a.instances@[i].mesh)))
        }),
{
    let visits = walk_all(nodes, roots, None, 0, nodes.len());
    let places = primitive_places(nodes, visits, visits.len());
    let filled = filled_places(nodes, visits, places);
    lemma_filled_places(nodes, visits, places, (step, number));
    lemma_primitive_places(nodes, visits, visits.len(), (step, number));
    let i = choose|i: int| 0 <= i < filled.len() && filled[i] == (step, number);
    assert(is_instance_of(nodes, visits, filled[i], a.instances@[i]));
    i
}

proof fn lemma_last_entry(visits: Seq<Visit>, source: usize, n: nat)
    requires
        n <= visits.len() <= usize::MAX,
    ensures
        match last_entry(visits, source, n) {
            Some(k) => k < n && visits[k as int].source == source && forall|j: int|
                k < j < n ==> (#[trigger] visits[j]).source != source,
            None => forall|k: int| 0 <= k < n ==> (#[trigger] visits[k]).source != source,
        },
    decreases n,
{
    if n > 0 {
        lemma_last_entry(visits, source, (n - 1) as nat);
    }
}

proof fn lemma_played(channels: Seq<ChannelData>, map: NodeMap, n: nat, k: int)
    requires
        n <= channels.len(),
    ensures
        played(channels, map, n).contains(k) <==> 0 <= k < n && is_played(channels[k], map),
    decreases n,
{
    if n > 0 {
        lemma_played(channels, map, (n - 1) as nat, k);
        lemma_pushed_contains(played(channels, map, (n - 1) as nat), n - 1, k);
    }
}

/// Whether a channel of the scene plays that channel of the document: on the last node that stands
/// for the one it targets, at its times, and with its own values where it has no tangents.
pub open spec fn drives(sources: Seq<usize>, c: ChannelData, a: AnimChannel) -> bool {
    &&& a.node < sources.len()
    &&& sources[a.node as int] == c.node
    &&& forall|k: int| a.node < k < sources.len() ==> #[trigger] sources[k] != c.node
    &&& c.times is Some
    &&& a.times@ == c.times->0@
    &&& a.interpolation is Step <==> c.interpolation is Step
    &&& match (c.outputs, a.samples) {
        (Some(ChannelOutputs::Translations(v)), ChannelSamples::Translation(w)) =>
            !(c.interpolation is CubicSpline) ==> w@ == v@,
        (Some(ChannelOutputs::Rotations(v)), ChannelSamples::Rotation(w)) =>
            !(c.interpolation is CubicSpline) ==> w@ == v@,
        (Some(ChannelOutputs::Scales(v)), ChannelSamples::Scale(w)) =>
            !(c.interpolation is CubicSpline) ==> w@ == v@,
        _ => false,
    }
}

/// Every channel of the scene's animations plays a channel of the same animation of the document.
/// That channel is returned.
pub proof fn law_channels_drive_what_they_target(
    nodes: Seq<NodeData>,
    roots: Seq<usize>,
    animations: Seq<AnimationData>,
    joints: Seq<usize>,
    a: AnimatedScene,
    i: int,
    k: int,
) -> (c: int)
    requires
        is_scene_of(nodes, roots, animations, joints, a),
        a.nodes@.len() <= usize::MAX,
        0 <= i < a.animations@.len(),
        0 <= k < a.animations@[i].channels@.len(),
    ensures
        a.animations@.len() == animations.len(),
        0 <= c < animations[i].channels@.len(),
        drives(sources_of(nodes, roots), animations[i].channels@[c], a.animations@[i].channels@[k]),
{
    let visits = walk_all(nodes, roots, None, 0, nodes.len());
    let map = choose|map: NodeMap| #[trigger]
        numbers(map, visits) && plays_all(animations, map, joints, a.animations@);
    let channels = animations[i].channels@;
    let list = played(channels, map, channels.len());
    let steps = joint_steps(joints, map, joints.len());
    assert(plays_animation(animations[i], map, steps, i, a.animations@[i]));
    assert(list.contains(list[k]));
    lemma_played(channels, map, channels.len(), list[k]);
    let c = channels[list[k]];
    assert(plays(c, map, a.animations@[i].channels@[k]));
    assert(map.step_of(c.node) == last_entry(visits, c.node, visits.len()));
    lemma_last_entry(visits, c.node, visits.len());
    list[k]
}

/// Every channel that targets a node of the scene, and has times and values to play, is played. The
/// channel that plays it is returned.
pub proof fn law_every_readable_channel_is_played(
    nodes: Seq<NodeData>,
    roots: Seq<usize>,
    animations: Seq<AnimationData>,
    joints: Seq<usize>,
    a: AnimatedScene,
    i: int,
    c: int,
) -> (k: int)
    requires
        is_scene_of(nodes, roots, animations, joints, a),
        a.nodes@.len() <= usize::MAX,
        0 <= i < animations.len(),
        0 <= c < animations[i].channels@.len(),
        sources_of(nodes, roots).contains(animations[i].channels@[c].node),
        animations[i].channels@[c].times is Some,
        animations[i].channels@[c].times->0@.len() > 0,
        animations[i].channels@[c].outputs is Some,
        !(animations[i].channels@[c].outputs->0 is MorphTargetWeights),
    ensures
        a.animations@.len() == animations.len(),
        0 <= k < a.animations@[i].channels@.len(),
        drives(sources_of(nodes, roots), animations[i].channels@[c], a.animations@[i].channels@[k]),
{
    let visits = walk_all(nodes, roots, None, 0, nodes.len());
    let sources = sources_of(nodes, roots);
    let map = choose|map: NodeMap| #[trigger]
        numbers(map, visits) && plays_all(animations, map, joints, a.animations@);
    let channels = animations[i].channels@;
    let list = played(channels, map, channels.len());
    let steps = joint_steps(joints, map, joints.len());
    assert(plays_animation(animations[i], map, steps, i, a.animations@[i]));
    let node = channels[c].node;
    assert(map.step_of(node) == last_entry(visits, node, visits.len()));
    lemma_last_entry(visits, node, visits.len());
    let at = choose|at: int| 0 <= at < sources.len() && sources[at] == node;
    assert(visits[at].source == node);
    lemma_played(channels, map, channels.len(), c);
    let k = choose|k: int| 0 <= k < list.len() && list[k] == c;
    assert(plays(channels[c], map, a.animations@[i].channels@[k]));
    k
}

proof fn lemma_latest_end(channels: Seq<ChannelData>, map: NodeMap, n: nat)
    requires
        n <= channels.len(),
    ensures
        !latest_end(channels, map, n).spec_lt(Single::zero()),
        forall|k: int|
            0 <= k < n && is_played(#[trigger] channels[k], map) ==> !latest_end(
                channels,
                map,
                n,
            ).spec_lt(channels[k].times->0@.last()),
        latest_end(channels, map, n) == Single::zero() || exists|k: int|
            0 <= k < n && is_played(#[trigger] channels[k], map) && latest_end(channels, map, n)
                == channels[k].times->0@.last(),
    decreases n,
{
    if n > 0 {
        lemma_latest_end(channels, map, (n - 1) as nat);
    }
}

/// An animation lasts until the last of its keyframes: no channel goes on beyond its end, and it
/// ends with a channel or has no length.
pub proof fn law_animation_lasts_until_its_last_keyframe(
    d: AnimationData,
    map: NodeMap,
    joints: Set<usize>,
    i: int,
    a: SceneAnimation,
)
    requires
        plays_animation(d, map, joints, i, a),
    ensures
        forall|k: int|
            0 <= k < a.channels@.len() ==> !a.duration.spec_lt(
                (#[trigger] a.channels@[k]).times@.last(),
            ),
        a.duration == Single::zero() || exists|k: int|
            0 <= k < a.channels@.len() && a.duration == (#[trigger] a.channels@[k]).times@.last(),
{
    let channels = d.channels@;
    let list = played(channels, map, channels.len());
    lemma_latest_end(channels, map, channels.len());
    assert forall|k: int| 0 <= k < a.channels@.len() implies !a.duration.spec_lt(
        (#[trigger] a.channels@[k]).times@.last(),
    ) by {
        assert(plays(channels[list[k]], map, a.channels@[k]));
        assert(list.contains(list[k]));
        lemma_played(channels, map, channels.len(), list[k]);
    }
    if a.duration != Single::zero() {
        let c = choose|c: int|
            0 <= c < channels.len() && is_played(#[trigger] channels[c], map) && a.duration
                == channels[c].times->0@.last();
        lemma_played(channels, map, channels.len(), c);
        let k = choose|k: int| 0 <= k < list.len() && list[k] == c;
        assert(plays(channels[c], map, a.channels@[k]));
    }
}

proof fn lemma_joint_steps(joints: Seq<usize>, map: NodeMap, n: nat, step: usize)
    requires
        n <= joints.len(),
    ensures
        joint_steps(joints, map, n).contains(step) <==> exists|j: int|
            0 <= j < n && map.step_of(#[trigger] joints[j]) == Some(step),
    decreases n,
{
    if n > 0 {
        lemma_joint_steps(joints, map, (n - 1) as nat, step);
        let before = joint_steps(joints, map, (n - 1) as nat);
        if joint_steps(joints, map, n).contains(step) && !before.contains(step) {
            assert(map.step_of(joints[n - 1]) == Some(step));
        }
    }
}

/// An animation counts as skinned exactly where one of its channels targets a node that the scene
/// reaches as a joint.
pub proof fn law_animation_is_skinned_where_it_moves_a_joint(
    data: Seq<AnimationData>,
    map: NodeMap,
    joints: Seq<usize>,
    list: Seq<SceneAnimation>,
    i: int,
)
    requires
        plays_all(data, map, joints, list),
        0 <= i < list.len(),
    ensures
        list[i].skinned <==> exists|c: int, j: int|
            0 <= c < data[i].channels@.len() && 0 <= j < joints.len() && map.step_of(
                #[trigger] joints[j],
            ) is Some && map.step_of(joints[j]) == map.step_of(
                (#[trigger] data[i].channels@[c]).node,
            ),
{
    let steps = joint_steps(joints, map, joints.len());
    let channels = data[i].channels@;
    assert(plays_animation(data[i], map, steps, i, list[i]));
    assert forall|c: int| 0 <= c < channels.len() && map.step_of((#[trigger] channels[c]).node) is Some
        implies steps.contains(map.step_of(channels[c].node)->0) == exists|j: int|
        0 <= j < joints.len() && map.step_of(#[trigger] joints[j]) == map.step_of(channels[c].node) by {
        lemma_joint_steps(joints, map, joints.len(), map.step_of(channels[c].node)->0);
    }
    if list[i].skinned {
        let c = choose|c: int|
            0 <= c < channels.len() && map.step_of((#[trigger] channels[c]).node) is Some
                && steps.contains(map.step_of(channels[c].node)->0);
        let j = choose|j: int|
            0 <= j < joints.len() && map.step_of(#[trigger] joints[j]) == map.step_of(
                channels[c].node,
            );
        assert(map.step_of(joints[j]) is Some && map.step_of(joints[j]) == map.step_of(channels[c].node));
    }
}

/// The statistics of an asset count each thing for itself: meshes, vertices and triangles as they are in
/// the scene, materials as declared, and one entry for each animation and each instance, in order.
pub proof fn law_statistics_count_each_thing(
    scene: Scene,
    animated: AnimatedScene,
    material_count: usize,
    sphere: Option<BoundingSphere>,
    s: GltfStats,
    i: int,
)
    requires
        sums_up(scene, animated, material_count, sphere, s),
    ensures
        s.mesh_count == scene.meshes@.len(),
        s.vertex_count == vertex_sum(scene.meshes@),
        s.triangle_count == triangle_sum(scene.meshes@),
        s.material_count == material_count,
        s.animation_count == animated.animations@.len(),
        s.animations@.len() == animated.animations@.len(),
        s.base_colors@.len() == animated.instances@.len(),
        0 <= i < animated.animations@.len() ==> {
            &&& s.animations@[i].name@ == animated.animations@[i].name@
            &&& s.animations@[i].duration == animated.animations@[i].duration
            &&& s.animations@[i].skinned == animated.animations@[i].skinned
        },
        0 <= i < animated.instances@.len() ==> s.base_colors@[i] == animated.instances@[i].base_color,
        s.bounding_box is None ==> s.bounding_sphere is None,
        s.bounding_box is Some ==> s.bounding_sphere == sphere,
{
    if 0 <= i < animated.animations@.len() {
        let a = s.animations@[i];
    }
}

} // verus!
