//! Rigid node-transform animation for glTF scenes.
//!
//! Animations drive node translation, rotation and scale over time. Here is the data model of a
//! posable scene, and the rules that pick the keyframes around a moment and the nodes they drive;
//! blending the picked keyframes and composing transforms is arithmetic done elsewhere.

use crate::geometry::{Mesh, Vec3};
use crate::single::Single;
use vstd::prelude::*;

verus! {

/// A rotation.
#[derive(Clone, Copy, Debug, PartialEq, Eq, Structural)]
pub struct Quat {
    /// The first imaginary part.
    pub x: Single,
    /// The second imaginary part.
    pub y: Single,
    /// The third imaginary part.
    pub z: Single,
    /// The real part.
    pub w: Single,
}

/// A node's local transform, decomposed into translation / rotation / scale.
#[derive(Clone, Copy, Debug, PartialEq, Eq, Structural)]
pub struct NodeTransform {
    /// Translation.
    pub translation: Vec3,
    /// Rotation.
    pub rotation: Quat,
    /// Non-uniform scale.
    pub scale: Vec3,
}

impl NodeTransform {
    /// The identity transform (no translation, no rotation, unit scale).
    #[verifier::allow_in_spec]
    pub fn identity() -> NodeTransform
        returns
            (NodeTransform {
                translation: Vec3::zero(),
                rotation: Quat {
                    x: Single::zero(),
                    y: Single::zero(),
                    z: Single::zero(),
                    w: Single::one(),
                },
                scale: Vec3 { x: Single::one(), y: Single::one(), z: Single::one() },
            }),
    {
        NodeTransform {
            translation: Vec3::zero(),
            rotation: Quat {
                x: Single::zero(),
                y: Single::zero(),
                z: Single::zero(),
                w: Single::one(),
            },
            scale: Vec3 { x: Single::one(), y: Single::one(), z: Single::one() },
        }
    }

    /// Builds a transform from a decomposed triple (`rotation` as `[x, y, z, w]`).
    pub fn from_trs(translation: [Single; 3], rotation: [Single; 4], scale: [Single; 3]) -> (t:
        NodeTransform)
        ensures
            t.translation == (Vec3 { x: translation[0], y: translation[1], z: translation[2] }),
            t.rotation == (Quat { x: rotation[0], y: rotation[1], z: rotation[2], w: rotation[3] }),
            t.scale == (Vec3 { x: scale[0], y: scale[1], z: scale[2] }),
    {
        NodeTransform {
            translation: Vec3 { x: translation[0], y: translation[1], z: translation[2] },
            rotation: Quat { x: rotation[0], y: rotation[1], z: rotation[2], w: rotation[3] },
            scale: Vec3 { x: scale[0], y: scale[1], z: scale[2] },
        }
    }
}

impl Default for NodeTransform {
    fn default() -> (t: NodeTransform)
        ensures
            t == NodeTransform::identity(),
    {
        NodeTransform::identity()
    }
}

/// How a channel's keyframe values are blended between samples.
#[derive(Clone, Copy, Debug, PartialEq, Eq, Structural)]
pub enum Interpolation {
    /// Linearly interpolate between the bracketing samples.
    Linear,
    /// Hold the earlier sample's value until the next keyframe (no blending).
    Step,
}

/// The keyframe output values of a channel, tagged by which component they drive.
#[derive(Clone, Debug)]
pub enum ChannelSamples {
    /// Translation keyframes.
    Translation(Vec<Vec3>),
    /// Rotation keyframes.
    Rotation(Vec<Quat>),
    /// Scale keyframes.
    Scale(Vec<Vec3>),
}

/// One animation channel: keyframe times plus the values they drive on a single node's transform.
#[derive(Clone, Debug)]
pub struct AnimChannel {
    /// The node this channel animates.
    pub node: usize,
    /// How values are blended between keyframes.
    pub interpolation: Interpolation,
    /// Keyframe times, in seconds, ascending. Parallel to the values in `samples`.
    pub times: Vec<Single>,
    /// The per-keyframe output values and the component they target.
    pub samples: ChannelSamples,
}

/// Whether the times are numbers and none is smaller than one before it.
pub open spec fn ascending(times: Seq<Single>) -> bool {
    forall|i: int, j: int|
        0 <= i <= j < times.len() ==> (#[trigger] times[i]).spec_le(#[trigger] times[j])
}

/// Whether `(i0, i1)` are the keyframes around the moment `t`: the same one twice at and beyond
/// either end, else two neighbours of which the first is reached and the second is not. A moment that
/// is not a number reaches nothing, and lies behind the first keyframe.
pub open spec fn brackets(times: Seq<Single>, t: Single, i0: int, i1: int) -> bool {
    let last = times.len() - 1;
    if last == 0 || t.spec_le(times[0]) {
        i0 == 0 && i1 == 0
    } else if times[last].spec_le(t) {
        i0 == last && i1 == last
    } else {
        &&& 0 <= i0 < last
        &&& i1 == i0 + 1
        &&& i0 == 0 || times[i0].spec_le(t)
        &&& !times[i1].spec_le(t)
    }
}

/// In ascending times, a moment between the first and the last lies in its bracket, from the first
/// keyframe of it up to but not at the second.
pub proof fn law_moment_lies_in_its_bracket(times: Seq<Single>, t: Single, i0: int, i1: int)
    requires
        times.len() > 0,
        ascending(times),
        times[0].spec_lt(t),
        t.spec_lt(times.last()),
        brackets(times, t, i0, i1),
    ensures
        i1 == i0 + 1,
        times[i0].spec_le(t),
        t.spec_lt(times[i1]),
{
    assert(times[0].spec_le(times[i1]));
}

/// In ascending times, exactly one pair of keyframes is around each moment.
pub proof fn law_bracket_is_unique(
    times: Seq<Single>,
    t: Single,
    i0: int,
    i1: int,
    j0: int,
    j1: int,
)
    requires
        times.len() > 0,
        ascending(times),
        brackets(times, t, i0, i1),
        brackets(times, t, j0, j1),
    ensures
        i0 == j0 && i1 == j1,
{
    if i0 < j0 && i1 == i0 + 1 && j1 == j0 + 1 {
        assert(times[i1].spec_le(times[j0]));
    }
    if j0 < i0 && i1 == i0 + 1 && j1 == j0 + 1 {
        assert(times[j1].spec_le(times[i0]));
    }
}

/// Locates the keyframe segment containing `t`.
///
/// Clamps to the endpoints: before the first and from the last keyframe on it returns that
/// endpoint twice.
pub fn locate(times: &[Single], t: Single) -> (r: (usize, usize))
    requires
        times@.len() > 0,
    ensures
        brackets(times@, t, r.0 as int, r.1 as int),
{
    let n: usize = times.len();
    if n == 1 || t.le(times[0]) {
        return (0, 0);
    }
    if times[n - 1].le(t) {
        return (n - 1, n - 1);
    }
    // The last time is not reached: halve the distance between the first and it.
    let mut lo: usize = 0;
    let mut hi: usize = n - 1;
    while lo + 1 < hi
        invariant
            lo < hi < n,
            n == times@.len(),
            lo == 0 || times@[lo as int].spec_le(t),
            !times@[hi as int].spec_le(t),
        decreases hi - lo,
    {
        let mid: usize = lo + (hi - lo) / 2;
        if times[mid].le(t) {
            lo = mid;
        } else {
            hi = mid;
        }
    }
    (lo, hi)
}

/// One named animation: a collection of channels plus its total duration.
#[derive(Clone, Debug)]
pub struct SceneAnimation {
    /// The animation's name.
    pub name: String,
    /// The animation length in seconds (the largest keyframe time across its channels).
    pub duration: Single,
    /// Whether this animation targets skinned nodes (joints). Skinning itself is not applied.
    pub skinned: bool,
    /// The per-node channels.
    pub channels: Vec<AnimChannel>,
}

/// A node in the animated scene hierarchy, holding its default local transform and its links.
#[derive(Clone, Debug)]
pub struct SceneNode {
    /// The node's name, if the asset provided one.
    pub name: Option<String>,
    /// The node's default (un-animated) local transform.
    pub local: NodeTransform,
    /// Index of this node's parent, or `None` for a root.
    pub parent: Option<usize>,
    /// Indices of this node's children.
    pub children: Vec<usize>,
}

/// A mesh attached to a node, with its vertices in node-local space.
#[derive(Clone, Debug)]
pub struct MeshInstance {
    /// The node this mesh rides on.
    pub node: usize,
    /// The local-space triangle mesh.
    pub mesh: Mesh,
    /// The primitive's base color RGBA factor.
    pub base_color: [Single; 4],
}

/// An animated scene: a node hierarchy, its mesh instances, and its animations.
#[derive(Clone, Debug)]
pub struct AnimatedScene {
    /// A human-readable name (e.g. the file stem).
    pub name: String,
    /// The node hierarchy, in depth-first pre-order (parents precede their children).
    pub nodes: Vec<SceneNode>,
    /// The root node indices.
    pub roots: Vec<usize>,
    /// The mesh instances, each attached to a node by index.
    pub instances: Vec<MeshInstance>,
    /// The animations declared by the asset.
    pub animations: Vec<SceneAnimation>,
}

/// A lightweight summary of one animation.
#[derive(Clone, Debug)]
pub struct AnimationInfo {
    /// The animation name.
    pub name: String,
    /// The animation duration in seconds.
    pub duration: Single,
    /// Whether the animation targets skinned nodes (node motion only is played).
    pub skinned: bool,
}

impl AnimatedScene {
    /// Whether every parent comes before its children, and every mesh rides on a node that is there.
    pub open spec fn wf(&self) -> bool {
        &&& forall|i: int|
            #![trigger self.nodes@[i]]
            0 <= i < self.nodes@.len() && self.nodes@[i].parent is Some
                ==> self.nodes@[i].parent->0 < i
        &&& forall|k: int|
            0 <= k < self.instances@.len() ==> (#[trigger] self.instances@[k]).node
                < self.nodes@.len()
    }

    /// Whether the scene carries at least one animation.
    pub fn has_animations(&self) -> (b: bool)
        ensures
            b == (self.animations@.len() > 0),
    {
        self.animations.len() > 0
    }

    /// The names, durations, and skinning flags of the animations.
    pub fn animation_infos(&self) -> (infos: Vec<AnimationInfo>)
        ensures
            infos@.len() == self.animations@.len(),
            forall|i: int|
                #![trigger infos@[i]]
                0 <= i < infos@.len() ==> infos@[i].name@ == self.animations@[i].name@
                    && infos@[i].duration == self.animations@[i].duration && infos@[i].skinned
                    == self.animations@[i].skinned,
    {
        let mut infos: Vec<AnimationInfo> = Vec::new();
        let mut i: usize = 0;
        while i < self.animations.len()
            invariant
                i <= self.animations@.len(),
                infos@.len() == i,
                forall|k: int|
                    #![trigger infos@[k]]
                    0 <= k < i ==> infos@[k].name@ == self.animations@[k].name@ && infos@[k].duration
                        == self.animations@[k].duration && infos@[k].skinned
                        == self.animations@[k].skinned,
            decreases self.animations@.len() - i,
        {
            let a = &self.animations[i];
            infos.push(
                AnimationInfo {
                    name: a.name.clone(),
                    duration: a.duration,
                    skinned: a.skinned,
                },
            );
            i = i + 1;
        }
        infos
    }
}

} // verus!
