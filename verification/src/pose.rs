//! Posing an animated scene: sampling its channels, composing its transforms, placing its vertices.
//!
//! Matrices, and blending between keyframes, are arithmetic that is handed in as closures. Which
//! keyframes are blended on which node, the order in which transforms are composed, and what becomes
//! of the meshes, are decided here.

use crate::anim::{
    ascending, brackets, law_bracket_is_unique, locate, AnimChannel, AnimatedScene, ChannelSamples,
    Interpolation, NodeTransform, Quat, SceneAnimation,
};
use crate::geometry::{Mesh, Scene, Vec3, Vertex};
use crate::single::Single;
use crate::text::copied;
use vstd::prelude::*;
use vstd::string::*;

verus! {

/// A moment, and the times of the keyframes around it.
#[derive(Clone, Copy, Debug, PartialEq, Eq, Structural)]
pub struct Moment {
    /// The time of the keyframe before.
    pub from: Single,
    /// The time of the keyframe behind.
    pub to: Single,
    /// The moment.
    pub at: Single,
}

/// The arithmetic of posing.
pub struct PoseMath<W, L, S, X, C, P> {
    /// Wraps a time into a duration that is not zero.
    pub wrap: W,
    /// Blends between two vectors.
    pub lerp: L,
    /// Blends between two rotations.
    pub slerp: S,
    /// The matrix of a transform.
    pub matrix: X,
    /// The matrix of a child, from its parent's and its own.
    pub compose: C,
    /// A vertex, moved by a matrix.
    pub place: P,
}

/// Whether `after` is what a channel with these values makes of `before`, given the keyframes around
/// the moment: the earlier value where it is held, else a blend of both. Where a value is absent,
/// nothing changes.
pub open spec fn samples_to<T, B: Fn(T, T, Moment) -> T>(
    values: Seq<T>,
    interpolation: Interpolation,
    i0: int,
    i1: int,
    moment: Moment,
    before: T,
    after: T,
    blend: B,
) -> bool {
    match interpolation {
        Interpolation::Step => after == if i0 < values.len() {
            values[i0]
        } else {
            before
        },
        Interpolation::Linear => if i0 < values.len() && i1 < values.len() {
            call_ensures(blend, (values[i0], values[i1], moment), after)
        } else {
            after == before
        },
    }
}

/// Whether `after` is what the channel makes of the transform `before` at the moment `t`, where
/// `(i0, i1)` are the keyframes around it. Only the component that the channel drives changes.
pub open spec fn drives_to<L: Fn(Vec3, Vec3, Moment) -> Vec3, S: Fn(Quat, Quat, Moment) -> Quat>(
    channel: AnimChannel,
    t: Single,
    i0: int,
    i1: int,
    before: NodeTransform,
    after: NodeTransform,
    lerp: L,
    slerp: S,
) -> bool {
    let m = Moment { from: channel.times@[i0], to: channel.times@[i1], at: t };
    let how = channel.interpolation;
    match channel.samples {
        ChannelSamples::Translation(v) => {
            &&& after == NodeTransform { translation: after.translation, ..before }
            &&& samples_to(v@, how, i0, i1, m, before.translation, after.translation, lerp)
        },
        ChannelSamples::Rotation(v) => {
            &&& after == NodeTransform { rotation: after.rotation, ..before }
            &&& samples_to(v@, how, i0, i1, m, before.rotation, after.rotation, slerp)
        },
        ChannelSamples::Scale(v) => {
            &&& after == NodeTransform { scale: after.scale, ..before }
            &&& samples_to(v@, how, i0, i1, m, before.scale, after.scale, lerp)
        },
    }
}

/// Whether `after` is what the channel makes of the transform `before` at the moment `t`.
pub open spec fn applies<L: Fn(Vec3, Vec3, Moment) -> Vec3, S: Fn(Quat, Quat, Moment) -> Quat>(
    channel: AnimChannel,
    t: Single,
    before: NodeTransform,
    after: NodeTransform,
    lerp: L,
    slerp: S,
) -> bool {
    if channel.times@.len() == 0 {
        after == before
    } else {
        exists|i0: int, i1: int| #[trigger]
            brackets(channel.times@, t, i0, i1) && drives_to(
                channel,
                t,
                i0,
                i1,
                before,
                after,
                lerp,
                slerp,
            )
    }
}

/// Whether both blends can be asked for.
pub open spec fn blends<L: Fn(Vec3, Vec3, Moment) -> Vec3, S: Fn(Quat, Quat, Moment) -> Quat>(
    lerp: L,
    slerp: S,
) -> bool {
    &&& forall|a: Vec3, b: Vec3, m: Moment| #[trigger] call_requires(lerp, (a, b, m))
    &&& forall|a: Quat, b: Quat, m: Moment| #[trigger] call_requires(slerp, (a, b, m))
}

/// The value of a channel between two keyframes.
fn sample<T: Copy, B: Fn(T, T, Moment) -> T>(
    values: &[T],
    interpolation: Interpolation,
    i0: usize,
    i1: usize,
    moment: Moment,
    before: T,
    blend: &B,
) -> (after: T)
    requires
        forall|a: T, b: T, m: Moment| #[trigger] call_requires(*blend, (a, b, m)),
    ensures
        samples_to(values@, interpolation, i0 as int, i1 as int, moment, before, after, *blend),
{
    match interpolation {
        Interpolation::Step => if i0 < values.len() {
            values[i0]
        } else {
            before
        },
        Interpolation::Linear => if i0 < values.len() && i1 < values.len() {
            blend(values[i0], values[i1], moment)
        } else {
            before
        },
    }
}

impl AnimChannel {
    /// Samples this channel at time `t` and writes the result into the matching component of `out`.
    /// A no-op for an empty channel.
    pub fn apply<L: Fn(Vec3, Vec3, Moment) -> Vec3, S: Fn(Quat, Quat, Moment) -> Quat>(
        &self,
        t: Single,
        out: &mut NodeTransform,
        lerp: &L,
        slerp: &S,
    )
        requires
            blends(*lerp, *slerp),
        ensures
            applies(*self, t, *old(out), *final(out), *lerp, *slerp),
    {
        if self.times.len() == 0 {
            return;
        }
        let (i0, i1) = locate(self.times.as_slice(), t);
        let moment = Moment { from: self.times[i0], to: self.times[i1], at: t };
        let how = self.interpolation;
        match &self.samples {
            ChannelSamples::Translation(v) => {
                out.translation = sample(v.as_slice(), how, i0, i1, moment, out.translation, lerp);
            },
            ChannelSamples::Rotation(v) => {
                out.rotation = sample(v.as_slice(), how, i0, i1, moment, out.rotation, slerp);
            },
            ChannelSamples::Scale(v) => {
                out.scale = sample(v.as_slice(), how, i0, i1, moment, out.scale, lerp);
            },
        }
        assert(brackets(self.times@, t, i0 as int, i1 as int));
    }
}

impl SceneAnimation {
    /// Wraps a playback time into the duration for looping. Gives zero for an animation of no length
    /// so evaluation stays at the first pose.
    pub fn wrap_time<W: Fn(Single, Single) -> Single>(&self, t: Single, wrap: &W) -> (r: Single)
        requires
            forall|a: Single, b: Single| #[trigger] call_requires(*wrap, (a, b)),
        ensures
            wraps_to(*self, t, r, *wrap),
    {
        if self.duration.le(Single::zero()) {
            Single::zero()
        } else {
            wrap(t, self.duration)
        }
    }
}

/// Whether `r` is the time `t` wrapped into the animation's duration.
pub open spec fn wraps_to<W: Fn(Single, Single) -> Single>(
    a: SceneAnimation,
    t: Single,
    r: Single,
    wrap: W,
) -> bool {
    if a.duration.spec_le(Single::zero()) {
        r == Single::zero()
    } else {
        call_ensures(wrap, (t, a.duration), r)
    }
}

/// The transforms of the nodes as they are without an animation.
pub open spec fn default_pose(scene: AnimatedScene) -> Seq<NodeTransform> {
    Seq::new(scene.nodes@.len(), |i: int| scene.nodes@[i].local)
}

/// Whether `after` are the transforms `before` once one channel was applied to the node it drives.
pub open spec fn channel_step<
    L: Fn(Vec3, Vec3, Moment) -> Vec3,
    S: Fn(Quat, Quat, Moment) -> Quat,
>(
    channel: AnimChannel,
    t: Single,
    before: Seq<NodeTransform>,
    after: Seq<NodeTransform>,
    lerp: L,
    slerp: S,
) -> bool {
    let n = channel.node as int;
    if n < before.len() {
        &&& after.len() == before.len()
        &&& applies(channel, t, before[n], after[n], lerp, slerp)
        &&& after == before.update(n, after[n])
    } else {
        after == before
    }
}

/// Whether `states` are the transforms before, between and after the channels, from the first on.
pub open spec fn channel_steps<
    L: Fn(Vec3, Vec3, Moment) -> Vec3,
    S: Fn(Quat, Quat, Moment) -> Quat,
>(
    channels: Seq<AnimChannel>,
    t: Single,
    states: Seq<Seq<NodeTransform>>,
    lerp: L,
    slerp: S,
) -> bool {
    forall|k: int|
        #![trigger states[k + 1]]
        0 <= k < states.len() - 1 ==> channel_step(
            channels[k],
            t,
            states[k],
            states[k + 1],
            lerp,
            slerp,
        )
}

/// Whether `locals` are the transforms of the nodes for the animation of that number at the moment
/// `t`: the default pose with each channel applied in order. No number, or one that names no animation,
/// leaves the default pose.
pub open spec fn evaluates_to<
    W: Fn(Single, Single) -> Single,
    L: Fn(Vec3, Vec3, Moment) -> Vec3,
    S: Fn(Quat, Quat, Moment) -> Quat,
>(
    scene: AnimatedScene,
    anim: Option<usize>,
    t: Single,
    locals: Seq<NodeTransform>,
    wrap: W,
    lerp: L,
    slerp: S,
) -> bool {
    if anim is Some && anim->0 < scene.animations@.len() {
        let a = scene.animations@[anim->0 as int];
        exists|at: Single, states: Seq<Seq<NodeTransform>>| #[trigger]
            wraps_to(a, t, at, wrap) && #[trigger] channel_steps(
                a.channels@,
                at,
                states,
                lerp,
                slerp,
            ) && states.len() == a.channels@.len() + 1 && states[0] == default_pose(scene)
                && states.last() == locals
    } else {
        locals == default_pose(scene)
    }
}

/// Whether `worlds[i]` is the matrix of the node number `i`: its own, composed with its parent's.
pub open spec fn composes_node<M, X: Fn(NodeTransform) -> M, C: Fn(M, M) -> M>(
    scene: AnimatedScene,
    locals: Seq<NodeTransform>,
    worlds: Seq<M>,
    i: int,
    matrix: X,
    compose: C,
) -> bool {
    exists|m: M| #[trigger]
        call_ensures(matrix, (locals[i],), m) && match scene.nodes@[i].parent {
            Some(p) => call_ensures(compose, (worlds[p as int], m), worlds[i]),
            None => worlds[i] == m,
        }
}

/// Whether `worlds` are the matrices of the nodes: each node's own, composed with its parent's.
pub open spec fn composes<M, X: Fn(NodeTransform) -> M, C: Fn(M, M) -> M>(
    scene: AnimatedScene,
    locals: Seq<NodeTransform>,
    worlds: Seq<M>,
    matrix: X,
    compose: C,
) -> bool {
    forall|i: int|
        0 <= i < worlds.len() ==> #[trigger] composes_node(
            scene,
            locals,
            worlds,
            i,
            matrix,
            compose,
        )
}

/// Whether `out` is the mesh `m` with each vertex moved by a matrix; the triangles stay.
pub open spec fn places_mesh<M, P: Fn(M, Vertex) -> Vertex>(
    m: Mesh,
    world: M,
    out: Mesh,
    place: P,
) -> bool {
    &&& out.indices@ == m.indices@
    &&& out.vertices@.len() == m.vertices@.len()
    &&& forall|j: int|
        #![trigger out.vertices@[j]]
        0 <= j < m.vertices@.len() ==> call_ensures(
            place,
            (world, m.vertices@[j]),
            out.vertices@[j],
        )
}

/// Whether `out` is the scene posed by these transforms: each mesh instance, moved by the matrix of
/// the node that it rides on.
pub open spec fn poses_to<
    M,
    X: Fn(NodeTransform) -> M,
    C: Fn(M, M) -> M,
    P: Fn(M, Vertex) -> Vertex,
>(
    scene: AnimatedScene,
    locals: Seq<NodeTransform>,
    out: Scene,
    matrix: X,
    compose: C,
    place: P,
) -> bool {
    &&& out.name@ == scene.name@
    &&& out.meshes@.len() == scene.instances@.len()
    &&& exists|worlds: Seq<M>| #[trigger]
        composes(scene, locals, worlds, matrix, compose) && worlds.len() == scene.nodes@.len() && (
        forall|k: int|
            #![trigger out.meshes@[k]]
            0 <= k < out.meshes@.len() ==> places_mesh(
                scene.instances@[k].mesh,
                worlds[scene.instances@[k].node as int],
                out.meshes@[k],
                place,
            ))
}

/// Whether the closures that compose and place can be asked whatever comes.
pub open spec fn can_pose<
    M,
    X: Fn(NodeTransform) -> M,
    C: Fn(M, M) -> M,
    P: Fn(M, Vertex) -> Vertex,
>(matrix: X, compose: C, place: P) -> bool {
    &&& forall|t: NodeTransform| #[trigger] call_requires(matrix, (t,))
    &&& forall|a: M, b: M| #[trigger] call_requires(compose, (a, b))
    &&& forall|m: M, v: Vertex| #[trigger] call_requires(place, (m, v))
}

/// The mesh with each vertex moved by a matrix.
fn placed_mesh<M: Copy, P: Fn(M, Vertex) -> Vertex>(m: &Mesh, world: M, place: &P) -> (out: Mesh)
    requires
        forall|m: M, v: Vertex| #[trigger] call_requires(*place, (m, v)),
    ensures
        places_mesh(*m, world, out, *place),
{
    let mut vertices: Vec<Vertex> = Vec::with_capacity(m.vertices.len());
    let mut j: usize = 0;
    while j < m.vertices.len()
        invariant
            forall|m: M, v: Vertex| #[trigger] call_requires(*place, (m, v)),
            j <= m.vertices@.len(),
            vertices@.len() == j,
            forall|k: int|
                #![trigger vertices@[k]]
                0 <= k < j ==> call_ensures(*place, (world, m.vertices@[k]), vertices@[k]),
        decreases m.vertices@.len() - j,
    {
        vertices.push(place(world, m.vertices[j]));
        j = j + 1;
    }
    Mesh::new(vertices, copied(m.indices.as_slice()))
}

impl AnimatedScene {
    /// Evaluates per-node local transforms for animation `anim` at time `t`.
    ///
    /// Starts from every node's default local transform, then overrides the components driven by the
    /// animation's channels. `t` is wrapped into the animation's duration (looping). An out-of-range
    /// `anim` yields the default pose.
    pub fn evaluate<
        W: Fn(Single, Single) -> Single,
        L: Fn(Vec3, Vec3, Moment) -> Vec3,
        S: Fn(Quat, Quat, Moment) -> Quat,
    >(&self, anim: usize, t: Single, wrap: &W, lerp: &L, slerp: &S) -> (locals: Vec<NodeTransform>)
        requires
            forall|a: Single, b: Single| #[trigger] call_requires(*wrap, (a, b)),
            blends(*lerp, *slerp),
        ensures
            locals@.len() == self.nodes@.len(),
            evaluates_to(*self, Some(anim), t, locals@, *wrap, *lerp, *slerp),
    {
        let mut locals: Vec<NodeTransform> = Vec::with_capacity(self.nodes.len());
        let mut i: usize = 0;
        while i < self.nodes.len()
            invariant
                i <= self.nodes@.len(),
                locals@ == default_pose(*self).take(i as int),
            decreases self.nodes@.len() - i,
        {
            locals.push(self.nodes[i].local);
            assert(locals@ =~= default_pose(*self).take(i + 1));
            i = i + 1;
        }
        assert(locals@ =~= default_pose(*self));
        if anim >= self.animations.len() {
            return locals;
        }
        let a = &self.animations[anim];
        let at: Single = a.wrap_time(t, wrap);
        let ghost mut states: Seq<Seq<NodeTransform>> = seq![locals@];
        let mut c: usize = 0;
        while c < a.channels.len()
            invariant
                blends(*lerp, *slerp),
                c <= a.channels@.len(),
                locals@.len() == self.nodes@.len(),
                states.len() == c + 1,
                states[0] == default_pose(*self),
                states.last() == locals@,
                channel_steps(a.channels@, at, states, *lerp, *slerp),
            decreases a.channels@.len() - c,
        {
            let ghost before = locals@;
            let ghost earlier = states;
            let node: usize = a.channels[c].node;
            if node < locals.len() {
                let mut local = locals[node];
                a.channels[c].apply(at, &mut local, lerp, slerp);
                locals.set(node, local);
            }
            proof {
                states = states.push(locals@);
                assert forall|k: int|
                    #![trigger states[k + 1]]
                    0 <= k < states.len() - 1 implies channel_step(
                    a.channels@[k],
                    at,
                    states[k],
                    states[k + 1],
                    *lerp,
                    *slerp,
                ) by {
                    if k < c {
                        assert(states[k] == earlier[k] && states[k + 1] == earlier[k + 1]);
                    }
                }
            }
            c = c + 1;
        }
        assert(wraps_to(*a, t, at, *wrap));
        locals
    }

    /// Poses the meshes by the transforms of the nodes.
    fn pose<M: Copy, X: Fn(NodeTransform) -> M, C: Fn(M, M) -> M, P: Fn(M, Vertex) -> Vertex>(
        &self,
        locals: &[NodeTransform],
        matrix: &X,
        compose: &C,
        place: &P,
    ) -> (out: Scene)
        requires
            self.wf(),
            locals@.len() == self.nodes@.len(),
            can_pose(*matrix, *compose, *place),
        ensures
            poses_to(*self, locals@, out, *matrix, *compose, *place),
    {
        let mut worlds: Vec<M> = Vec::with_capacity(self.nodes.len());
        let mut i: usize = 0;
        while i < self.nodes.len()
            invariant
                self.wf(),
                locals@.len() == self.nodes@.len(),
                can_pose(*matrix, *compose, *place),
                i <= self.nodes@.len(),
                worlds@.len() == i,
                composes(*self, locals@, worlds@, *matrix, *compose),
            decreases self.nodes@.len() - i,
        {
            let ghost before = worlds@;
            let own = matrix(locals[i]);
            assert(self.nodes@[i as int].parent is Some ==> self.nodes@[i as int].parent->0 < i);
            let world = match self.nodes[i].parent {
                Some(p) => compose(worlds[p], own),
                None => own,
            };
            worlds.push(world);
            assert forall|k: int| 0 <= k < worlds@.len() implies #[trigger] composes_node(
                *self,
                locals@,
                worlds@,
                k,
                *matrix,
                *compose,
            ) by {
                if k < i {
                    assert(worlds@[k] == before[k]);
                    assert(composes_node(*self, locals@, before, k, *matrix, *compose));
                    let m = choose|m: M| #[trigger]
                        call_ensures(*matrix, (locals@[k],), m) && match self.nodes@[k].parent {
                            Some(p) => call_ensures(*compose, (before[p as int], m), before[k]),
                            None => before[k] == m,
                        };
                    assert(self.nodes@[k].parent is Some ==> self.nodes@[k].parent->0 < k);
                    assert(call_ensures(*matrix, (locals@[k],), m));
                } else {
                    assert(call_ensures(*matrix, (locals@[k],), own));
                }
            }
            i = i + 1;
        }
        let mut meshes: Vec<Mesh> = Vec::with_capacity(self.instances.len());
        let mut k: usize = 0;
        while k < self.instances.len()
            invariant
                self.wf(),
                can_pose(*matrix, *compose, *place),
                worlds@.len() == self.nodes@.len(),
                k <= self.instances@.len(),
                meshes@.len() == k,
                forall|n: int|
                    #![trigger meshes@[n]]
                    0 <= n < k ==> places_mesh(
                        self.instances@[n].mesh,
                        worlds@[self.instances@[n].node as int],
                        meshes@[n],
                        *place,
                    ),
            decreases self.instances@.len() - k,
        {
            let inst = &self.instances[k];
            assert(self.instances@[k as int].node < self.nodes@.len());
            meshes.push(placed_mesh(&inst.mesh, worlds[inst.node], place));
            k = k + 1;
        }
        Scene::new(self.name.clone(), meshes)
    }
}

/// Whether `out` is the scene posed for an animation at the moment `t`, or in its default pose.
pub open spec fn animates_to<
    M,
    W: Fn(Single, Single) -> Single,
    L: Fn(Vec3, Vec3, Moment) -> Vec3,
    S: Fn(Quat, Quat, Moment) -> Quat,
    X: Fn(NodeTransform) -> M,
    C: Fn(M, M) -> M,
    P: Fn(M, Vertex) -> Vertex,
>(
    scene: AnimatedScene,
    anim: Option<usize>,
    t: Single,
    out: Scene,
    math: PoseMath<W, L, S, X, C, P>,
) -> bool {
    exists|locals: Seq<NodeTransform>| #[trigger]
        evaluates_to(
            scene,
            anim,
            t,
            locals,
            math.wrap,
            math.lerp,
            math.slerp,
        ) && poses_to(scene, locals, out, math.matrix, math.compose, math.place)
}

impl AnimatedScene {
    /// Bakes the default (un-animated) pose into a flat scene whose vertices carry world-space
    /// positions.
    pub fn bake_static<
        M: Copy,
        W: Fn(Single, Single) -> Single,
        L: Fn(Vec3, Vec3, Moment) -> Vec3,
        S: Fn(Quat, Quat, Moment) -> Quat,
        X: Fn(NodeTransform) -> M,
        C: Fn(M, M) -> M,
        P: Fn(M, Vertex) -> Vertex,
    >(&self, math: &PoseMath<W, L, S, X, C, P>) -> (out: Scene)
        requires
            self.wf(),
            forall|a: Single, b: Single| #[trigger] call_requires(math.wrap, (a, b)),
            blends(math.lerp, math.slerp),
            can_pose(math.matrix, math.compose, math.place),
        ensures
            poses_to(*self, default_pose(*self), out, math.matrix, math.compose, math.place),
    {
        let none: usize = self.animations.len();
        let locals = self.evaluate(none, Single::zero(), &math.wrap, &math.lerp, &math.slerp);
        self.pose(locals.as_slice(), &math.matrix, &math.compose, &math.place)
    }
}

/// A poser that rewrites a scene's world-space vertices for an animation at a given time.
#[derive(Clone, Debug)]
pub struct SceneAnimator {
    scene: AnimatedScene,
}

impl SceneAnimator {
    /// The scene that is posed.
    pub closed spec fn posed(&self) -> AnimatedScene {
        self.scene
    }

    /// Builds an animator for `scene`.
    pub fn new(scene: AnimatedScene) -> (a: SceneAnimator)
        ensures
            a.posed() == scene,
    {
        SceneAnimator { scene }
    }

    /// The underlying animated scene.
    pub fn scene(&self) -> (s: &AnimatedScene)
        ensures
            *s == self.posed(),
    {
        &self.scene
    }

    /// The scene's animations.
    pub fn animations(&self) -> (a: &[SceneAnimation])
        ensures
            a@ == self.posed().animations@,
    {
        self.scene.animations.as_slice()
    }

    /// Poses the hierarchy for animation `anim` (or the default pose when `None`) at time `t` and
    /// rewrites `out` so each mesh carries world-space vertex positions and normals. `t` is wrapped
    /// into the chosen animation's duration (looping).
    pub fn pose_into<
        M: Copy,
        W: Fn(Single, Single) -> Single,
        L: Fn(Vec3, Vec3, Moment) -> Vec3,
        S: Fn(Quat, Quat, Moment) -> Quat,
        X: Fn(NodeTransform) -> M,
        C: Fn(M, M) -> M,
        P: Fn(M, Vertex) -> Vertex,
    >(
        &self,
        anim: Option<usize>,
        t: Single,
        out: &mut Scene,
        math: &PoseMath<W, L, S, X, C, P>,
    )
        requires
            self.posed().wf(),
            forall|a: Single, b: Single| #[trigger] call_requires(math.wrap, (a, b)),
            blends(math.lerp, math.slerp),
            can_pose(math.matrix, math.compose, math.place),
        ensures
            animates_to(self.posed(), anim, t, *final(out), *math),
    {
        // A number that no animation has leaves the default pose.
        let number: usize = match anim {
            Some(a) => a,
            None => self.scene.animations.len(),
        };
        let locals = self.scene.evaluate(number, t, &math.wrap, &math.lerp, &math.slerp);
        *out = self.scene.pose(locals.as_slice(), &math.matrix, &math.compose, &math.place);
        assert(evaluates_to(
            self.posed(),
            anim,
            t,
            locals@,
            math.wrap,
            math.lerp,
            math.slerp,
        ));
    }
}

/// Posing keeps the scene's name, the number of meshes, and the triangles and the number of vertices of
/// each.
pub proof fn law_posing_keeps_the_meshes<
    M,
    W: Fn(Single, Single) -> Single,
    L: Fn(Vec3, Vec3, Moment) -> Vec3,
    S: Fn(Quat, Quat, Moment) -> Quat,
    X: Fn(NodeTransform) -> M,
    C: Fn(M, M) -> M,
    P: Fn(M, Vertex) -> Vertex,
>(
    scene: AnimatedScene,
    anim: Option<usize>,
    t: Single,
    out: Scene,
    math: PoseMath<W, L, S, X, C, P>,
)
    requires
        animates_to(scene, anim, t, out, math),
    ensures
        out.name@ == scene.name@,
        out.meshes@.len() == scene.instances@.len(),
        forall|k: int|
            0 <= k < out.meshes@.len() ==> (#[trigger] out.meshes@[k]).indices@
                == scene.instances@[k].mesh.indices@ && out.meshes@[k].vertices@.len()
                == scene.instances@[k].mesh.vertices@.len(),
{
}

/// Where a vertex of the mesh on a node comes to lie: moved by the node's own transform, then by its
/// parent's, and so on up to the root.
pub open spec fn carried(
    scene: AnimatedScene,
    locals: Seq<NodeTransform>,
    moved: spec_fn(NodeTransform, Vertex) -> Vertex,
    node: int,
    v: Vertex,
) -> Vertex
    decreases node,
{
    match scene.nodes@[node].parent {
        Some(p) => if 0 <= p < node {
            carried(scene, locals, moved, p as int, moved(locals[node], v))
        } else {
            v
        },
        None => moved(locals[node], v),
    }
}

/// The matrix of a node moves a vertex as the node's own transform does and then as its parent's matrix
/// does.
proof fn lemma_world_carries<M, X: Fn(NodeTransform) -> M, C: Fn(M, M) -> M>(
    scene: AnimatedScene,
    locals: Seq<NodeTransform>,
    worlds: Seq<M>,
    matrix: X,
    compose: C,
    act: spec_fn(M, Vertex) -> Vertex,
    moved: spec_fn(NodeTransform, Vertex) -> Vertex,
    node: int,
    v: Vertex,
)
    requires
        scene.wf(),
        worlds.len() == scene.nodes@.len(),
        0 <= node < worlds.len(),
        composes(scene, locals, worlds, matrix, compose),
        forall|t: NodeTransform, m: M, u: Vertex| #[trigger]
            call_ensures(matrix, (t,), m) ==> #[trigger] act(m, u) == moved(t, u),
        forall|a: M, b: M, c: M, u: Vertex| #[trigger]
            call_ensures(compose, (a, b), c) ==> #[trigger] act(c, u) == act(a, act(b, u)),
    ensures
        act(worlds[node], v) == carried(scene, locals, moved, node, v),
    decreases node,
{
    assert(composes_node(scene, locals, worlds, node, matrix, compose));
    let m = choose|m: M| #[trigger]
        call_ensures(matrix, (locals[node],), m) && match scene.nodes@[node].parent {
            Some(p) => call_ensures(compose, (worlds[p as int], m), worlds[node]),
            None => worlds[node] == m,
        };
    assert(act(m, v) == moved(locals[node], v));
    if let Some(p) = scene.nodes@[node].parent {
        assert(p < node);
        lemma_world_carries(
            scene,
            locals,
            worlds,
            matrix,
            compose,
            act,
            moved,
            p as int,
            moved(locals[node], v),
        );
        assert(act(worlds[node], v) == act(worlds[p as int], act(m, v)));
    }
}

/// A node moves with its parent. Where composing two matrices is to do what the second does and then what
/// the first does, every vertex of every mesh lies where the transform of the mesh's own node puts it, as
/// carried on by the transforms of all nodes above, from the nearest up to the root. The meshes and their
/// vertices keep their order.
pub proof fn law_children_move_with_their_parents<
    M,
    X: Fn(NodeTransform) -> M,
    C: Fn(M, M) -> M,
    P: Fn(M, Vertex) -> Vertex,
>(
    scene: AnimatedScene,
    locals: Seq<NodeTransform>,
    out: Scene,
    matrix: X,
    compose: C,
    place: P,
    act: spec_fn(M, Vertex) -> Vertex,
    moved: spec_fn(NodeTransform, Vertex) -> Vertex,
    k: int,
    j: int,
)
    requires
        scene.wf(),
        poses_to(scene, locals, out, matrix, compose, place),
        forall|t: NodeTransform, m: M, u: Vertex| #[trigger]
            call_ensures(matrix, (t,), m) ==> #[trigger] act(m, u) == moved(t, u),
        forall|a: M, b: M, c: M, u: Vertex| #[trigger]
            call_ensures(compose, (a, b), c) ==> #[trigger] act(c, u) == act(a, act(b, u)),
        forall|m: M, u: Vertex, r: Vertex| #[trigger]
            call_ensures(place, (m, u), r) ==> r == act(m, u),
        0 <= k < scene.instances@.len(),
        0 <= j < scene.instances@[k].mesh.vertices@.len(),
    ensures
        out.meshes@.len() == scene.instances@.len(),
        out.meshes@[k].vertices@.len() == scene.instances@[k].mesh.vertices@.len(),
        out.meshes@[k].indices@ == scene.instances@[k].mesh.indices@,
        out.meshes@[k].vertices@[j] == carried(
            scene,
            locals,
            moved,
            scene.instances@[k].node as int,
            scene.instances@[k].mesh.vertices@[j],
        ),
{
    let worlds = choose|worlds: Seq<M>| #[trigger]
        composes(scene, locals, worlds, matrix, compose) && worlds.len() == scene.nodes@.len() && (
        forall|k: int|
            #![trigger out.meshes@[k]]
            0 <= k < out.meshes@.len() ==> places_mesh(
                scene.instances@[k].mesh,
                worlds[scene.instances@[k].node as int],
                out.meshes@[k],
                place,
            ));
    let inst = scene.instances@[k];
    assert(places_mesh(inst.mesh, worlds[inst.node as int], out.meshes@[k], place));
    let r = out.meshes@[k].vertices@[j];
    assert(call_ensures(place, (worlds[inst.node as int], inst.mesh.vertices@[j]), r));
    lemma_world_carries(
        scene,
        locals,
        worlds,
        matrix,
        compose,
        act,
        moved,
        inst.node as int,
        inst.mesh.vertices@[j],
    );
}

/// Where a mesh rides on a root, it is moved by that node's transform alone; where it rides on a child of a
/// root, first by the child's and then by the root's.
pub proof fn law_offset_turns_with_the_parent(
    scene: AnimatedScene,
    locals: Seq<NodeTransform>,
    moved: spec_fn(NodeTransform, Vertex) -> Vertex,
    node: int,
    v: Vertex,
)
    requires
        scene.wf(),
        0 <= node < scene.nodes@.len(),
    ensures
        scene.nodes@[node].parent is None ==> carried(scene, locals, moved, node, v) == moved(
            locals[node],
            v,
        ),
        scene.nodes@[node].parent is Some ==> {
            let p = scene.nodes@[node].parent->0 as int;
            &&& carried(scene, locals, moved, node, v) == carried(
                scene,
                locals,
                moved,
                p,
                moved(locals[node], v),
            )
            &&& scene.nodes@[p].parent is None ==> carried(scene, locals, moved, node, v) == moved(
                locals[p],
                moved(locals[node], v),
            )
        },
{
    reveal_with_fuel(carried, 3);
    if scene.nodes@[node].parent is Some {
        assert(scene.nodes@[node].parent->0 < node);
        let p = scene.nodes@[node].parent->0 as int;
        let n = scene.nodes@[p];
    }
}

/// Whether every time is before the one behind it.
pub open spec fn strictly_ascending(times: Seq<Single>) -> bool {
    forall|i: int, j: int|
        0 <= i < j < times.len() ==> (#[trigger] times[i]).spec_lt(#[trigger] times[j])
}

/// The keyframes around a moment are those whose times are around it.
proof fn lemma_bracket_at(times: Seq<Single>, t: Single, i0: int, i1: int, k: int)
    requires
        times.len() > 0,
        strictly_ascending(times),
        !times[0].is_nan(),
        brackets(times, t, i0, i1),
        0 <= k < times.len(),
        times[k].spec_le(t),
        k + 1 < times.len() ==> t.spec_lt(times[k + 1]),
    ensures
        i0 == k,
        i1 == k || i1 == k + 1,
        times[k].spec_lt(t) && k + 1 < times.len() ==> i1 == k + 1,
{
    let last = times.len() - 1;
    if k > 0 {
        assert(times[0].spec_lt(times[k]));
    }
    if k < last {
        assert(times[k].spec_lt(times[last]));
        if k + 1 < last {
            assert(times[k + 1].spec_lt(times[last]));
        }
    }
    if i1 == i0 + 1 {
        if i0 > k && i0 > k + 1 {
            assert(times[k + 1].spec_lt(times[i0]));
        }
        if i1 <= k && i1 < k {
            assert(times[i1].spec_lt(times[k]));
        }
    }
}

/// At the time of a keyframe a channel has exactly the value of that keyframe, whether it is held or
/// blended, where a blend gives the earlier value at the earlier keyframe's time. Only the component that
/// the channel drives changes.
pub proof fn law_channel_meets_its_keyframes<
    L: Fn(Vec3, Vec3, Moment) -> Vec3,
    S: Fn(Quat, Quat, Moment) -> Quat,
>(
    channel: AnimChannel,
    t: Single,
    before: NodeTransform,
    after: NodeTransform,
    lerp: L,
    slerp: S,
    k: int,
)
    requires
        applies(channel, t, before, after, lerp, slerp),
        strictly_ascending(channel.times@),
        0 <= k < channel.times@.len(),
        t == channel.times@[k],
        !t.is_nan(),
        !channel.times@[0].is_nan(),
        forall|a: Vec3, b: Vec3, m: Moment, r: Vec3| #[trigger]
            call_ensures(lerp, (a, b, m), r) && m.at == m.from ==> r == a,
        forall|a: Quat, b: Quat, m: Moment, r: Quat| #[trigger]
            call_ensures(slerp, (a, b, m), r) && m.at == m.from ==> r == a,
    ensures
        match channel.samples {
            ChannelSamples::Translation(v) => {
                &&& v@.len() == channel.times@.len() ==> after.translation == v@[k]
                &&& after.rotation == before.rotation
                &&& after.scale == before.scale
            },
            ChannelSamples::Rotation(v) => {
                &&& v@.len() == channel.times@.len() ==> after.rotation == v@[k]
                &&& after.translation == before.translation
                &&& after.scale == before.scale
            },
            ChannelSamples::Scale(v) => {
                &&& v@.len() == channel.times@.len() ==> after.scale == v@[k]
                &&& after.translation == before.translation
                &&& after.rotation == before.rotation
            },
        },
{
    let (i0, i1) = choose|i0: int, i1: int| #[trigger]
        brackets(channel.times@, t, i0, i1) && drives_to(
            channel,
            t,
            i0,
            i1,
            before,
            after,
            lerp,
            slerp,
        );
    if k + 1 < channel.times@.len() {
        assert(channel.times@[k].spec_lt(channel.times@[k + 1]));
    }
    lemma_bracket_at(channel.times@, t, i0, i1, k);
}

/// Between two keyframes a held channel keeps the value of the earlier one, and a blended one has the blend
/// of the earlier and the later value, in this order, at the moment between their times.
pub proof fn law_channel_blends_its_neighbours<
    L: Fn(Vec3, Vec3, Moment) -> Vec3,
    S: Fn(Quat, Quat, Moment) -> Quat,
>(
    channel: AnimChannel,
    t: Single,
    before: NodeTransform,
    after: NodeTransform,
    lerp: L,
    slerp: S,
    k: int,
)
    requires
        applies(channel, t, before, after, lerp, slerp),
        strictly_ascending(channel.times@),
        0 <= k,
        k + 1 < channel.times@.len(),
        channel.times@[k].spec_lt(t),
        t.spec_lt(channel.times@[k + 1]),
        !channel.times@[0].is_nan(),
    ensures
        ({
            let m = Moment { from: channel.times@[k], to: channel.times@[k + 1], at: t };
            match channel.samples {
                ChannelSamples::Translation(v) => v@.len() == channel.times@.len() ==> if channel.interpolation is Step {
                    after.translation == v@[k]
                } else {
                    call_ensures(lerp, (v@[k], v@[k + 1], m), after.translation)
                },
                ChannelSamples::Rotation(v) => v@.len() == channel.times@.len() ==> if channel.interpolation is Step {
                    after.rotation == v@[k]
                } else {
                    call_ensures(slerp, (v@[k], v@[k + 1], m), after.rotation)
                },
                ChannelSamples::Scale(v) => v@.len() == channel.times@.len() ==> if channel.interpolation is Step {
                    after.scale == v@[k]
                } else {
                    call_ensures(lerp, (v@[k], v@[k + 1], m), after.scale)
                },
            }
        }),
{
    let (i0, i1) = choose|i0: int, i1: int| #[trigger]
        brackets(channel.times@, t, i0, i1) && drives_to(
            channel,
            t,
            i0,
            i1,
            before,
            after,
            lerp,
            slerp,
        );
    lemma_bracket_at(channel.times@, t, i0, i1, k);
}

/// Before its first keyframe a channel has the first value and from its last keyframe on the last, where a
/// blend of a value with itself is that value.
pub proof fn law_channel_is_held_beyond_its_ends<
    L: Fn(Vec3, Vec3, Moment) -> Vec3,
    S: Fn(Quat, Quat, Moment) -> Quat,
>(
    channel: AnimChannel,
    t: Single,
    before: NodeTransform,
    after: NodeTransform,
    lerp: L,
    slerp: S,
)
    requires
        applies(channel, t, before, after, lerp, slerp),
        channel.times@.len() > 0,
        strictly_ascending(channel.times@),
        !channel.times@[0].is_nan(),
        t.spec_lt(channel.times@[0]) || channel.times@.last().spec_le(t),
        forall|a: Vec3, m: Moment, r: Vec3| #[trigger] call_ensures(lerp, (a, a, m), r) ==> r == a,
        forall|a: Quat, m: Moment, r: Quat| #[trigger] call_ensures(slerp, (a, a, m), r) ==> r == a,
    ensures
        ({
            let k = if t.spec_lt(channel.times@[0]) {
                0
            } else {
                channel.times@.len() - 1
            };
            match channel.samples {
                ChannelSamples::Translation(v) => v@.len() == channel.times@.len()
                    ==> after.translation == v@[k],
                ChannelSamples::Rotation(v) => v@.len() == channel.times@.len() ==> after.rotation
                    == v@[k],
                ChannelSamples::Scale(v) => v@.len() == channel.times@.len() ==> after.scale
                    == v@[k],
            }
        }),
{
    let (i0, i1) = choose|i0: int, i1: int| #[trigger]
        brackets(channel.times@, t, i0, i1) && drives_to(
            channel,
            t,
            i0,
            i1,
            before,
            after,
            lerp,
            slerp,
        );
    let last = channel.times@.len() - 1;
    if last > 0 {
        assert(channel.times@[0].spec_lt(channel.times@[last]));
    }
}

/// A node that no channel drives keeps its own transform, and one that a single channel drives has what
/// that channel makes of its own transform, at the moment wrapped into the animation's length.
pub proof fn law_channels_drive_their_own_nodes<
    W: Fn(Single, Single) -> Single,
    L: Fn(Vec3, Vec3, Moment) -> Vec3,
    S: Fn(Quat, Quat, Moment) -> Quat,
>(
    scene: AnimatedScene,
    anim: usize,
    t: Single,
    locals: Seq<NodeTransform>,
    wrap: W,
    lerp: L,
    slerp: S,
    n: int,
    c: int,
)
    requires
        evaluates_to(scene, Some(anim), t, locals, wrap, lerp, slerp),
        0 <= n < scene.nodes@.len(),
        anim < scene.animations@.len(),
        forall|k: int|
            0 <= k < scene.animations@[anim as int].channels@.len() && k != c ==> (#[trigger]
            scene.animations@[anim as int].channels@[k]).node != n,
    ensures
        locals.len() == scene.nodes@.len(),
        !(0 <= c < scene.animations@[anim as int].channels@.len()
            && scene.animations@[anim as int].channels@[c].node == n) ==> locals[n]
            == scene.nodes@[n].local,
        0 <= c < scene.animations@[anim as int].channels@.len()
            && scene.animations@[anim as int].channels@[c].node == n ==> exists|at: Single|
            #[trigger] wraps_to(scene.animations@[anim as int], t, at, wrap) && applies(
                scene.animations@[anim as int].channels@[c],
                at,
                scene.nodes@[n].local,
                locals[n],
                lerp,
                slerp,
            ),
{
    let a = scene.animations@[anim as int];
    let (at, states) = choose|at: Single, states: Seq<Seq<NodeTransform>>| #[trigger]
        wraps_to(a, t, at, wrap) && #[trigger] channel_steps(a.channels@, at, states, lerp, slerp)
            && states.len() == a.channels@.len() + 1 && states[0] == default_pose(scene)
            && states.last() == locals;
    lemma_node_state(scene, a, at, states, lerp, slerp, n, c, a.channels@.len() as int);
}

proof fn lemma_node_state<
    L: Fn(Vec3, Vec3, Moment) -> Vec3,
    S: Fn(Quat, Quat, Moment) -> Quat,
>(
    scene: AnimatedScene,
    a: SceneAnimation,
    at: Single,
    states: Seq<Seq<NodeTransform>>,
    lerp: L,
    slerp: S,
    n: int,
    c: int,
    k: int,
)
    requires
        channel_steps(a.channels@, at, states, lerp, slerp),
        states.len() == a.channels@.len() + 1,
        states[0] == default_pose(scene),
        0 <= k <= a.channels@.len(),
        0 <= n < scene.nodes@.len(),
        forall|k: int|
            0 <= k < a.channels@.len() && k != c ==> (#[trigger] a.channels@[k]).node != n,
    ensures
        states[k].len() == scene.nodes@.len(),
        if 0 <= c < k && a.channels@[c].node == n {
            applies(a.channels@[c], at, scene.nodes@[n].local, states[k][n], lerp, slerp)
        } else {
            states[k][n] == scene.nodes@[n].local
        },
    decreases k,
{
    if k > 0 {
        lemma_node_state(scene, a, at, states, lerp, slerp, n, c, k - 1);
        let s = states[k - 1 + 1];
        assert(channel_step(a.channels@[k - 1], at, states[k - 1], states[k], lerp, slerp));
    }
}

/// Playback repeats: two moments that are the same once wrapped into an animation's length give the same
/// pose, where the arithmetic always gives the same.
pub proof fn law_playback_repeats<
    W: Fn(Single, Single) -> Single,
    L: Fn(Vec3, Vec3, Moment) -> Vec3,
    S: Fn(Quat, Quat, Moment) -> Quat,
>(
    scene: AnimatedScene,
    anim: usize,
    t: Single,
    u: Single,
    one: Seq<NodeTransform>,
    two: Seq<NodeTransform>,
    wrap: W,
    lerp: L,
    slerp: S,
    wrap_of: spec_fn(Single, Single) -> Single,
    lerp_of: spec_fn(Vec3, Vec3, Moment) -> Vec3,
    slerp_of: spec_fn(Quat, Quat, Moment) -> Quat,
)
    requires
        evaluates_to(scene, Some(anim), t, one, wrap, lerp, slerp),
        evaluates_to(scene, Some(anim), u, two, wrap, lerp, slerp),
        anim < scene.animations@.len(),
        forall|a: Single, b: Single, r: Single| #[trigger]
            call_ensures(wrap, (a, b), r) ==> r == wrap_of(a, b),
        forall|a: Vec3, b: Vec3, m: Moment, r: Vec3| #[trigger]
            call_ensures(lerp, (a, b, m), r) ==> r == lerp_of(a, b, m),
        forall|a: Quat, b: Quat, m: Moment, r: Quat| #[trigger]
            call_ensures(slerp, (a, b, m), r) ==> r == slerp_of(a, b, m),
        forall|c: int|
            0 <= c < scene.animations@[anim as int].channels@.len() ==> ascending(
                (#[trigger] scene.animations@[anim as int].channels@[c]).times@,
            ),
        scene.animations@[anim as int].duration.spec_le(Single::zero()) || wrap_of(
            t,
            scene.animations@[anim as int].duration,
        ) == wrap_of(u, scene.animations@[anim as int].duration),
    ensures
        one == two,
{
    let a = scene.animations@[anim as int];
    let (at, states) = choose|at: Single, states: Seq<Seq<NodeTransform>>| #[trigger]
        wraps_to(a, t, at, wrap) && #[trigger] channel_steps(a.channels@, at, states, lerp, slerp)
            && states.len() == a.channels@.len() + 1 && states[0] == default_pose(scene)
            && states.last() == one;
    let (au, others) = choose|at: Single, states: Seq<Seq<NodeTransform>>| #[trigger]
        wraps_to(a, u, at, wrap) && #[trigger] channel_steps(a.channels@, at, states, lerp, slerp)
            && states.len() == a.channels@.len() + 1 && states[0] == default_pose(scene)
            && states.last() == two;
    lemma_same_states(
        a.channels@,
        at,
        states,
        others,
        lerp,
        slerp,
        lerp_of,
        slerp_of,
        a.channels@.len() as int,
    );
}

proof fn lemma_same_states<
    L: Fn(Vec3, Vec3, Moment) -> Vec3,
    S: Fn(Quat, Quat, Moment) -> Quat,
>(
    channels: Seq<AnimChannel>,
    at: Single,
    one: Seq<Seq<NodeTransform>>,
    two: Seq<Seq<NodeTransform>>,
    lerp: L,
    slerp: S,
    lerp_of: spec_fn(Vec3, Vec3, Moment) -> Vec3,
    slerp_of: spec_fn(Quat, Quat, Moment) -> Quat,
    k: int,
)
    requires
        channel_steps(channels, at, one, lerp, slerp),
        channel_steps(channels, at, two, lerp, slerp),
        one.len() == channels.len() + 1,
        two.len() == channels.len() + 1,
        one[0] == two[0],
        0 <= k <= channels.len(),
        forall|c: int| 0 <= c < channels.len() ==> ascending((#[trigger] channels[c]).times@),
        forall|a: Vec3, b: Vec3, m: Moment, r: Vec3| #[trigger]
            call_ensures(lerp, (a, b, m), r) ==> r == lerp_of(a, b, m),
        forall|a: Quat, b: Quat, m: Moment, r: Quat| #[trigger]
            call_ensures(slerp, (a, b, m), r) ==> r == slerp_of(a, b, m),
    ensures
        one[k] == two[k],
    decreases k,
{
    if k > 0 {
        lemma_same_states(channels, at, one, two, lerp, slerp, lerp_of, slerp_of, k - 1);
        let (a, b) = (one[k - 1 + 1], two[k - 1 + 1]);
        let c = channels[k - 1];
        assert(channel_step(c, at, one[k - 1], one[k], lerp, slerp));
        assert(channel_step(c, at, two[k - 1], two[k], lerp, slerp));
        let n = c.node as int;
        if n < one[k - 1].len() && c.times@.len() > 0 {
            let (i0, i1) = choose|i0: int, i1: int| #[trigger]
                brackets(c.times@, at, i0, i1) && drives_to(
                    c,
                    at,
                    i0,
                    i1,
                    one[k - 1][n],
                    one[k][n],
                    lerp,
                    slerp,
                );
            let (j0, j1) = choose|j0: int, j1: int| #[trigger]
                brackets(c.times@, at, j0, j1) && drives_to(
                    c,
                    at,
                    j0,
                    j1,
                    two[k - 1][n],
                    two[k][n],
                    lerp,
                    slerp,
                );
            law_bracket_is_unique(c.times@, at, i0, i1, j0, j1);
            assert(one[k][n] == two[k][n]);
        }
    }
}

/// Without an animation, every node has its own transform.
pub proof fn law_default_pose_is_the_nodes_own<
    W: Fn(Single, Single) -> Single,
    L: Fn(Vec3, Vec3, Moment) -> Vec3,
    S: Fn(Quat, Quat, Moment) -> Quat,
>(
    scene: AnimatedScene,
    anim: Option<usize>,
    t: Single,
    locals: Seq<NodeTransform>,
    wrap: W,
    lerp: L,
    slerp: S,
)
    requires
        evaluates_to(scene, anim, t, locals, wrap, lerp, slerp),
        anim is None || anim->0 >= scene.animations@.len(),
    ensures
        locals.len() == scene.nodes@.len(),
        forall|n: int| 0 <= n < locals.len() ==> #[trigger] locals[n] == scene.nodes@[n].local,
{
}

} // verus!
