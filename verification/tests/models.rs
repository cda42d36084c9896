//! Node hierarchies, keyframe animations and glTF documents.

use glam::{Mat4, Quat as Q, Vec3 as V};
use rgfx::anim::{
    locate, AnimChannel, AnimatedScene, ChannelSamples, Interpolation, MeshInstance, NodeTransform,
    Quat, SceneAnimation, SceneNode,
};
use rgfx::error::Error;
use rgfx::geometry::{Mesh, Scene, Vec3, Vertex};
use rgfx::gltf::{
    build_animations, build_hierarchy, build_instances, flatten, import_animated, is_forest,
    load_primitive, skinned_node_set,
    AnimationData, ChannelData, ChannelInterpolation, ChannelOutputs, GltfStats, NodeData, NodeMap, PrimitiveData,
};
use rgfx::pose::{Moment, PoseMath, SceneAnimator};
use rgfx::single::Single;

fn single(x: f32) -> Single {
    Single::from_bits(x.to_bits())
}

fn float(x: Single) -> f32 {
    f32::from_bits(x.to_bits())
}

fn vec3(x: f32, y: f32, z: f32) -> Vec3 {
    Vec3::new(single(x), single(y), single(z))
}

fn glam(v: Vec3) -> V {
    V::new(float(v.x), float(v.y), float(v.z))
}

fn times(list: &[f32]) -> Vec<Single> {
    list.iter().map(|t| single(*t)).collect()
}

fn translation_channel(node: usize, interpolation: Interpolation) -> AnimChannel {
    AnimChannel {
        node,
        interpolation,
        times: times(&[0.0, 1.0, 2.0]),
        samples: ChannelSamples::Translation(vec![
            vec3(0.0, 0.0, 0.0),
            vec3(10.0, 0.0, 0.0),
            vec3(10.0, 20.0, 0.0),
        ]),
    }
}

fn quat(q: Quat) -> Q {
    Q::from_xyzw(float(q.x), float(q.y), float(q.z), float(q.w))
}

fn of_quat(q: Q) -> Quat {
    Quat {
        x: single(q.x),
        y: single(q.y),
        z: single(q.z),
        w: single(q.w),
    }
}

fn of_glam(v: V) -> Vec3 {
    vec3(v.x, v.y, v.z)
}

fn fraction(m: Moment) -> f32 {
    let span = float(m.to) - float(m.from);
    if span > 0.0 {
        (float(m.at) - float(m.from)) / span
    } else {
        0.0
    }
}

fn lerp(a: Vec3, b: Vec3, m: Moment) -> Vec3 {
    of_glam(glam(a).lerp(glam(b), fraction(m)))
}

fn slerp(a: Quat, b: Quat, m: Moment) -> Quat {
    of_quat(quat(a).slerp(quat(b), fraction(m)))
}

fn wrap(t: Single, duration: Single) -> Single {
    single(float(t).rem_euclid(float(duration)))
}

/// The transform that a channel makes of none.
fn applied(ch: &AnimChannel, t: f32) -> NodeTransform {
    let mut tr = NodeTransform::identity();
    ch.apply(single(t), &mut tr, &lerp, &slerp);
    tr
}

/// The translation that a channel gives at a moment.
fn sample(ch: &AnimChannel, t: f32) -> V {
    glam(applied(ch, t).translation)
}

/// Poses a scene by plain matrices.
fn pose(scene: &AnimatedScene, anim: Option<usize>, t: f32) -> Scene {
    let math = PoseMath {
        wrap,
        lerp,
        slerp,
        matrix: |t: NodeTransform| {
            Mat4::from_scale_rotation_translation(
                glam(t.scale),
                quat(t.rotation),
                glam(t.translation),
            )
        },
        compose: |a: Mat4, b: Mat4| a * b,
        place: |m: Mat4, v: Vertex| {
            Vertex::new(of_glam(m.transform_point3(glam(v.position))), v.normal)
        },
    };
    let mut out = Scene::default();
    SceneAnimator::new(scene.clone()).pose_into(anim, single(t), &mut out, &math);
    if anim.is_none() {
        let baked = scene.bake_static(&math);
        assert_eq!(baked.meshes[0].vertices, out.meshes[0].vertices);
    }
    out
}

#[test]
fn rotation_slerp_midpoint_is_half_the_angle() {
    let ch = AnimChannel {
        node: 0,
        interpolation: Interpolation::Linear,
        times: times(&[0.0, 1.0]),
        samples: ChannelSamples::Rotation(vec![
            of_quat(Q::IDENTITY),
            of_quat(Q::from_rotation_z(std::f32::consts::FRAC_PI_2)),
        ]),
    };
    let half = Q::from_rotation_z(std::f32::consts::FRAC_PI_4);
    assert!(
        quat(applied(&ch, 0.5).rotation).angle_between(half) < 1e-4,
        "slerp halves the turn"
    );
}

#[test]
fn wrap_time_loops_within_duration() {
    let anim = |duration| SceneAnimation {
        name: "a".to_string(),
        duration: single(duration),
        skinned: false,
        channels: vec![],
    };
    let wrapped = |duration, t| float(anim(duration).wrap_time(single(t), &wrap));
    assert!((wrapped(2.0, 0.5) - 0.5).abs() < 1e-5);
    assert!((wrapped(2.0, 2.5) - 0.5).abs() < 1e-5, "wraps past the end");
    assert!(wrapped(2.0, 4.0).abs() < 1e-5, "exact multiple wraps to 0");
    // A zero-length animation stays pinned at 0.
    assert_eq!(wrapped(0.0, 3.0), 0.0);
}

#[test]
fn parent_motion_drags_the_child_in_world_space() {
    let scene = parent_child_scene();
    let at = |anim, t| glam(pose(&scene, anim, t).meshes[0].vertices[0].position);
    // t=0: child at its static offset (0,1,0).
    assert!(
        (at(Some(0), 0.0) - V::new(0.0, 1.0, 0.0)).length() < 1e-5,
        "static offset"
    );
    // t=0.5: parent has moved +2 in x, so the child rides along to (2,1,0).
    assert!(
        (at(Some(0), 0.5) - V::new(2.0, 1.0, 0.0)).length() < 1e-5,
        "child tracks the parent's translation"
    );
    // Without an animation it stays.
    assert!((at(None, 0.5) - V::new(0.0, 1.0, 0.0)).length() < 1e-5);
    let posed = pose(&scene, Some(0), 0.5);
    assert_eq!((posed.name.as_str(), posed.meshes.len()), ("pc", 1));
}

#[test]
fn linear_interpolation_at_boundaries_and_midpoints() {
    let ch = translation_channel(0, Interpolation::Linear);
    let near = |t, want: V| (sample(&ch, t) - want).length() < 1e-5;
    assert!(near(0.0, V::ZERO), "t=0 first key");
    assert!(near(0.5, V::new(5.0, 0.0, 0.0)), "midpoint lerps halfway");
    assert!(near(1.0, V::new(10.0, 0.0, 0.0)), "exact keyframe");
    assert!(near(1.5, V::new(10.0, 10.0, 0.0)), "second segment lerps");
    assert!(
        near(5.0, V::new(10.0, 20.0, 0.0)),
        "past the end clamps to the last key"
    );
}

#[test]
fn step_interpolation_holds_the_earlier_keyframe() {
    let ch = translation_channel(0, Interpolation::Step);
    let near = |t, want: V| (sample(&ch, t) - want).length() < 1e-5;
    assert!(near(0.4, V::ZERO), "holds first key");
    assert!(near(0.99, V::ZERO), "still holds just before the next key");
    assert!(near(1.0, V::new(10.0, 0.0, 0.0)), "snaps at the next key");
}

#[test]
fn keyframes_bracket_the_moment() {
    let t = times(&[0.0, 1.0, 1.0, 2.0, 5.0]);
    assert_eq!(locate(&t, single(-1.0)), (0, 0));
    assert_eq!(locate(&t, single(0.0)), (0, 0));
    assert_eq!(locate(&t, single(0.5)), (0, 1));
    assert_eq!(locate(&t, single(1.0)), (2, 3));
    assert_eq!(locate(&t, single(4.9)), (3, 4));
    assert_eq!(locate(&t, single(5.0)), (4, 4));
    assert_eq!(locate(&t, single(f32::NAN)), (0, 1));
    assert_eq!(locate(&times(&[3.0]), single(9.0)), (0, 0));
}

#[test]
fn unordered_times_still_locate_a_reached_keyframe() {
    // The first and the last decide the ends; between them the second keyframe is not reached.
    let t = times(&[0.0, 4.0, 1.0, 5.0]);
    assert_eq!(locate(&t, single(-1.0)), (0, 0));
    assert_eq!(locate(&t, single(6.0)), (3, 3));
    let (i0, i1) = locate(&t, single(2.0));
    assert_eq!(i1, i0 + 1);
    assert!(float(t[i0]) <= 2.0 && 2.0 < float(t[i1]));
    assert_eq!(locate(&times(&[f32::NAN, 1.0, 2.0]), single(0.5)), (0, 1));
}

/// A two-node hierarchy: a parent that translates and a child offset from it.
fn parent_child_scene() -> AnimatedScene {
    AnimatedScene {
        name: "pc".to_string(),
        nodes: vec![
            SceneNode {
                name: Some("parent".to_string()),
                local: NodeTransform::identity(),
                parent: None,
                children: vec![1],
            },
            SceneNode {
                name: Some("child".to_string()),
                local: NodeTransform {
                    translation: vec3(0.0, 1.0, 0.0),
                    ..NodeTransform::identity()
                },
                parent: Some(0),
                children: vec![],
            },
        ],
        roots: vec![0],
        instances: vec![MeshInstance {
            node: 1,
            mesh: Mesh::new(vec![Vertex::from_position(Vec3::zero())], vec![]),
            base_color: [single(1.0); 4],
        }],
        animations: vec![SceneAnimation {
            name: "move-parent".to_string(),
            duration: single(1.0),
            skinned: false,
            channels: vec![AnimChannel {
                node: 0,
                interpolation: Interpolation::Linear,
                times: times(&[0.0, 1.0]),
                samples: ChannelSamples::Translation(vec![
                    vec3(0.0, 0.0, 0.0),
                    vec3(4.0, 0.0, 0.0),
                ]),
            }],
        }],
    }
}

#[test]
fn evaluate_out_of_range_animation_is_the_default_pose() {
    let scene = parent_child_scene();
    let locals = scene.evaluate(99, single(0.5), &wrap, &lerp, &slerp);
    assert_eq!(
        locals[0],
        NodeTransform::identity(),
        "parent stays default"
    );
    assert_eq!(
        locals[1].translation,
        vec3(0.0, 1.0, 0.0),
        "child keeps its static offset"
    );
}

#[test]
fn evaluation_applies_each_channel() {
    let mut scene = parent_child_scene();
    // A channel of no keyframes and one of no node are passed over.
    let mut empty = translation_channel(1, Interpolation::Step);
    empty.times.clear();
    scene.animations[0].channels.push(empty);
    scene.animations[0]
        .channels
        .push(translation_channel(7, Interpolation::Step));
    // A channel that lacks the value of a keyframe leaves its node alone.
    let mut short = translation_channel(1, Interpolation::Linear);
    short.samples = ChannelSamples::Scale(vec![]);
    scene.animations[0].channels.push(short);
    let locals = scene.evaluate(0, single(0.5), &wrap, &lerp, &slerp);
    assert_eq!(locals[0].translation, vec3(2.0, 0.0, 0.0));
    assert_eq!(locals[1], scene.nodes[1].local);
    assert!(scene.has_animations());
    let infos = scene.animation_infos();
    assert_eq!(infos.len(), 1);
    assert_eq!(infos[0].name, "move-parent");
    assert_eq!(infos[0].duration, single(1.0));
    let animator = SceneAnimator::new(scene);
    assert_eq!(animator.animations().len(), 1);
    assert_eq!(animator.scene().nodes.len(), 2);
}

#[test]
fn transforms_are_made_of_their_parts() {
    let t = NodeTransform::from_trs(
        [single(1.0), single(2.0), single(3.0)],
        [single(0.0), single(0.0), single(0.0), single(1.0)],
        [single(1.0), single(1.0), single(1.0)],
    );
    assert_eq!(t.translation, vec3(1.0, 2.0, 3.0));
    assert_eq!(t.rotation, NodeTransform::identity().rotation);
    assert_eq!(NodeTransform::default(), NodeTransform::identity());
}

// --- glTF documents ---------------------------------------------------------------------------

fn primitive() -> PrimitiveData {
    PrimitiveData {
        triangles: true,
        positions: Some(vec![
            vec3(0.0, 0.0, 0.0),
            vec3(1.0, 0.0, 0.0),
            vec3(0.0, 1.0, 0.0),
        ]),
        normals: None,
        indices: None,
        base_color: [single(1.0), single(0.0), single(0.0), single(1.0)],
    }
}

fn node(children: Vec<usize>, primitives: Vec<PrimitiveData>) -> NodeData {
    NodeData {
        name: None,
        local: NodeTransform::identity(),
        children,
        primitives,
    }
}

#[test]
fn nodes_are_visited_parents_first() {
    let nodes = [
        node(vec![2, 1], vec![]),
        node(vec![], vec![primitive()]),
        node(vec![3], vec![]),
        node(vec![], vec![]),
        node(vec![], vec![]),
    ];
    let visits = flatten(&nodes, &[4, 0]);
    let seen: Vec<(usize, Option<usize>)> = visits.iter().map(|v| (v.source, v.parent)).collect();
    assert_eq!(
        seen,
        vec![(4, None), (0, None), (2, Some(1)), (3, Some(2)), (1, Some(1))]
    );
    let h = build_hierarchy(&nodes, &visits);
    assert_eq!(h.roots, vec![0, 1]);
    assert_eq!(h.nodes[1].children, vec![2, 4]);
    assert_eq!(h.nodes[3].parent, Some(2));
    let instances = build_instances(&nodes, &visits).unwrap();
    assert_eq!(instances.len(), 1);
    assert_eq!(instances[0].node, 4);
    let map = NodeMap::new(&visits);
    assert_eq!(map.get(1), Some(4));
    assert_eq!(map.get(9), None);
    let joints = skinned_node_set(&[1, 9], &map);
    assert!(joints.contains(&4) && joints.len() == 1);
}

#[test]
fn nodes_below_themselves_are_found() {
    let leaf = || node(vec![], vec![]);
    assert!(is_forest(&[leaf(), node(vec![0], vec![])], &[1, 0]));
    assert!(is_forest(&[node(vec![0], vec![]), leaf()], &[1]));
    assert!(!is_forest(&[node(vec![1], vec![]), node(vec![0], vec![])], &[0]));
    assert!(!is_forest(&[node(vec![3], vec![])], &[0]));
    assert!(!is_forest(&[leaf()], &[1]));
    // A chain as long as there are nodes.
    let chain: Vec<NodeData> = (0..40)
        .map(|i| node(if i < 39 { vec![i + 1] } else { vec![] }, vec![]))
        .collect();
    assert!(is_forest(&chain, &[0]));
}

#[test]
fn primitives_fill_in_what_is_absent() {
    let mesh = load_primitive(&primitive()).unwrap().unwrap();
    assert_eq!(mesh.indices, vec![0, 1, 2]);
    assert_eq!(mesh.vertices[0].normal, Vec3::zero());
    let mut given = primitive();
    given.normals = Some(vec![vec3(0.0, 0.0, 1.0)]);
    given.indices = Some(vec![2, 1, 0]);
    let mesh = load_primitive(&given).unwrap().unwrap();
    assert_eq!(mesh.indices, vec![2, 1, 0]);
    assert_eq!(mesh.vertices[0].normal, vec3(0.0, 0.0, 1.0));
    assert_eq!(mesh.vertices[1].normal, Vec3::zero());
    let mut bare = primitive();
    bare.positions = Some(Vec::new());
    assert!(load_primitive(&bare).unwrap().is_none());
    let mut odd = primitive();
    odd.indices = Some(vec![0, 1]);
    assert_eq!(
        load_primitive(&odd).unwrap_err().message(),
        "invalid geometry: glTF triangle primitive has 2 indices, not a multiple of three"
    );
    let mut wild = primitive();
    wild.indices = Some(vec![0, 1, 3]);
    assert_eq!(
        load_primitive(&wild).unwrap_err().message(),
        "invalid geometry: glTF index 3 is out of range for 3 vertices"
    );
    let mut missing = primitive();
    missing.positions = None;
    assert!(matches!(
        load_primitive(&missing),
        Err(Error::Geometry(_))
    ));
}

fn slide() -> AnimationData {
    AnimationData {
        name: None,
        channels: vec![
            ChannelData {
                node: 0,
                interpolation: ChannelInterpolation::Linear,
                times: Some(times(&[0.0, 1.5])),
                outputs: Some(ChannelOutputs::Translations(vec![
                    vec3(0.0, 0.0, 0.0),
                    vec3(10.0, 0.0, 0.0),
                ])),
            },
            ChannelData {
                node: 0,
                interpolation: ChannelInterpolation::Step,
                times: Some(times(&[0.0])),
                outputs: Some(ChannelOutputs::MorphTargetWeights),
            },
            ChannelData {
                node: 8,
                interpolation: ChannelInterpolation::Step,
                times: Some(times(&[0.0, 9.0])),
                outputs: Some(ChannelOutputs::Scales(vec![vec3(1.0, 1.0, 1.0); 2])),
            },
        ],
    }
}

#[test]
fn only_triangle_primitives_are_drawn() {
    let mut lines = primitive();
    lines.triangles = false;
    let nodes = [node(vec![], vec![lines, primitive()])];
    let instances = build_instances(&nodes, &flatten(&nodes, &[0])).unwrap();
    assert_eq!(instances.len(), 1);
}

#[test]
fn animations_keep_the_channels_they_can_play() {
    let nodes = [node(vec![], vec![primitive()])];
    let map = NodeMap::new(&flatten(&nodes, &[0]));
    let list = build_animations(&[slide()], &map, &[]);
    assert_eq!(list.len(), 1);
    assert_eq!(list[0].name, "animation 0");
    assert_eq!(list[0].duration, single(1.5));
    assert!(!list[0].skinned);
    assert_eq!(list[0].channels.len(), 1);
    assert_eq!(list[0].channels[0].interpolation, Interpolation::Linear);
    let skinned = build_animations(&[slide()], &map, &[0]);
    assert!(skinned[0].skinned);
}

#[test]
fn curves_are_played_on_their_values() {
    let nodes = [node(vec![], vec![primitive()])];
    let map = NodeMap::new(&flatten(&nodes, &[0]));
    let tangent = vec3(9.0, 9.0, 9.0);
    let quat = |w: f32| Quat { x: single(0.0), y: single(0.0), z: single(0.0), w: single(w) };
    let data = AnimationData {
        name: Some("curve".to_string()),
        channels: vec![
            ChannelData {
                node: 0,
                interpolation: ChannelInterpolation::CubicSpline,
                times: Some(times(&[0.0, 2.0])),
                outputs: Some(ChannelOutputs::Translations(vec![
                    tangent,
                    vec3(1.0, 0.0, 0.0),
                    tangent,
                    tangent,
                    vec3(3.0, 0.0, 0.0),
                    tangent,
                ])),
            },
            ChannelData {
                node: 0,
                interpolation: ChannelInterpolation::CubicSpline,
                times: Some(times(&[1.0])),
                outputs: Some(ChannelOutputs::Rotations(vec![quat(7.0), quat(1.0), quat(8.0)])),
            },
            ChannelData {
                node: 0,
                interpolation: ChannelInterpolation::Step,
                times: Some(times(&[0.0, 1.0, 2.0])),
                outputs: Some(ChannelOutputs::Scales(vec![vec3(1.0, 1.0, 1.0); 3])),
            },
        ],
    };
    let list = build_animations(&[data], &map, &[]);
    let channels = &list[0].channels;
    assert_eq!(channels.len(), 3);
    assert_eq!(channels[0].interpolation, Interpolation::Linear);
    assert_eq!(channels[0].times, times(&[0.0, 2.0]));
    match &channels[0].samples {
        ChannelSamples::Translation(v) => {
            assert_eq!(*v, vec![vec3(1.0, 0.0, 0.0), vec3(3.0, 0.0, 0.0)])
        }
        other => panic!("{other:?}"),
    }
    match &channels[1].samples {
        ChannelSamples::Rotation(v) => assert_eq!(*v, vec![quat(1.0)]),
        other => panic!("{other:?}"),
    }
    assert_eq!(channels[2].interpolation, Interpolation::Step);
    match &channels[2].samples {
        ChannelSamples::Scale(v) => assert_eq!(v.len(), 3),
        other => panic!("{other:?}"),
    }
}

#[test]
fn stats_gather_the_scene() {
    let nodes = [node(vec![], vec![primitive()])];
    let animated =
        import_animated("triangle".to_string(), &nodes, &[0], &[slide()], &[]).unwrap();
    assert_eq!(animated.name, "triangle");
    assert_eq!((animated.nodes.len(), animated.roots.len()), (1, 1));
    assert_eq!(animated.instances.len(), 1);
    let scene = Scene::new(
        "triangle".to_string(),
        vec![load_primitive(&primitive()).unwrap().unwrap()],
    );
    let stats = GltfStats::gather(&scene, &animated, 1, None);
    assert_eq!(stats.mesh_count, 1);
    assert_eq!(stats.vertex_count, 3);
    assert_eq!(stats.triangle_count, 1);
    assert_eq!(stats.material_count, 1);
    assert_eq!(stats.animation_count, 1);
    assert_eq!(
        stats.base_colors,
        vec![[single(1.0), single(0.0), single(0.0), single(1.0)]]
    );
    assert_eq!(stats.bounding_box.unwrap().max, vec3(1.0, 1.0, 0.0));
}

#[test]
fn a_bad_primitive_fails_the_import() {
    let mut bad = primitive();
    bad.positions = None;
    let nodes = [node(vec![1], vec![primitive()]), node(vec![], vec![bad])];
    let r = import_animated("bad".to_string(), &nodes, &[0], &[], &[]);
    assert!(matches!(r, Err(Error::Geometry(_))));
    let r = import_animated("none".to_string(), &nodes, &[], &[], &[]);
    assert!(r.unwrap().nodes.is_empty());
}

#[test]
fn rotations_are_carried_bit_for_bit() {
    let q = Quat {
        x: single(0.0),
        y: single(0.0),
        z: single(0.5),
        w: single(0.5),
    };
    let mut data = slide();
    data.channels.truncate(1);
    data.channels[0].outputs = Some(ChannelOutputs::Rotations(vec![q, q]));
    let nodes = [node(vec![], vec![])];
    let map = NodeMap::new(&flatten(&nodes, &[0]));
    let list = build_animations(&[data], &map, &[]);
    assert!(matches!(
        &list[0].channels[0].samples,
        ChannelSamples::Rotation(v) if *v == vec![q, q]
    ));
}
