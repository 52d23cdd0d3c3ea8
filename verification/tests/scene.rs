use dot_vox::Rotation;
use vox_scene::scene::anomalies::{find_anomalies, invalid_boolean, Anomaly, AnomalyKind};
use vox_scene::scene::flatten::{
    parent_of, parse_scene_graph, placement_from_frame, FlattenedNode, NodeVisibility, Placement,
};
use vox_scene::scene::names::{find_model_names, get_accumulated_and_node_name, parse_bool};
use vox_scene::scene::node::{Frame, LayerInfo, Position, SceneNode};
use vox_scene::scene::sub_scenes::{build_sub_scenes, named_nodes};

fn s(text: &str) -> String {
    text.to_string()
}

fn transform(name: Option<&str>, child: u32) -> SceneNode {
    SceneNode::Transform { name: name.map(s), hidden: None, frame: None, child, layer_id: u32::MAX }
}

fn placed(name: Option<&str>, child: u32, at: (i32, i32, i32)) -> SceneNode {
    SceneNode::Transform {
        name: name.map(s),
        hidden: None,
        frame: Some(Frame { position: Some(Position { x: at.0, y: at.1, z: at.2 }), orientation: None }),
        child,
        layer_id: u32::MAX,
    }
}

fn group(children: &[u32]) -> SceneNode {
    SceneNode::Group { children: children.to_vec() }
}

fn shape(model: u32) -> SceneNode {
    SceneNode::Shape { models: vec![model] }
}

fn at(placement: &Option<Placement>) -> Option<(i64, i64, i64, Option<String>)> {
    placement.map(|p| (p.x, p.y, p.z, p.orientation.map(|r| format!("{:?}", r))))
}

fn summary(nodes: &[FlattenedNode]) -> Vec<(usize, Option<String>, Option<String>)> {
    nodes.iter().map(|n| (n.depth, n.name.clone(), n.model.clone())).collect()
}

/// root -> group -> [ "desk" -> shape 0, "lamp" -> group -> [ "shade" -> shape 1, unnamed -> shape 2 ] ]
fn study() -> Vec<SceneNode> {
    vec![
        transform(None, 1),
        group(&[2, 4]),
        placed(Some("desk"), 3, (1, 2, 3)),
        shape(0),
        placed(Some("lamp"), 5, (-4, 0, 9)),
        group(&[6, 8]),
        transform(Some("shade"), 7),
        shape(1),
        transform(None, 9),
        shape(2),
    ]
}

#[test]
fn names_accumulate_with_slashes() {
    let a = s("A");
    let b = s("B");
    let r = s("R");
    // unnamed root
    let (root, root_name) = get_accumulated_and_node_name(None, None);
    assert_eq!((root.clone(), root_name), (None, None));
    let (child, child_name) = get_accumulated_and_node_name(root.as_ref(), Some(&a));
    assert_eq!((child.clone(), child_name), (Some(s("A")), Some(s("A"))));
    let (grandchild, grandchild_name) = get_accumulated_and_node_name(child.as_ref(), Some(&b));
    assert_eq!((grandchild, grandchild_name), (Some(s("A/B")), Some(s("A/B"))));
    // named root
    let (root, root_name) = get_accumulated_and_node_name(None, Some(&r));
    assert_eq!((root.clone(), root_name), (Some(s("R")), Some(s("R"))));
    let (child, _) = get_accumulated_and_node_name(root.as_ref(), Some(&a));
    let (grandchild, _) = get_accumulated_and_node_name(child.as_ref(), Some(&b));
    assert_eq!(grandchild, Some(s("R/A/B")));
}

#[test]
fn unnamed_node_passes_its_parents_name_on() {
    let r = s("R");
    let b = s("B");
    let (passed, own) = get_accumulated_and_node_name(Some(&r), None);
    assert_eq!(passed, Some(s("R")));
    assert_eq!(own, None);
    let (below, below_name) = get_accumulated_and_node_name(passed.as_ref(), Some(&b));
    assert_eq!(below, Some(s("R/B")));
    assert_eq!(below_name, Some(s("R/B")));
}

#[test]
fn only_the_text_one_is_true() {
    assert!(parse_bool(Some(s("1"))));
    assert!(!parse_bool(Some(s("0"))));
    assert!(!parse_bool(Some(s("true"))));
    assert!(!parse_bool(Some(s("11"))));
    assert!(!parse_bool(Some(s(""))));
    assert!(!parse_bool(None));
}

#[test]
fn shapes_are_named_by_the_transform_above_them() {
    let graph = study();
    let mut names: Vec<Option<String>> = vec![None; 4];
    find_model_names(&mut names, &graph, &graph[0], None);
    // the shape under the unnamed transform takes the path of the group
    // that holds it
    assert_eq!(names, vec![Some(s("desk")), Some(s("lamp/shade")), Some(s("lamp")), None]);
}

#[test]
fn shape_under_an_unnamed_transform_inherits_the_accumulated_name() {
    let graph = vec![transform(Some("A"), 1), group(&[2]), transform(None, 3), shape(0)];
    let mut names: Vec<Option<String>> = vec![None];
    find_model_names(&mut names, &graph, &graph[0], None);
    assert_eq!(names, vec![Some(s("A"))]);
    // without any name above it, the model stays unnamed
    let graph = vec![transform(None, 1), group(&[2]), transform(None, 3), shape(0)];
    let mut names: Vec<Option<String>> = vec![None];
    find_model_names(&mut names, &graph, &graph[0], None);
    assert_eq!(names, vec![None]);
}

#[test]
fn named_root_is_part_of_every_path() {
    let mut graph = study();
    graph[0] = transform(Some("study"), 1);
    let mut names: Vec<Option<String>> = vec![None; 3];
    find_model_names(&mut names, &graph, &graph[0], None);
    assert_eq!(
        names,
        vec![Some(s("study/desk")), Some(s("study/lamp/shade")), Some(s("study/lamp"))]
    );
}

#[test]
fn later_name_replaces_earlier_one() {
    let graph = vec![
        transform(None, 1),
        group(&[2, 4]),
        transform(Some("first"), 3),
        shape(0),
        transform(Some("second"), 5),
        shape(0),
    ];
    let mut names: Vec<Option<String>> = vec![None];
    find_model_names(&mut names, &graph, &graph[0], None);
    assert_eq!(names, vec![Some(s("second"))]);
    // a transform without a name, under none, leaves a name alone
    let graph = vec![
        transform(None, 1),
        group(&[2, 4]),
        transform(Some("first"), 3),
        shape(0),
        transform(None, 5),
        shape(0),
    ];
    let mut names: Vec<Option<String>> = vec![None];
    find_model_names(&mut names, &graph, &graph[0], None);
    assert_eq!(names, vec![Some(s("first"))]);
}

#[test]
fn name_discovery_survives_malformed_graphs() {
    // child index past the list, shape without models, model past the list
    let graph = vec![
        transform(None, 1),
        group(&[2, 3, 5, 99]),
        transform(Some("gone"), 50),
        transform(Some("bare"), 4),
        SceneNode::Shape { models: vec![] },
        transform(Some("far"), 6),
        shape(7),
    ];
    let mut names: Vec<Option<String>> = vec![None; 2];
    find_model_names(&mut names, &graph, &graph[0], None);
    assert_eq!(names, vec![None, None]);
    // a group or shape as start names nothing
    let mut names: Vec<Option<String>> = vec![None; 2];
    find_model_names(&mut names, &graph, &graph[1], None);
    assert_eq!(names, vec![None, None]);
    // a transform directly below a transform names nothing
    let graph = vec![transform(Some("outer"), 1), transform(Some("inner"), 2), shape(0)];
    let mut names: Vec<Option<String>> = vec![None];
    find_model_names(&mut names, &graph, &graph[0], None);
    assert_eq!(names, vec![None]);
}

#[test]
fn name_discovery_ends_on_a_cycle() {
    let graph = vec![transform(Some("a"), 1), group(&[0, 2]), transform(Some("leaf"), 3), shape(0)];
    let mut names: Vec<Option<String>> = vec![None];
    find_model_names(&mut names, &graph, &graph[0], None);
    assert!(names[0].is_some());
}

#[test]
fn scene_is_written_parent_first_with_depths() {
    let graph = study();
    let mut names: Vec<Option<String>> = vec![None; 3];
    find_model_names(&mut names, &graph, &graph[0], None);
    let scene = parse_scene_graph(&graph, &graph[0], None, &names, &vec![]);
    assert_eq!(
        summary(&scene),
        vec![
            (0, None, None),
            (1, Some(s("desk")), Some(s("desk"))),
            (1, Some(s("lamp")), None),
            (2, Some(s("lamp/shade")), Some(s("lamp/shade"))),
            (2, None, Some(s("lamp"))),
        ]
    );
    assert!(scene.iter().all(|n| n.visibility == NodeVisibility::Inherited && n.layer.is_none()));
    // the root's frame is ignored, the others are converted
    assert_eq!(at(&scene[0].placement), None);
    assert_eq!(at(&scene[1].placement), Some((-1, 3, 2, None)));
    assert_eq!(at(&scene[2].placement), Some((4, 9, 0, None)));
    assert_eq!(at(&scene[3].placement), None);
}

#[test]
fn root_frame_is_ignored() {
    let graph = vec![placed(Some("root"), 1, (5, 6, 7)), shape(0)];
    let scene = parse_scene_graph(&graph, &graph[0], None, &vec![None], &vec![]);
    assert_eq!(summary(&scene), vec![(0, Some(s("root")), Some(s("model-0")))]);
    assert!(scene[0].placement.is_none());
}

#[test]
fn scene_of_a_group_or_shape_is_empty() {
    let graph = study();
    assert!(parse_scene_graph(&graph, &graph[1], None, &vec![], &vec![]).is_empty());
    assert!(parse_scene_graph(&graph, &graph[3], None, &vec![], &vec![]).is_empty());
}

#[test]
fn frame_becomes_a_placement_along_the_target_axes() {
    let turned = Rotation::from_byte(40);
    let frame = Some(Frame { position: Some(Position { x: 1, y: 2, z: 3 }), orientation: Some(turned) });
    assert_eq!(at(&placement_from_frame(&frame)), Some((-1, 3, 2, Some(format!("{:?}", turned)))));
    let lowest = Some(Frame {
        position: Some(Position { x: i32::MIN, y: i32::MIN, z: i32::MAX }),
        orientation: None,
    });
    assert_eq!(
        at(&placement_from_frame(&lowest)),
        Some((2_147_483_648, 2_147_483_647, -2_147_483_648, None))
    );
    // without a translation nothing is placed, whatever the orientation
    let unplaced = Frame { position: None, orientation: Some(Rotation::IDENTITY) };
    assert!(placement_from_frame(&Some(unplaced)).is_none());
    assert!(placement_from_frame(&None).is_none());
}

#[test]
fn node_is_hidden_by_its_attribute_or_its_layer() {
    let layers = vec![
        LayerInfo { name: Some(s("shown")), is_hidden: false },
        LayerInfo { name: None, is_hidden: true },
    ];
    let node = |hidden: Option<&str>, layer_id: u32, child: u32| SceneNode::Transform {
        name: None,
        hidden: hidden.map(s),
        frame: None,
        child,
        layer_id,
    };
    let graph = vec![
        node(None, 0, 1),
        group(&[2, 3, 4, 5, 6]),
        node(Some("1"), 0, 99),
        node(Some("0"), 1, 99),
        node(None, 2, 99),
        node(Some("yes"), 0, 99),
        node(Some("1"), 7, 99),
    ];
    let scene = parse_scene_graph(&graph, &graph[0], None, &vec![], &layers);
    let seen: Vec<(Option<u32>, NodeVisibility)> = scene.iter().map(|n| (n.layer, n.visibility)).collect();
    assert_eq!(
        seen,
        vec![
            (Some(0), NodeVisibility::Inherited),
            (Some(0), NodeVisibility::Hidden),
            (Some(1), NodeVisibility::Hidden),
            (None, NodeVisibility::Inherited),
            (Some(0), NodeVisibility::Inherited),
            (None, NodeVisibility::Hidden),
        ]
    );
}

#[test]
fn group_or_shape_without_a_transform_gets_a_wrapper() {
    // root -> group -> [ shape 0, group -> [ "x" -> shape 1 ] ]
    let graph = vec![
        transform(Some("root"), 1),
        group(&[2, 3]),
        shape(0),
        group(&[4]),
        placed(Some("x"), 5, (0, 0, 1)),
        shape(1),
    ];
    let scene = parse_scene_graph(&graph, &graph[0], None, &vec![None, Some(s("named"))], &vec![]);
    assert_eq!(
        summary(&scene),
        vec![
            (0, Some(s("root")), None),
            (1, None, Some(s("model-0"))),
            (1, None, None),
            (2, Some(s("root/x")), Some(s("named"))),
        ]
    );
    assert!(scene[1].placement.is_none());
    assert_eq!(scene[1].visibility, NodeVisibility::Inherited);
}

#[test]
fn transform_below_a_transform_becomes_its_child() {
    let graph = vec![transform(Some("outer"), 1), placed(Some("inner"), 2, (1, 0, 0)), shape(0)];
    let scene = parse_scene_graph(&graph, &graph[0], None, &vec![None], &vec![]);
    assert_eq!(
        summary(&scene),
        vec![(0, Some(s("outer")), None), (1, Some(s("outer/inner")), Some(s("model-0")))]
    );
    assert_eq!(at(&scene[1].placement), Some((-1, 0, 0, None)));
}

#[test]
fn flattening_survives_malformed_graphs() {
    let graph = vec![
        transform(None, 1),
        group(&[2, 77, 3]),
        transform(Some("dangling"), 50),
        transform(Some("bare"), 4),
        SceneNode::Shape { models: vec![] },
    ];
    let scene = parse_scene_graph(&graph, &graph[0], None, &vec![], &vec![]);
    assert_eq!(
        summary(&scene),
        vec![(0, None, None), (1, Some(s("dangling")), None), (1, Some(s("bare")), None)]
    );
}

#[test]
fn flattening_ends_on_a_cycle() {
    let graph = vec![transform(Some("a"), 1), group(&[0])];
    let scene = parse_scene_graph(&graph, &graph[0], None, &vec![], &vec![]);
    assert_eq!(summary(&scene), vec![(0, Some(s("a")), None), (1, Some(s("a/a")), None)]);
}

#[test]
fn named_nodes_come_children_first() {
    let graph = study();
    let named = named_nodes(&graph, &graph[0], None);
    let seen: Vec<(String, u32, Option<String>)> =
        named.iter().map(|n| (n.name.clone(), n.node, n.parent_name.clone())).collect();
    assert_eq!(
        seen,
        vec![(s("desk"), 2, None), (s("lamp/shade"), 6, Some(s("lamp"))), (s("lamp"), 4, None)]
    );
}

#[test]
fn root_is_not_a_sub_scene() {
    let graph = vec![transform(Some("root"), 1), group(&[2]), transform(Some("leaf"), 3), shape(0)];
    let named = named_nodes(&graph, &graph[0], None);
    assert_eq!(named.len(), 1);
    assert_eq!(named[0].name, s("root/leaf"));
    assert_eq!(named[0].parent_name, Some(s("root")));
    assert!(named_nodes(&graph, &graph[1], None).is_empty());
}

#[test]
fn each_name_is_a_sub_scene_once() {
    // two transforms called "chair" under one group, and a "table"
    let graph = vec![
        transform(None, 1),
        group(&[2, 4, 6]),
        placed(Some("chair"), 3, (1, 0, 0)),
        shape(0),
        placed(Some("chair"), 5, (2, 0, 0)),
        shape(1),
        transform(Some("table"), 7),
        shape(2),
    ];
    let mut names: Vec<Option<String>> = vec![None; 3];
    find_model_names(&mut names, &graph, &graph[0], None);
    let named = named_nodes(&graph, &graph[0], None);
    assert_eq!(named.len(), 3);
    let scenes = build_sub_scenes(&graph, &named, &names, &vec![]);
    let labels: Vec<String> = scenes.iter().map(|s| s.name.clone()).collect();
    assert_eq!(labels, vec![s("chair"), s("table")]);
    assert_eq!(names, vec![Some(s("chair")), Some(s("chair")), Some(s("table"))]);
    // the first "chair" is the one that can be loaded
    assert_eq!(summary(&scenes[0].nodes), vec![(0, Some(s("chair")), Some(s("chair")))]);
    assert!(scenes[0].nodes[0].placement.is_none());
    assert_eq!(summary(&scenes[1].nodes), vec![(0, Some(s("table")), Some(s("table")))]);
}

#[test]
fn sub_scene_of_a_group_holds_everything_below_it() {
    let graph = study();
    let mut names: Vec<Option<String>> = vec![None; 3];
    find_model_names(&mut names, &graph, &graph[0], None);
    let named = named_nodes(&graph, &graph[0], None);
    let scenes = build_sub_scenes(&graph, &named, &names, &vec![]);
    let labels: Vec<String> = scenes.iter().map(|s| s.name.clone()).collect();
    assert_eq!(labels, vec![s("desk"), s("lamp/shade"), s("lamp")]);
    assert_eq!(
        summary(&scenes[2].nodes),
        vec![
            (0, Some(s("lamp")), None),
            (1, Some(s("lamp/shade")), Some(s("lamp/shade"))),
            (1, None, Some(s("lamp"))),
        ]
    );
    assert_eq!(summary(&scenes[1].nodes), vec![(0, Some(s("lamp/shade")), Some(s("lamp/shade")))]);
}

#[test]
fn parent_is_the_nearest_node_one_level_up() {
    let graph = study();
    let scene = parse_scene_graph(&graph, &graph[0], None, &vec![], &vec![]);
    let parents: Vec<Option<usize>> = (0..scene.len()).map(|i| parent_of(&scene, i)).collect();
    assert_eq!(parents, vec![None, Some(0), Some(0), Some(2), Some(2)]);
}

fn kinds(found: &[Anomaly]) -> Vec<(AnomalyKind, u32)> {
    found.iter().map(|a| (a.kind, a.node)).collect()
}

#[test]
fn well_formed_graph_has_no_anomalies() {
    let layers = vec![LayerInfo { name: None, is_hidden: false }];
    let node = |name: Option<&str>, child: u32| SceneNode::Transform {
        name: name.map(s),
        hidden: Some(s("0")),
        frame: None,
        child,
        layer_id: 0,
    };
    let graph = vec![node(None, 1), group(&[2, 4]), node(Some("a"), 3), shape(0), node(None, 5), shape(1)];
    assert!(find_anomalies(&graph, &layers).is_empty());
    assert!(find_anomalies(&vec![], &layers).is_empty());
}

#[test]
fn anomalies_are_found_where_the_walk_recovers() {
    let layers = vec![LayerInfo { name: None, is_hidden: false }];
    let node = |hidden: Option<&str>, layer_id: u32, child: u32| SceneNode::Transform {
        name: None,
        hidden: hidden.map(s),
        frame: None,
        child,
        layer_id,
    };
    // root -> group -> [ shape, group -> [ transform -> transform -> shape ] ]
    let graph = vec![
        node(Some("1"), 0, 1),
        group(&[2, 3]),
        shape(0),
        group(&[4]),
        node(Some("yes"), 0, 5),
        node(None, 9, 6),
        shape(1),
    ];
    assert_eq!(
        kinds(&find_anomalies(&graph, &layers)),
        vec![
            (AnomalyKind::OrphanNode, 2),
            (AnomalyKind::OrphanNode, 3),
            (AnomalyKind::NestedTransform, 5),
            (AnomalyKind::UnknownLayer, 5),
            (AnomalyKind::InvalidBoolean, 4),
        ]
    );
    // an attribute of 0 or 1 is valid, anything else is not
    assert!(!invalid_boolean(&Some(s("0"))));
    assert!(!invalid_boolean(&Some(s("1"))));
    assert!(!invalid_boolean(&None));
    assert!(invalid_boolean(&Some(s(""))));
    assert!(invalid_boolean(&Some(s("true"))));
    assert!(invalid_boolean(&Some(s("10"))));
}

#[test]
fn anomalies_of_the_root_and_of_what_is_not_reached() {
    // the root is on no known layer and has an invalid attribute; node 3 is
    // never reached
    let graph = vec![
        SceneNode::Transform { name: None, hidden: Some(s("x")), frame: None, child: 1, layer_id: u32::MAX },
        shape(0),
        group(&[]),
        SceneNode::Transform { name: None, hidden: Some(s("x")), frame: None, child: 99, layer_id: 7 },
    ];
    assert_eq!(
        kinds(&find_anomalies(&graph, &vec![])),
        vec![(AnomalyKind::UnknownLayer, 0), (AnomalyKind::InvalidBoolean, 0)]
    );
    // nothing is flattened from a group or shape, so nothing is found
    let graph = vec![group(&[1]), shape(0)];
    assert!(find_anomalies(&graph, &vec![]).is_empty());
}
