use vox_scene::load::{discover_names, load_model, process_vox_file, VoxFile, VoxLoaderError};
use vox_scene::loader;
use vox_scene::registry::RefractionTable;
use vox_scene::scene::anomalies::AnomalyKind;
use vox_scene::scene::node::{LayerInfo, SceneNode};
use vox_scene::text::{decimal_string, model_label, part_label, synthesized_model_name, ModelPart};
use vox_scene::voxel::{count_dropped, Model, Size, SourceVoxel};

fn s(text: &str) -> String {
    text.to_string()
}

fn transform(name: Option<&str>, child: u32) -> SceneNode {
    SceneNode::Transform { name: name.map(s), hidden: None, frame: None, child, layer_id: 0 }
}

fn cube(i: u8) -> Model {
    Model { size: Size { x: 1, y: 1, z: 1 }, voxels: vec![SourceVoxel { x: 0, y: 0, z: 0, i }] }
}

fn huge() -> Model {
    Model { size: Size { x: 4000, y: 4000, z: 4000 }, voxels: vec![] }
}

fn file() -> VoxFile {
    VoxFile {
        models: vec![cube(1), cube(2), cube(3)],
        scenes: vec![
            transform(None, 1),
            SceneNode::Group { children: vec![2, 4, 6] },
            transform(Some("glass"), 3),
            SceneNode::Shape { models: vec![1] },
            transform(Some("stone"), 5),
            SceneNode::Shape { models: vec![0] },
            transform(None, 7),
            SceneNode::Shape { models: vec![2] },
        ],
        layers: vec![LayerInfo { name: Some(s("base")), is_hidden: true }],
    }
}

#[test]
fn numbers_are_written_in_decimal() {
    assert_eq!(decimal_string(0), "0");
    assert_eq!(decimal_string(7), "7");
    assert_eq!(decimal_string(10), "10");
    assert_eq!(decimal_string(1234567890), "1234567890");
    assert_eq!(decimal_string(usize::MAX), usize::MAX.to_string());
}

#[test]
fn labels_are_made_of_name_and_suffix() {
    assert_eq!(synthesized_model_name(12), "model-12");
    assert_eq!(model_label(3), "model3");
    assert_eq!(part_label(&s("desk/lamp"), ModelPart::Mesh), "desk/lamp@mesh");
    assert_eq!(part_label(&s("desk"), ModelPart::Material), "desk@material");
    assert_eq!(part_label(&s(""), ModelPart::Model), "@model");
}

#[test]
fn names_are_none_without_a_scene_graph() {
    assert_eq!(discover_names(&vec![], 2), vec![None, None]);
    assert_eq!(discover_names(&file().scenes, 4), vec![Some(s("stone")), Some(s("glass")), None, None]);
}

#[test]
fn file_is_loaded_with_scene_sub_scenes_and_models() {
    let table = RefractionTable::from_entries(&vec![(2, 0x3fa66666)]);
    let loaded = process_vox_file(&file(), &table, true).unwrap();
    let names: Vec<String> = loaded.models.iter().map(|m| m.name.clone()).collect();
    assert_eq!(names, vec![s("stone"), s("glass"), s("model-2")]);
    let translucent: Vec<bool> = loaded.models.iter().map(|m| m.has_translucency).collect();
    assert_eq!(translucent, vec![false, true, false]);
    assert_eq!(loaded.models[1].refraction_indices, vec![0x3fa66666]);
    assert!(loaded.models[0].refraction_indices.is_empty());
    for model in &loaded.models {
        assert_eq!(model.data.voxels.len(), 27);
        assert_eq!(model.mesh.len(), 6);
    }
    assert_eq!(loaded.models[2].mesh[0].material, 3);
    let scene: Vec<(usize, Option<String>, Option<String>)> =
        loaded.scene.iter().map(|n| (n.depth, n.name.clone(), n.model.clone())).collect();
    assert_eq!(
        scene,
        vec![
            (0, None, None),
            (1, Some(s("glass")), Some(s("glass"))),
            (1, Some(s("stone")), Some(s("stone"))),
            (1, None, Some(s("model-2"))),
        ]
    );
    assert!(loaded.scene.iter().all(|n| n.layer == Some(0)));
    let subs: Vec<String> = loaded.sub_scenes.iter().map(|s| s.name.clone()).collect();
    assert_eq!(subs, vec![s("glass"), s("stone")]);
    assert_eq!(loaded.sub_scenes[1].nodes.len(), 1);
    assert_eq!(loaded.sub_scenes[1].nodes[0].model, Some(s("stone")));
    assert!(loaded.anomalies.is_empty());
}

#[test]
fn model_with_tagged_voxels_is_translucent() {
    let model = Model {
        size: Size { x: 3, y: 1, z: 1 },
        voxels: vec![
            SourceVoxel { x: 0, y: 0, z: 0, i: 1 },
            SourceVoxel { x: 1, y: 0, z: 0, i: 2 },
            SourceVoxel { x: 2, y: 0, z: 0, i: 3 },
        ],
    };
    let iors = [1.1f32, 1.3, 1.5];
    let table = RefractionTable::from_entries(&vec![
        (1, iors[0].to_bits()),
        (2, iors[1].to_bits()),
        (3, iors[2].to_bits()),
    ]);
    let loaded = load_model(&model, 0, &vec![], &table, true).unwrap();
    assert!(loaded.has_translucency);
    let met: Vec<f32> = loaded.refraction_indices.iter().map(|bits| f32::from_bits(*bits)).collect();
    assert_eq!(met, vec![1.1, 1.3, 1.5]);
    let mean = met.iter().sum::<f32>() / met.len() as f32;
    assert!((mean - 1.3).abs() < 1e-6);
    // without tagged voxels there is nothing to average
    let plain = load_model(&model, 0, &vec![], &RefractionTable::from_entries(&vec![]), true).unwrap();
    assert!(!plain.has_translucency);
    assert!(plain.refraction_indices.is_empty());
}

#[test]
fn file_without_a_scene_graph_has_an_empty_scene() {
    let file = VoxFile { models: vec![cube(1)], scenes: vec![], layers: vec![] };
    let loaded = process_vox_file(&file, &RefractionTable::from_entries(&vec![]), false).unwrap();
    assert!(loaded.scene.is_empty());
    assert!(loaded.sub_scenes.is_empty());
    assert!(loaded.anomalies.is_empty());
    assert_eq!(loaded.models.len(), 1);
    assert_eq!(loaded.models[0].name, "model-0");
    // a single cell is all boundary: no quads without outer faces
    assert!(loaded.models[0].mesh.is_empty());
}

#[test]
fn file_with_a_model_that_is_too_large_is_invalid() {
    let file = VoxFile { models: vec![cube(1), huge()], scenes: vec![], layers: vec![] };
    let error = process_vox_file(&file, &RefractionTable::from_entries(&vec![]), true).err().unwrap();
    assert!(matches!(error, VoxLoaderError::InvalidAsset(_)));
    assert_eq!(error.message(), "A model is too large to be loaded");
    assert!(load_model(&huge(), 0, &vec![], &RefractionTable::from_entries(&vec![]), true).is_none());
    assert_eq!(VoxLoaderError::invalid("broken").message(), "broken");
}

#[test]
fn meshes_are_labelled_by_position() {
    let assets = loader::process_vox_file(&vec![cube(1), cube(2), cube(3)]).unwrap();
    assert_eq!(assets.default_mesh.len(), 6);
    assert_eq!(assets.default_mesh[0].material, 1);
    let labels: Vec<String> = assets.labeled.iter().map(|m| m.label.clone()).collect();
    assert_eq!(labels, vec![s("model1"), s("model2")]);
    assert_eq!(assets.labeled[0].mesh[0].material, 2);
    assert_eq!(assets.labeled[1].mesh[0].material, 3);
}

#[test]
fn file_without_models_has_no_mesh() {
    let error = loader::process_vox_file(&vec![]).err().unwrap();
    assert!(matches!(error, loader::VoxLoaderError::InvalidAsset(_)));
    assert_eq!(error.message(), "No models found in vox file");
    let error = loader::process_vox_file(&vec![cube(1), huge()]).err().unwrap();
    assert_eq!(error.message(), "A model is too large to be loaded");
    assert_eq!(loader::VoxLoaderError::invalid("broken").message(), "broken");
}

#[test]
fn loaded_file_lists_the_anomalies_of_its_scene_graph() {
    let file = VoxFile {
        models: vec![cube(1)],
        scenes: vec![
            SceneNode::Transform { name: None, hidden: Some(s("no")), frame: None, child: 1, layer_id: 3 },
            SceneNode::Group { children: vec![2] },
            SceneNode::Shape { models: vec![0] },
        ],
        layers: vec![],
    };
    let loaded = process_vox_file(&file, &RefractionTable::from_entries(&vec![]), true).unwrap();
    let found: Vec<(AnomalyKind, u32)> = loaded.anomalies.iter().map(|a| (a.kind, a.node)).collect();
    assert_eq!(
        found,
        vec![(AnomalyKind::OrphanNode, 2), (AnomalyKind::UnknownLayer, 0), (AnomalyKind::InvalidBoolean, 0)]
    );
    // flattening went on past them
    assert_eq!(loaded.scene.len(), 2);
    assert_eq!(loaded.scene[1].model, Some(s("model-0")));
}

#[test]
fn loaded_model_counts_the_voxels_it_dropped() {
    let model = Model {
        size: Size { x: 2, y: 2, z: 2 },
        voxels: vec![
            SourceVoxel { x: 0, y: 0, z: 0, i: 1 },
            SourceVoxel { x: 2, y: 0, z: 0, i: 1 },
            SourceVoxel { x: 1, y: 1, z: 1, i: 1 },
            SourceVoxel { x: 0, y: 9, z: 0, i: 1 },
        ],
    };
    assert_eq!(count_dropped(&model), 2);
    let loaded = load_model(&model, 0, &vec![], &RefractionTable::from_entries(&vec![]), true).unwrap();
    assert_eq!(loaded.dropped, 2);
    assert_eq!(count_dropped(&cube(1)), 0);
    assert_eq!(load_model(&cube(1), 0, &vec![], &RefractionTable::from_entries(&vec![]), true).unwrap().dropped, 0);
}
