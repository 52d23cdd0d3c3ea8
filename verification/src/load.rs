//! Loading a decoded voxel file: the names of its models, its flattened
//! scene with the sub-scenes that can be loaded by name, and for each model
//! its grid and mesh.

use crate::mesh::{mesh_fits, mesh_model, mesh_of, mesh_view, MeshQuad, MeshQuadView};
use crate::registry::RefractionTable;
use crate::scene::anomalies::{find_anomalies, scene_anomalies, Anomaly};
use crate::scene::flatten::{nodes_view, parse_scene_graph, scene_of, FlattenedNode, NodeView};
use crate::scene::names::{find_model_names, names_after_node, names_view};
use crate::scene::node::{LayerInfo, SceneNode};
use crate::scene::sub_scenes::{
    build_sub_scenes, named_below_root, named_nodes, sub_scenes_of, sub_scenes_view, SubScene,
    SubSceneView,
};
use crate::text::{resolved_name, synthesized_model_name};
use crate::voxel::{
    count_dropped, dropped_count, grid_cells, lemma_refraction_met_iff_tagged, load_from_model,
    refractions_met, Model, VoxelData,
};
use vstd::prelude::*;

verus! {

#[verifier::external_type_specification]
#[verifier::external_body]
pub struct ExAnyhowError(anyhow::Error);

/// Why a file could not be loaded.
#[derive(Debug)]
pub enum VoxLoaderError {
    InvalidAsset(anyhow::Error),
}

/// The message that an error displays.
pub uninterp spec fn error_message(error: anyhow::Error) -> Seq<char>;

/// `anyhow::Error::msg`: an error that displays the message it is made
/// from.
#[verifier::external_body]
pub(crate) fn error_from_message(message: &str) -> (error: anyhow::Error)
    ensures
        error_message(error) == message@,
{
    anyhow::Error::msg(message.to_string())
}

/// `ToString::to_string` of an `anyhow::Error`: the message that the error
/// displays.
#[verifier::external_body]
pub(crate) fn error_text(error: &anyhow::Error) -> (text: String)
    ensures
        text@ == error_message(*error),
{
    error.to_string()
}

/// The message for a model that cannot be loaded.
pub open spec fn too_large_message() -> Seq<char> {
    "A model is too large to be loaded"@
}

impl VoxLoaderError {
    /// The message of the error.
    pub open spec fn text(self) -> Seq<char> {
        match self {
            VoxLoaderError::InvalidAsset(error) => error_message(error),
        }
    }

    /// The error for a file that holds something that cannot be loaded.
    pub fn invalid(message: &str) -> (error: VoxLoaderError)
        ensures
            error.text() == message@,
    {
        VoxLoaderError::InvalidAsset(error_from_message(message))
    }

    /// What went wrong, in words.
    pub fn message(&self) -> (text: String)
        ensures
            text@ == self.text(),
    {
        match self {
            VoxLoaderError::InvalidAsset(error) => error_text(error),
        }
    }
}

/// A decoded voxel file: its models, the nodes of its scene graph with the
/// root first, and its layers.
pub struct VoxFile {
    pub models: Vec<Model>,
    pub scenes: Vec<SceneNode>,
    pub layers: Vec<LayerInfo>,
}

/// A model of a loaded file: its name, its grid, its mesh, the refractive
/// indices of its translucent voxels, whether it has any, and how many
/// voxels of its list lay outside it and were dropped.
pub struct LoadedModel {
    pub name: String,
    pub data: VoxelData,
    pub mesh: Vec<MeshQuad>,
    pub refraction_indices: Vec<u32>,
    pub has_translucency: bool,
    pub dropped: usize,
}

/// A loaded file: the flattened scene, the sub-scenes that can be loaded by
/// name, the models in file order, and the anomalies of the scene graph
/// that flattening recovered from.
pub struct LoadedFile {
    pub scene: Vec<FlattenedNode>,
    pub sub_scenes: Vec<SubScene>,
    pub models: Vec<LoadedModel>,
    pub anomalies: Vec<Anomaly>,
}

/// The names that the scene graph of a file gives to its models: none
/// without a scene graph, else what the walk from the root finds.
pub open spec fn file_names(scenes: Seq<SceneNode>, model_count: nat) -> Seq<Option<Seq<char>>> {
    let unnamed = Seq::new(model_count, |i: int| None::<Seq<char>>);
    if scenes.len() > 0 {
        names_after_node(scenes, scenes[0], None, unnamed, scenes.len())
    } else {
        unnamed
    }
}

/// The flattened scene of a file: the scene rooted at the first node.
pub open spec fn file_scene(
    scenes: Seq<SceneNode>,
    names: Seq<Option<Seq<char>>>,
    layers: Seq<LayerInfo>,
) -> Seq<NodeView> {
    if scenes.len() > 0 {
        scene_of(scenes, scenes[0], None, names, layers)
    } else {
        Seq::empty()
    }
}

/// The sub-scenes of a file: one for each name that a transform below the
/// root has.
pub open spec fn file_sub_scenes(
    scenes: Seq<SceneNode>,
    names: Seq<Option<Seq<char>>>,
    layers: Seq<LayerInfo>,
) -> Seq<SubSceneView> {
    if scenes.len() > 0 {
        sub_scenes_of(scenes, named_below_root(scenes, scenes[0], None), names, layers)
    } else {
        Seq::empty()
    }
}

/// The model can be loaded: its padded grid has at most `u32::MAX` cells,
/// and its mesh few enough vertices to number them in a `u32`.
pub open spec fn can_load_model(model: Model, table: Map<u8, u32>, mesh_outer_faces: bool) -> bool {
    &&& model.size.fits()
    &&& mesh_fits(grid_cells(model.voxels@, model.size, table), model.size.padded(), mesh_outer_faces)
}

/// The mesh of a model: that of its grid.
pub open spec fn model_mesh(model: Model, table: Map<u8, u32>, mesh_outer_faces: bool) -> Option<
    Seq<MeshQuadView>,
> {
    mesh_of(grid_cells(model.voxels@, model.size, table), model.size.padded(), mesh_outer_faces)
}

/// `loaded` is what loading `model` as the `index`-th model of a file
/// yields: the name that the scene graph gave it or `model-` and its index,
/// the grid of the model, the mesh of that grid, the refractive indices met,
/// the translucency flag set exactly if there is such an index, and the
/// number of voxels dropped.
pub open spec fn is_loaded_model(
    loaded: LoadedModel,
    model: Model,
    index: nat,
    names: Seq<Option<Seq<char>>>,
    table: Map<u8, u32>,
    mesh_outer_faces: bool,
) -> bool {
    &&& loaded.name@ == resolved_name(names, index)
    &&& loaded.data.holds_model(model.size, model.voxels@, table)
    &&& loaded.data.voxels@ == grid_cells(model.voxels@, model.size, table)
    &&& Some(mesh_view(loaded.mesh@)) == model_mesh(model, table, mesh_outer_faces)
    &&& loaded.refraction_indices@ == refractions_met(model.voxels@, model.size, table)
    &&& loaded.has_translucency == (loaded.refraction_indices@.len() > 0)
    &&& loaded.dropped == dropped_count(model.voxels@, model.size)
}

/// A loaded model is translucent exactly if a voxel of its list lies inside
/// the model and has a material with a refractive index; it then has one
/// refractive index for each such voxel, and none otherwise.
pub proof fn lemma_loaded_model_translucency(
    loaded: LoadedModel,
    model: Model,
    index: nat,
    names: Seq<Option<Seq<char>>>,
    table: Map<u8, u32>,
    mesh_outer_faces: bool,
)
    requires
        is_loaded_model(loaded, model, index, names, table, mesh_outer_faces),
    ensures
        loaded.has_translucency <==> exists|k: int|
            0 <= k < model.voxels@.len() && (#[trigger] model.voxels@[k]).inside(model.size)
                && table.contains_key(model.voxels@[k].i),
        !loaded.has_translucency ==> loaded.refraction_indices@.len() == 0,
        loaded.refraction_indices@ == refractions_met(model.voxels@, model.size, table),
{
    lemma_refraction_met_iff_tagged(model.voxels@, model.size, table);
}

/// The names of the models of a file, before any model is loaded.
pub fn discover_names(scenes: &Vec<SceneNode>, model_count: usize) -> (model_names: Vec<Option<String>>)
    ensures
        names_view(model_names@) == file_names(scenes@, model_count as nat),
{
    let mut model_names: Vec<Option<String>> = Vec::new();
    let mut i: usize = 0;
    while i < model_count
        invariant
            i <= model_count,
            model_names@.len() == i,
            forall|k: int| 0 <= k < i ==> (#[trigger] model_names@[k]) is None,
        decreases model_count - i,
    {
        model_names.push(None);
        i += 1;
    }
    assert(names_view(model_names@) =~= Seq::new(model_count as nat, |i: int| None::<Seq<char>>));
    if scenes.len() > 0 {
        find_model_names(&mut model_names, scenes, &scenes[0], None);
    }
    model_names
}

/// Loads one model of a file, if it can be loaded.
pub fn load_model(
    model: &Model,
    index: usize,
    model_names: &Vec<Option<String>>,
    translucent_voxels: &RefractionTable,
    mesh_outer_faces: bool,
) -> (loaded: Option<LoadedModel>)
    ensures
        loaded is Some <==> can_load_model(*model, translucent_voxels@, mesh_outer_faces),
        loaded is Some ==> is_loaded_model(
            loaded->0,
            *model,
            index as nat,
            names_view(model_names@),
            translucent_voxels@,
            mesh_outer_faces,
        ),
{
    if !model.size.can_load() {
        return None;
    }
    let name = if index < model_names.len() {
        match &model_names[index] {
            Some(name) => name.clone(),
            None => synthesized_model_name(index),
        }
    } else {
        synthesized_model_name(index)
    };
    let (data, refraction_indices) = load_from_model(model, translucent_voxels);
    let mesh = match mesh_model(&data, mesh_outer_faces) {
        Some(mesh) => mesh,
        None => {
            return None;
        },
    };
    let has_translucency = refraction_indices.len() > 0;
    let dropped = count_dropped(model);
    Some(LoadedModel { name, data, mesh, refraction_indices, has_translucency, dropped })
}

/// Loads a decoded file: finds the names of its models, flattens its scene
/// graph, builds the sub-scenes, loads every model, and lists what was
/// wrong with the scene graph. The file is invalid exactly if one of its
/// models cannot be loaded.
pub fn process_vox_file(file: &VoxFile, translucent_voxels: &RefractionTable, mesh_outer_faces: bool) -> (result:
    Result<LoadedFile, VoxLoaderError>)
    ensures
        result is Ok <==> forall|i: int|
            0 <= i < file.models@.len() ==> can_load_model(
                #[trigger] file.models@[i],
                translucent_voxels@,
                mesh_outer_faces,
            ),
        result is Err ==> result->Err_0.text() == too_large_message(),
        result is Ok ==> {
            let loaded = result->Ok_0;
            let names = file_names(file.scenes@, file.models@.len());
            &&& nodes_view(loaded.scene@) == file_scene(file.scenes@, names, file.layers@)
            &&& sub_scenes_view(loaded.sub_scenes@) == file_sub_scenes(
                file.scenes@,
                names,
                file.layers@,
            )
            &&& loaded.anomalies@ == scene_anomalies(file.scenes@, file.layers@.len())
            &&& loaded.models@.len() == file.models@.len()
            &&& forall|i: int|
                0 <= i < file.models@.len() ==> is_loaded_model(
                    #[trigger] loaded.models@[i],
                    file.models@[i],
                    i as nat,
                    names,
                    translucent_voxels@,
                    mesh_outer_faces,
                )
        },
{
    let model_names = discover_names(&file.scenes, file.models.len());
    let ghost names = names_view(model_names@);
    let (scene, sub_scenes) = if file.scenes.len() > 0 {
        let scene = parse_scene_graph(&file.scenes, &file.scenes[0], None, &model_names, &file.layers);
        let named = named_nodes(&file.scenes, &file.scenes[0], None);
        let sub_scenes = build_sub_scenes(&file.scenes, &named, &model_names, &file.layers);
        (scene, sub_scenes)
    } else {
        let scene: Vec<FlattenedNode> = Vec::new();
        let sub_scenes: Vec<SubScene> = Vec::new();
        assert(nodes_view(scene@) =~= Seq::<NodeView>::empty());
        assert(sub_scenes_view(sub_scenes@) =~= Seq::<SubSceneView>::empty());
        (scene, sub_scenes)
    };
    let mut models: Vec<LoadedModel> = Vec::new();
    let mut i: usize = 0;
    while i < file.models.len()
        invariant
            i <= file.models.len(),
            names == names_view(model_names@),
            models@.len() == i,
            forall|k: int|
                0 <= k < i ==> can_load_model(
                    #[trigger] file.models@[k],
                    translucent_voxels@,
                    mesh_outer_faces,
                ),
            forall|k: int|
                0 <= k < i ==> is_loaded_model(
                    #[trigger] models@[k],
                    file.models@[k],
                    k as nat,
                    names,
                    translucent_voxels@,
                    mesh_outer_faces,
                ),
        decreases file.models.len() - i,
    {
        match load_model(&file.models[i], i, &model_names, translucent_voxels, mesh_outer_faces) {
            Some(loaded) => {
                models.push(loaded);
            },
            None => {
                return Err(VoxLoaderError::invalid("A model is too large to be loaded"));
            },
        }
        i += 1;
    }
    let anomalies = find_anomalies(&file.scenes, &file.layers);
    Ok(LoadedFile { scene, sub_scenes, models, anomalies })
}

} // verus!
