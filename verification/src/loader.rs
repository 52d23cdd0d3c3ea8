//! Loading the models of a decoded voxel file as meshes alone: the first
//! model is the file's own mesh, the others are addressed by position.

use crate::load::{
    can_load_model, error_from_message, error_message, error_text, load_model, model_mesh,
    too_large_message,
};
use crate::mesh::{mesh_view, MeshQuad, MeshQuadView};
use crate::registry::RefractionTable;
use crate::text::{model_label, positional_label};
use crate::voxel::Model;
use vstd::prelude::*;

verus! {

/// Why a file could not be loaded.
#[derive(Debug)]
pub enum VoxLoaderError {
    InvalidAsset(anyhow::Error),
}

/// The message for a file without models.
pub open spec fn no_models_message() -> Seq<char> {
    "No models found in vox file"@
}

impl VoxLoaderError {
    /// The message of the error.
    pub open spec fn text(self) -> Seq<char> {
        match self {
            VoxLoaderError::InvalidAsset(error) => error_message(error),
        }
    }

    /// The error for a file that holds something that cannot be loaded.
    pub fn invalid(message: &str) -> (error: VoxLoaderError)
        ensures
            error.text() == message@,
    {
        VoxLoaderError::InvalidAsset(error_from_message(message))
    }

    /// What went wrong, in words.
    pub fn message(&self) -> (text: String)
        ensures
            text@ == self.text(),
    {
        match self {
            VoxLoaderError::InvalidAsset(error) => error_text(error),
        }
    }
}

/// A mesh under the label that addresses it.
pub struct LabeledMesh {
    pub label: String,
    pub mesh: Vec<MeshQuad>,
}

/// The meshes of a file: that of the first model, and those of the others
/// in file order, each under its label.
pub struct MeshAssets {
    pub default_mesh: Vec<MeshQuad>,
    pub labeled: Vec<LabeledMesh>,
}

/// `mesh` is the mesh of `model` with outer faces, no material being
/// translucent.
pub open spec fn is_mesh_of(mesh: Seq<MeshQuadView>, model: Model) -> bool {
    Some(mesh) == model_mesh(model, Map::empty(), true)
}

/// Meshes every model of a file. A file without models is invalid, and so
/// is one with a model that cannot be loaded.
pub fn process_vox_file(models: &Vec<Model>) -> (result: Result<MeshAssets, VoxLoaderError>)
    ensures
        result is Ok <==> models@.len() > 0 && forall|i: int|
            0 <= i < models@.len() ==> can_load_model(#[trigger] models@[i], Map::empty(), true),
        result is Err ==> result->Err_0.text() == (if models@.len() == 0 {
            no_models_message()
        } else {
            too_large_message()
        }),
        result is Ok ==> {
            let assets = result->Ok_0;
            &&& is_mesh_of(mesh_view(assets.default_mesh@), models@[0])
            &&& assets.labeled@.len() == models@.len() - 1
            &&& forall|i: int|
                1 <= i < models@.len() ==> (#[trigger] assets.labeled@[i - 1]).label@
                    == positional_label(i as nat) && is_mesh_of(
                    mesh_view(assets.labeled@[i - 1].mesh@),
                    models@[i],
                )
        },
{
    if models.len() == 0 {
        return Err(VoxLoaderError::invalid("No models found in vox file"));
    }
    let opaque = RefractionTable::from_entries(&Vec::new());
    let unnamed: Vec<Option<String>> = Vec::new();
    let ghost no_names = crate::scene::names::names_view(unnamed@);
    assert(no_names =~= Seq::empty());
    let default_mesh = match load_model(&models[0], 0, &unnamed, &opaque, true) {
        Some(loaded) => {
            assert(is_mesh_of(mesh_view(loaded.mesh@), models@[0]));
            loaded.mesh
        },
        None => {
            return Err(VoxLoaderError::invalid("A model is too large to be loaded"));
        },
    };
    let mut labeled: Vec<LabeledMesh> = Vec::new();
    let mut i: usize = 1;
    while i < models.len()
        invariant
            1 <= i <= models.len(),
            opaque@ == Map::<u8, u32>::empty(),
            unnamed@.len() == 0,
            no_names == crate::scene::names::names_view(unnamed@),
            no_names == Seq::<Option<Seq<char>>>::empty(),
            labeled@.len() == i - 1,
            forall|k: int| 0 <= k < i ==> can_load_model(#[trigger] models@[k], Map::empty(), true),
            forall|k: int|
                1 <= k < i ==> (#[trigger] labeled@[k - 1]).label@ == positional_label(k as nat)
                    && is_mesh_of(mesh_view(labeled@[k - 1].mesh@), models@[k]),
        decreases models.len() - i,
    {
        match load_model(&models[i], 0, &unnamed, &opaque, true) {
            Some(loaded) => {
                assert(is_mesh_of(mesh_view(loaded.mesh@), models@[i as int]));
                labeled.push(LabeledMesh { label: model_label(i), mesh: loaded.mesh });
            },
            None => {
                return Err(VoxLoaderError::invalid("A model is too large to be loaded"));
            },
        }
        i += 1;
    }
    Ok(MeshAssets { default_mesh, labeled })
}

} // verus!
