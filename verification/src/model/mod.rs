//! Models and the collection that finds them by name.

use crate::registry::{NameIndex, RefractionTable};
use crate::voxel::{refractions_of, VoxelData};
use vstd::prelude::*;

verus! {

/// The voxel data of a model under its name.
pub struct VoxelModel {
    /// Unique name of the model.
    pub name: String,
    /// The voxel data that the mesh is generated from.
    pub data: VoxelData,
    /// True if the model contains translucent voxels.
    pub has_translucency: bool,
}

impl VoxelModel {
    /// A copy of the model.
    pub fn duplicate(&self) -> (copy: VoxelModel)
        ensures
            copy.name@ == self.name@,
            copy.data.extents() == self.data.extents(),
            copy.data.voxels@ == self.data.voxels@,
            copy.has_translucency == self.has_translucency,
    {
        VoxelModel {
            name: self.name.clone(),
            data: self.data.duplicate(),
            has_translucency: self.has_translucency,
        }
    }
}

/// A collection of models that can be found by name.
pub struct VoxelModelCollection {
    /// The models in the collection, in the order they were added.
    pub models: Vec<VoxelModel>,
    pub(crate) index_for_model_name: NameIndex,
}

impl VoxelModelCollection {
    /// The models in the collection, in the order they were added.
    pub closed spec fn entries(&self) -> Seq<VoxelModel> {
        self.models@
    }

    /// The position recorded for each name.
    pub closed spec fn positions(&self) -> Map<Seq<char>, usize> {
        self.index_for_model_name@
    }

    /// The model that `name` stands for: the one at the position recorded
    /// for the name, if there is such a position in the list.
    pub open spec fn named(&self, name: Seq<char>) -> Option<VoxelModel> {
        if self.positions().contains_key(name) && self.positions()[name] < self.entries().len() {
            Some(self.entries()[self.positions()[name] as int])
        } else {
            None
        }
    }

    /// A collection without models.
    pub fn new() -> (collection: VoxelModelCollection)
        ensures
            collection.entries().len() == 0,
            collection.positions() == Map::<Seq<char>, usize>::empty(),
    {
        VoxelModelCollection { models: Vec::new(), index_for_model_name: NameIndex::new() }
    }

    /// Adds a model made of `data` under `name` at the end of the
    /// collection, and hands back a copy of it. The name stands for the new
    /// model from now on, also if it stood for another before. The model is
    /// translucent exactly if one of its voxels has a material with an
    /// entry in the palette's table of refractive indices.
    pub fn add(&mut self, data: VoxelData, name: String, translucent_voxels: &RefractionTable) -> (model:
        VoxelModel)
        ensures
            final(self).entries().len() == old(self).entries().len() + 1,
            final(self).entries().drop_last() == old(self).entries(),
            final(self).positions() == old(self).positions().insert(
                name@,
                old(self).entries().len() as usize,
            ),
            final(self).entries().last().name@ == name@,
            final(self).entries().last().data == data,
            final(self).entries().last().has_translucency == (refractions_of(
                data.voxels@,
                translucent_voxels@,
            ).len() > 0),
            model.name@ == name@,
            model.data.extents() == data.extents(),
            model.data.voxels@ == data.voxels@,
            model.has_translucency == (refractions_of(data.voxels@, translucent_voxels@).len() > 0),
    {
        let has_translucency = data.refraction_indices(translucent_voxels).len() > 0;
        let model = VoxelModel { name: name.clone(), data, has_translucency };
        let copy = model.duplicate();
        let index = self.models.len();
        self.index_for_model_name.insert(name, index);
        self.models.push(model);
        assert(self.models@.drop_last() =~= old(self).models@);
        copy
    }

    /// Retrieves a model from the collection by name.
    pub fn model(&self, name: &String) -> (found: Option<&VoxelModel>)
        ensures
            match found {
                Some(model) => self.named(name@) == Some(*model),
                None => self.named(name@) is None,
            },
    {
        let id = self.index_for_model_name.get(name);
        match id {
            Some(id) => {
                if id < self.models.len() {
                    Some(&self.models[id])
                } else {
                    None
                }
            },
            None => None,
        }
    }
}

/// A model that was just added is found under its name.
pub proof fn lemma_added_model_is_found(
    before: VoxelModelCollection,
    after: VoxelModelCollection,
    name: Seq<char>,
)
    requires
        after.entries().len() == before.entries().len() + 1,
        after.entries().len() <= usize::MAX,
        after.positions() == before.positions().insert(name, before.entries().len() as usize),
    ensures
        after.named(name) == Some(after.entries().last()),
{
}

} // verus!
