//! The scene graph of a voxel file and its flattening: names are found in a
//! first walk, the positioned node hierarchy is built in a second.

pub mod anomalies;
pub mod flatten;
pub mod names;
pub mod node;
pub mod queryable;
pub mod sub_scenes;
