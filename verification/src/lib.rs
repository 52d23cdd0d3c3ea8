//! Voxel scenes: from a decoded voxel-art file to what a renderer needs.
//!
//! A file holds a palette, sparse voxel models and a scene graph. The
//! [`voxel`] module loads a sparse model into a dense grid with a cell of
//! padding on every side, [`mesh`] merges the visible faces of a grid into
//! quads, and [`scene`] flattens the scene graph into a named hierarchy of
//! positioned nodes and answers which voxel lies at a point. [`load`] and
//! [`loader`] put these together for a whole file.
//!
//! Everything here works on integers. Colours, refractive indices and
//! transforms are floating-point work that is left to the caller; where a
//! refractive index passes through, it does so as its bit pattern.

use vstd::prelude::*;

pub mod load;
pub mod loader;
pub mod math;
pub mod mesh;
pub mod model;
pub mod palette;
pub mod registry;
pub mod scene;
pub mod shape;
pub mod text;
pub mod voxel;
