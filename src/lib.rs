//! A chunked voxel world with levels of detail.
//!
//! - `voxel`, `terrain`: materials, and chunks filled from column heights.
//! - `store`: chunk data at every level of detail, point-downsampled upward.
//! - `clipmap`: the octree index over level-0 chunks and its clipmap queries.
//! - `level_of_detail`: the per-frame controller that turns viewer moves into updates.
//! - `mesh_generator`, `chunk_generator`: pending work, applied under a per-frame budget.
//! - `chunk_meshes`, `fade`, `mesh`: mesh instances, their crossfades and reaping.
//! - `voxel_map`: the world as a whole: generation, write-back, reset.

use vstd::prelude::*;

pub mod fade;
pub mod geom;
pub mod voxel;
pub mod terrain;
pub mod config;
pub mod chunk_meshes;
pub mod clipmap;
pub mod mesh_generator;
pub mod level_of_detail;
pub mod chunk_generator;
pub mod store;
pub mod mesh;
pub mod voxel_map;
pub mod data_sets;

verus! {

/// Coarse phases of the application: assets loading, world being prepared, running.
#[derive(Clone, Copy, Debug, PartialEq, Eq, Hash, Structural)]
pub enum AppState {
    Loading,
    Preparing,
    Running,
}

} // verus!
