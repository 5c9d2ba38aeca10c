//! Core of a voxel world: a fixed-capacity slot pool, a generation-checked
//! handle arena built on it, a toroidal chunk cache addressed by Euclidean
//! modulo, and a greedy tessellator that turns voxel slices into quad meshes.

use vstd::prelude::*;

pub mod arena;
pub mod block;
pub mod chunk;
pub mod chunkset;
pub mod geometry;
pub mod pool;
pub mod tessellate;
pub mod world;

verus! {

/// Width and height of a chunk, in blocks, along every axis.
pub const CHUNK_SIZE: usize = 16;

} // verus!
