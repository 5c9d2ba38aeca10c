//! Shared geometry: the six face directions of a voxel cube and the vertex
//! record that tessellated quads are emitted as.
//!
//! All mesh coordinates live on the integer block lattice: a quad corner sits
//! on a cell boundary, never inside a cell, so positions and texture
//! coordinates are exact integers.

use vstd::prelude::*;

verus! {

/// One of the six axis-aligned face directions of a voxel cube:
/// north/south along +Y/-Y, east/west along +X/-X, up/down along +Z/-Z.
#[derive(Clone, Copy, Debug, PartialEq, Eq, Structural)]
pub enum Facing {
    N,
    E,
    W,
    S,
    U,
    D,
}

/// The index of a face direction in a six-entry per-face table,
/// in the order north, east, west, south, up, down.
pub open spec fn spec_facing_index(f: Facing) -> int {
    match f {
        Facing::N => 0,
        Facing::E => 1,
        Facing::W => 2,
        Facing::S => 3,
        Facing::U => 4,
        Facing::D => 5,
    }
}

impl Facing {
    /// Position of this direction in a six-entry per-face table.
    pub fn index(self) -> (r: usize)
        ensures
            r == spec_facing_index(self),
            r < 6,
    {
        match self {
            Facing::N => 0,
            Facing::E => 1,
            Facing::W => 2,
            Facing::S => 3,
            Facing::U => 4,
            Facing::D => 5,
        }
    }
}

/// One corner of a textured quad: a position on the block lattice, texture
/// coordinates in texture-tile units, and the index of the texture to sample.
#[derive(Clone, Copy, Debug, PartialEq, Eq, Structural)]
pub struct MeshVertex {
    pub px: i64,
    pub py: i64,
    pub pz: i64,
    pub u: u32,
    pub v: u32,
    pub tex_id: u32,
}

} // verus!
