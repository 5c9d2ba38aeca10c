//! A chunk: a fixed-side cube of block IDs anchored at an integer world
//! position, with its cached quad mesh and a readiness flag that gates
//! rendering until generation and meshing have both finished.
//!
//! World generation consumes a terrain height per column, supplied by the
//! caller from whatever height-field oracle drives the world; everything the
//! chunk does with those heights is exact.

use vstd::prelude::*;
use crate::block::{BlockID, BlockProtoSet};
use crate::geometry::{Facing, MeshVertex};
use crate::block::BlockProto;
use crate::tessellate::{
    Square, cell, covers_all_solid, greedy_matches, quads_match, squares_wf,
    tessellate_slice, squares_to_vertices,
};
use crate::CHUNK_SIZE;

verus! {

/// Blocks in one chunk.
pub const CHUNK_VOLUME: usize = CHUNK_SIZE * CHUNK_SIZE * CHUNK_SIZE;

/// Anchors are kept well inside `i64` so mesh positions never overflow.
pub const ANCHOR_LIMIT: i64 = 0x1000_0000_0000_0000;

/// The flat index of local block position `(i, j, k)` inside a chunk.
pub open spec fn chunk_index(i: int, j: int, k: int) -> int {
    i * 256 + j * 16 + k
}

/// What a column cell holds after flat generation: grass on the ground
/// layer, then two of soil, then one of stone, and above that whatever was
/// there before.
pub open spec fn flat_cell(old_id: BlockID, k: int) -> BlockID {
    if k == 0 {
        4
    } else if 1 <= k < 3 {
        1
    } else if k == 3 {
        2
    } else {
        old_id
    }
}

/// What a column cell holds after planet generation, given the chunk's Z
/// anchor `z` and the column's terrain height `h`: grass at the surface when
/// the surface falls inside the chunk, dirt one below it, stone under the
/// dirt and throughout columns whose surface lies above the chunk.
pub open spec fn planet_cell(old_id: BlockID, z: int, h: int, k: int) -> BlockID {
    let hz = h - z;
    let dz = hz - 1;
    if 0 <= dz < 16 && k == dz {
        5
    } else if 0 <= dz < 16 && k < dz {
        2
    } else if hz >= 16 {
        2
    } else if 0 <= hz < 16 && k == hz {
        4
    } else {
        old_id
    }
}

/// The 16 x 16 grid of block IDs of the horizontal slice at height
/// `layer`, as the tessellator sees it: cell `(u, v)` at index `u * 16 + v`.
pub open spec fn slice_grid_z(ids: Seq<BlockID>, layer: int) -> Seq<BlockID> {
    Seq::new(256, |n: int| ids[chunk_index(n / 16, n % 16, layer)])
}

/// The 16 x 16 grid of the slice at Y depth `layer`.
pub open spec fn slice_grid_y(ids: Seq<BlockID>, layer: int) -> Seq<BlockID> {
    Seq::new(256, |n: int| ids[chunk_index(n / 16, layer, n % 16)])
}

/// The 16 x 16 grid of the slice at X depth `layer`.
pub open spec fn slice_grid_x(ids: Seq<BlockID>, layer: int) -> Seq<BlockID> {
    Seq::new(256, |n: int| ids[chunk_index(layer, n / 16, n % 16)])
}

/// A vertex run is the mesh of one slice for its two face directions: the
/// quads of the slice's greedy tessellation, the first direction's quads
/// first, then the second's. `covers_all_solid` together with
/// `greedy_matches` pins the rectangle list uniquely
/// (`lemma_greedy_deterministic`), and `quads_match` pins every vertex of
/// the run, so the run is a function of the slice's contents.
pub open spec fn slice_mesh_ok(
    run: Seq<MeshVertex>,
    grid: Seq<BlockID>,
    offset: (i64, i64, i64),
    f1: Facing,
    f2: Facing,
    blocks: Seq<BlockProto>,
) -> bool {
    exists|sqs: Seq<Square>| {
        &&& #[trigger] squares_wf(grid, 16, 16, sqs)
        &&& covers_all_solid(grid, 16, 16, sqs)
        &&& greedy_matches(grid, 16, 16, sqs)
        &&& run.len() == 8 * sqs.len()
        &&& quads_match(run.take(4 * sqs.len() as int), sqs, offset, f1, blocks)
        &&& quads_match(run.skip(4 * sqs.len() as int), sqs, offset, f2, blocks)
    }
}

/// The cached mesh is exactly the 48 slice runs of the chunk, in order:
/// up and down faces of the 16 horizontal slices, then north and south of
/// the 16 slices across Y, then east and west of the 16 slices across X.
pub open spec fn chunk_mesh_ok(
    mesh: Seq<MeshVertex>,
    ids: Seq<BlockID>,
    x: i64,
    y: i64,
    z: i64,
    blocks: Seq<BlockProto>,
) -> bool {
    exists|runs: Seq<Seq<MeshVertex>>| {
        &&& #[trigger] runs.flatten() == mesh
        &&& runs.len() == 48
        &&& forall|m: int| 0 <= m < 16 ==> slice_mesh_ok(#[trigger] runs[m],
                slice_grid_z(ids, m), (x, y, ((z as int + m) as i64)),
                Facing::U, Facing::D, blocks)
        &&& forall|m: int| 16 <= m < 32 ==> slice_mesh_ok(#[trigger] runs[m],
                slice_grid_y(ids, m - 16), (x, ((y as int + m - 16) as i64), z),
                Facing::N, Facing::S, blocks)
        &&& forall|m: int| 32 <= m < 48 ==> slice_mesh_ok(#[trigger] runs[m],
                slice_grid_x(ids, m - 32), (((x as int + m - 32) as i64), y, z),
                Facing::E, Facing::W, blocks)
    }
}

/// A cube of `CHUNK_SIZE` x `CHUNK_SIZE` x `CHUNK_SIZE` block IDs at the
/// world anchor `(x, y, z)` (in block units), with its cached mesh.
pub struct Chunk {
    pub x: i64,
    pub y: i64,
    pub z: i64,
    pub ids_array: Vec<BlockID>,
    pub mesh: Vec<MeshVertex>,
    pub ready_to_display: bool,
}

impl Chunk {
    /// The chunk's block IDs, flattened in `chunk_index` order.
    pub open spec fn ids(&self) -> Seq<BlockID> {
        self.ids_array@
    }

    /// Shape and range sanity: a full cube of IDs, anchored away from the
    /// edge of the integer range.
    pub open spec fn wf(&self) -> bool {
        &&& self.ids().len() == CHUNK_VOLUME
        &&& -ANCHOR_LIMIT <= self.x <= ANCHOR_LIMIT
        &&& -ANCHOR_LIMIT <= self.y <= ANCHOR_LIMIT
        &&& -ANCHOR_LIMIT <= self.z <= ANCHOR_LIMIT
    }

    /// Every block ID in the chunk names a prototype below `bound`.
    pub open spec fn ids_below(&self, bound: int) -> bool {
        forall|n: int| 0 <= n < self.ids().len() ==> #[trigger] self.ids()[n] < bound
    }

    /// A fresh, all-air chunk at the given anchor, not yet ready to render.
    pub fn new(x: i64, y: i64, z: i64) -> (r: Self)
        requires
            -ANCHOR_LIMIT <= x <= ANCHOR_LIMIT,
            -ANCHOR_LIMIT <= y <= ANCHOR_LIMIT,
            -ANCHOR_LIMIT <= z <= ANCHOR_LIMIT,
        ensures
            r.wf(),
            r.x == x && r.y == y && r.z == z,
            forall|n: int| 0 <= n < r.ids().len() ==> #[trigger] r.ids()[n] == 0,
            r.mesh@.len() == 0,
            !r.ready_to_display,
    {
        let mut ids_array: Vec<BlockID> = Vec::new();
        let mut n: usize = 0;
        while n < CHUNK_VOLUME
            invariant
                n <= CHUNK_VOLUME,
                ids_array@.len() == n,
                forall|m: int| 0 <= m < n ==> #[trigger] ids_array@[m] == 0,
            decreases CHUNK_VOLUME - n,
        {
            ids_array.push(0);
            n = n + 1;
        }
        Chunk { x, y, z, ids_array, mesh: Vec::new(), ready_to_display: false }
    }

    /// Whether the world-space block position lies inside this chunk.
    pub fn check_inside_me(&self, x: i64, y: i64, z: i64) -> (r: bool)
        requires
            self.wf(),
        ensures
            r == (self.x <= x < self.x + 16 && self.y <= y < self.y + 16
                && self.z <= z < self.z + 16),
    {
        self.x + 16 > x && x >= self.x && self.y + 16 > y && y >= self.y
            && self.z + 16 > z && z >= self.z
    }

    /// The block ID at a world position inside this chunk.
    pub fn get_block_id_at(&self, x: i64, y: i64, z: i64) -> (r: BlockID)
        requires
            self.wf(),
            self.x <= x < self.x + 16,
            self.y <= y < self.y + 16,
            self.z <= z < self.z + 16,
        ensures
            r == self.ids()[chunk_index(x - self.x, y - self.y, z - self.z)],
    {
        let i = (x - self.x) as usize;
        let j = (y - self.y) as usize;
        let k = (z - self.z) as usize;
        self.ids_array[i * 256 + j * 16 + k]
    }

    /// Overwrites the block ID at a world position inside this chunk; every
    /// other cell, the anchor, the cached mesh and the ready flag stay.
    pub fn set_block_id_at(&mut self, x: i64, y: i64, z: i64, id: BlockID)
        requires
            old(self).wf(),
            old(self).x <= x < old(self).x + 16,
            old(self).y <= y < old(self).y + 16,
            old(self).z <= z < old(self).z + 16,
        ensures
            final(self).wf(),
            final(self).ids()
                == old(self).ids().update(
                    chunk_index(x - old(self).x, y - old(self).y, z - old(self).z), id),
            final(self).x == old(self).x && final(self).y == old(self).y
                && final(self).z == old(self).z,
            final(self).mesh == old(self).mesh,
            final(self).ready_to_display == old(self).ready_to_display,
    {
        let i = (x - self.x) as usize;
        let j = (y - self.y) as usize;
        let k = (z - self.z) as usize;
        let slot = &mut self.ids_array[i * 256 + j * 16 + k];
        *slot = id;
    }

    /// Fills the chunk with the flat test terrain: for a chunk on the ground
    /// plane, grass over soil over stone in every column; any other chunk is
    /// left untouched.
    pub fn generate_flat(&mut self)
        requires
            old(self).wf(),
        ensures
            final(self).wf(),
            final(self).x == old(self).x && final(self).y == old(self).y
                && final(self).z == old(self).z,
            final(self).mesh == old(self).mesh,
            final(self).ready_to_display == old(self).ready_to_display,
            old(self).z == 0 ==> forall|i: int, j: int, k: int|
                0 <= i < 16 && 0 <= j < 16 && 0 <= k < 16
                    ==> final(self).ids()[#[trigger] chunk_index(i, j, k)]
                        == flat_cell(old(self).ids()[chunk_index(i, j, k)], k),
            old(self).z != 0 ==> final(self).ids() == old(self).ids(),
    {
        if self.z != 0 {
            return;
        }
        let ghost orig = self.ids();
        let mut i: usize = 0;
        while i < 16
            invariant
                self.wf(),
                i <= 16,
                self.x == old(self).x && self.y == old(self).y && self.z == old(self).z,
                self.mesh == old(self).mesh,
                self.ready_to_display == old(self).ready_to_display,
                orig == old(self).ids(),
                forall|i2: int, j2: int, k2: int|
                    0 <= i2 < i && 0 <= j2 < 16 && 0 <= k2 < 16
                        ==> self.ids()[#[trigger] chunk_index(i2, j2, k2)]
                            == flat_cell(orig[chunk_index(i2, j2, k2)], k2),
                forall|n: int| i * 256 <= n < CHUNK_VOLUME ==> #[trigger] self.ids()[n] == orig[n],
            decreases 16 - i,
        {
            let mut j: usize = 0;
            while j < 16
                invariant
                    self.wf(),
                    i < 16,
                    j <= 16,
                    self.x == old(self).x && self.y == old(self).y && self.z == old(self).z,
                    self.mesh == old(self).mesh,
                    self.ready_to_display == old(self).ready_to_display,
                    orig == old(self).ids(),
                    forall|i2: int, j2: int, k2: int|
                        0 <= i2 < 16 && 0 <= j2 < 16 && 0 <= k2 < 16
                            && (i2 < i || (i2 == i && j2 < j))
                            ==> self.ids()[#[trigger] chunk_index(i2, j2, k2)]
                                == flat_cell(orig[chunk_index(i2, j2, k2)], k2),
                    forall|n: int|
                        i * 256 + j * 16 <= n < CHUNK_VOLUME ==> #[trigger] self.ids()[n] == orig[n],
                decreases 16 - j,
            {
                let mut k: usize = 0;
                while k < 16
                    invariant
                        self.wf(),
                        i < 16,
                        j < 16,
                        k <= 16,
                        self.x == old(self).x && self.y == old(self).y && self.z == old(self).z,
                        self.mesh == old(self).mesh,
                        self.ready_to_display == old(self).ready_to_display,
                        orig == old(self).ids(),
                        forall|i2: int, j2: int, k2: int|
                            0 <= i2 < 16 && 0 <= j2 < 16 && 0 <= k2 < 16
                                && (i2 < i || (i2 == i && j2 < j)
                                    || (i2 == i && j2 == j && k2 < k))
                                ==> self.ids()[#[trigger] chunk_index(i2, j2, k2)]
                                    == flat_cell(orig[chunk_index(i2, j2, k2)], k2),
                        forall|n: int|
                            i * 256 + j * 16 + k <= n < CHUNK_VOLUME
                                ==> #[trigger] self.ids()[n] == orig[n],
                    decreases 16 - k,
                {
                    let nv: BlockID = if k == 0 {
                        4
                    } else if k < 3 {
                        1
                    } else if k == 3 {
                        2
                    } else {
                        self.ids_array[i * 256 + j * 16 + k]
                    };
                    let slot = &mut self.ids_array[i * 256 + j * 16 + k];
                    *slot = nv;
                    k = k + 1;
                }
                j = j + 1;
            }
            i = i + 1;
        }
    }

    /// Fills the chunk from a height field: `heights` gives, column by
    /// column in row-major order, the terrain surface height for this
    /// chunk's 16 x 16 footprint, and every cell becomes exactly what
    /// `planet_cell` says for its column.
    pub fn generate_planet(&mut self, heights: &Vec<i64>)
        requires
            old(self).wf(),
            heights@.len() == 256,
            forall|n: int| 0 <= n < 256 ==> -ANCHOR_LIMIT <= #[trigger] heights@[n] <= ANCHOR_LIMIT,
        ensures
            final(self).wf(),
            final(self).x == old(self).x && final(self).y == old(self).y
                && final(self).z == old(self).z,
            final(self).mesh == old(self).mesh,
            final(self).ready_to_display == old(self).ready_to_display,
            forall|i: int, j: int, k: int|
                0 <= i < 16 && 0 <= j < 16 && 0 <= k < 16
                    ==> final(self).ids()[#[trigger] chunk_index(i, j, k)]
                        == planet_cell(
                            old(self).ids()[chunk_index(i, j, k)],
                            old(self).z as int,
                            heights@[i * 16 + j] as int,
                            k),
    {
        let ghost orig = self.ids();
        let mut i: usize = 0;
        while i < 16
            invariant
                self.wf(),
                i <= 16,
                heights@.len() == 256,
                forall|n: int| 0 <= n < 256 ==> -ANCHOR_LIMIT <= #[trigger] heights@[n] <= ANCHOR_LIMIT,
                self.x == old(self).x && self.y == old(self).y && self.z == old(self).z,
                self.mesh == old(self).mesh,
                self.ready_to_display == old(self).ready_to_display,
                orig == old(self).ids(),
                forall|i2: int, j2: int, k2: int|
                    0 <= i2 < i && 0 <= j2 < 16 && 0 <= k2 < 16
                        ==> self.ids()[#[trigger] chunk_index(i2, j2, k2)]
                            == planet_cell(orig[chunk_index(i2, j2, k2)], self.z as int,
                                heights@[i2 * 16 + j2] as int, k2),
                forall|n: int| i * 256 <= n < CHUNK_VOLUME ==> #[trigger] self.ids()[n] == orig[n],
            decreases 16 - i,
        {
            let mut j: usize = 0;
            while j < 16
                invariant
                    self.wf(),
                    i < 16,
                    j <= 16,
                    heights@.len() == 256,
                    forall|n: int| 0 <= n < 256 ==> -ANCHOR_LIMIT <= #[trigger] heights@[n] <= ANCHOR_LIMIT,
                    self.x == old(self).x && self.y == old(self).y && self.z == old(self).z,
                    self.mesh == old(self).mesh,
                    self.ready_to_display == old(self).ready_to_display,
                    orig == old(self).ids(),
                    forall|i2: int, j2: int, k2: int|
                        0 <= i2 < 16 && 0 <= j2 < 16 && 0 <= k2 < 16
                            && (i2 < i || (i2 == i && j2 < j))
                            ==> self.ids()[#[trigger] chunk_index(i2, j2, k2)]
                                == planet_cell(orig[chunk_index(i2, j2, k2)], self.z as int,
                                    heights@[i2 * 16 + j2] as int, k2),
                    forall|n: int|
                        i * 256 + j * 16 <= n < CHUNK_VOLUME ==> #[trigger] self.ids()[n] == orig[n],
                decreases 16 - j,
            {
                let h = heights[i * 16 + j];
                let mut k: usize = 0;
                while k < 16
                    invariant
                        self.wf(),
                        i < 16,
                        j < 16,
                        k <= 16,
                        heights@.len() == 256,
                        h == heights@[i * 16 + j],
                        -ANCHOR_LIMIT <= h <= ANCHOR_LIMIT,
                        self.x == old(self).x && self.y == old(self).y && self.z == old(self).z,
                        self.mesh == old(self).mesh,
                        self.ready_to_display == old(self).ready_to_display,
                        orig == old(self).ids(),
                        forall|i2: int, j2: int, k2: int|
                            0 <= i2 < 16 && 0 <= j2 < 16 && 0 <= k2 < 16
                                && (i2 < i || (i2 == i && j2 < j)
                                    || (i2 == i && j2 == j && k2 < k))
                                ==> self.ids()[#[trigger] chunk_index(i2, j2, k2)]
                                    == planet_cell(orig[chunk_index(i2, j2, k2)], self.z as int,
                                        heights@[i2 * 16 + j2] as int, k2),
                        forall|n: int|
                            i * 256 + j * 16 + k <= n < CHUNK_VOLUME
                                ==> #[trigger] self.ids()[n] == orig[n],
                    decreases 16 - k,
                {
                    let old_id = self.ids_array[i * 256 + j * 16 + k];
                    let dirt_in_range = h - 1 >= self.z && h - 1 < self.z + 16;
                    let dz = if dirt_in_range { (h - 1 - self.z) as usize } else { 16 };
                    let nv: BlockID = if dirt_in_range && k == dz {
                        5
                    } else if dirt_in_range && k < dz {
                        2
                    } else if h >= self.z + 16 {
                        2
                    } else if h >= self.z && h < self.z + 16 && k == (h - self.z) as usize {
                        4
                    } else {
                        old_id
                    };
                    let slot = &mut self.ids_array[i * 256 + j * 16 + k];
                    *slot = nv;
                    k = k + 1;
                }
                j = j + 1;
            }
            i = i + 1;
        }
    }

    /// The 16 x 16 slice of block IDs at height `layer`, cell `(i, j)` at
    /// index `i * 16 + j`: the grid both up and down faces are meshed from.
    pub fn slice_z(&self, layer: usize) -> (r: Vec<BlockID>)
        requires
            self.wf(),
            layer < 16,
        ensures
            r@.len() == 256,
            forall|u: int, v: int|
                0 <= u < 16 && 0 <= v < 16
                    ==> #[trigger] cell(r@, 16, u, v) == self.ids()[chunk_index(u, v, layer as int)],
    {
        let mut r: Vec<BlockID> = Vec::new();
        let mut u: usize = 0;
        while u < 16
            invariant
                self.wf(),
                layer < 16,
                u <= 16,
                r@.len() == u * 16,
                forall|u2: int, v2: int|
                    0 <= u2 < u && 0 <= v2 < 16
                        ==> #[trigger] r@[u2 * 16 + v2] == self.ids()[chunk_index(u2, v2, layer as int)],
            decreases 16 - u,
        {
            let mut v: usize = 0;
            while v < 16
                invariant
                    self.wf(),
                    layer < 16,
                    u < 16,
                    v <= 16,
                    r@.len() == u * 16 + v,
                    forall|u2: int, v2: int|
                        0 <= u2 < 16 && 0 <= v2 < 16 && (u2 < u || (u2 == u && v2 < v))
                            ==> #[trigger] r@[u2 * 16 + v2]
                                == self.ids()[chunk_index(u2, v2, layer as int)],
                decreases 16 - v,
            {
                r.push(self.ids_array[u * 256 + v * 16 + layer]);
                v = v + 1;
            }
            u = u + 1;
        }
        r
    }

    /// The 16 x 16 slice at Y depth `layer`, for north and south faces.
    pub fn slice_y(&self, layer: usize) -> (r: Vec<BlockID>)
        requires
            self.wf(),
            layer < 16,
        ensures
            r@.len() == 256,
            forall|u: int, v: int|
                0 <= u < 16 && 0 <= v < 16
                    ==> #[trigger] cell(r@, 16, u, v) == self.ids()[chunk_index(u, layer as int, v)],
    {
        let mut r: Vec<BlockID> = Vec::new();
        let mut u: usize = 0;
        while u < 16
            invariant
                self.wf(),
                layer < 16,
                u <= 16,
                r@.len() == u * 16,
                forall|u2: int, v2: int|
                    0 <= u2 < u && 0 <= v2 < 16
                        ==> #[trigger] r@[u2 * 16 + v2] == self.ids()[chunk_index(u2, layer as int, v2)],
            decreases 16 - u,
        {
            let mut v: usize = 0;
            while v < 16
                invariant
                    self.wf(),
                    layer < 16,
                    u < 16,
                    v <= 16,
                    r@.len() == u * 16 + v,
                    forall|u2: int, v2: int|
                        0 <= u2 < 16 && 0 <= v2 < 16 && (u2 < u || (u2 == u && v2 < v))
                            ==> #[trigger] r@[u2 * 16 + v2]
                                == self.ids()[chunk_index(u2, layer as int, v2)],
                decreases 16 - v,
            {
                r.push(self.ids_array[u * 256 + layer * 16 + v]);
                v = v + 1;
            }
            u = u + 1;
        }
        r
    }

    /// The 16 x 16 slice at X depth `layer`, for east and west faces.
    pub fn slice_x(&self, layer: usize) -> (r: Vec<BlockID>)
        requires
            self.wf(),
            layer < 16,
        ensures
            r@.len() == 256,
            forall|u: int, v: int|
                0 <= u < 16 && 0 <= v < 16
                    ==> #[trigger] cell(r@, 16, u, v) == self.ids()[chunk_index(layer as int, u, v)],
    {
        let mut r: Vec<BlockID> = Vec::new();
        let mut u: usize = 0;
        while u < 16
            invariant
                self.wf(),
                layer < 16,
                u <= 16,
                r@.len() == u * 16,
                forall|u2: int, v2: int|
                    0 <= u2 < u && 0 <= v2 < 16
                        ==> #[trigger] r@[u2 * 16 + v2] == self.ids()[chunk_index(layer as int, u2, v2)],
            decreases 16 - u,
        {
            let mut v: usize = 0;
            while v < 16
                invariant
                    self.wf(),
                    layer < 16,
                    u < 16,
                    v <= 16,
                    r@.len() == u * 16 + v,
                    forall|u2: int, v2: int|
                        0 <= u2 < 16 && 0 <= v2 < 16 && (u2 < u || (u2 == u && v2 < v))
                            ==> #[trigger] r@[u2 * 16 + v2]
                                == self.ids()[chunk_index(layer as int, u2, v2)],
                decreases 16 - v,
            {
                r.push(self.ids_array[layer * 256 + u * 16 + v]);
                v = v + 1;
            }
            u = u + 1;
        }
        r
    }

    /// Rebuilds the cached mesh: every layer of the chunk is tessellated
    /// along each of the three axes and lifted into quads for both face
    /// directions of that axis, so the new mesh is exactly the 48 slice
    /// runs of the current voxels (`chunk_mesh_ok`). The voxels, the anchor
    /// and the ready flag are untouched.
    pub fn make_mesh(&mut self, block_proto_set: &BlockProtoSet)
        requires
            old(self).wf(),
            old(self).ids_below(block_proto_set.blocks@.len() as int),
            forall|b: int, f: int|
                0 <= b < block_proto_set.blocks@.len() && 0 <= f < 6
                    ==> #[trigger] block_proto_set.blocks@[b].tex_face_map@[f] <= u32::MAX,
        ensures
            final(self).wf(),
            final(self).x == old(self).x && final(self).y == old(self).y
                && final(self).z == old(self).z,
            final(self).ids() == old(self).ids(),
            final(self).ready_to_display == old(self).ready_to_display,
            final(self).mesh@.len() % 4 == 0,
            chunk_mesh_ok(final(self).mesh@, old(self).ids(), old(self).x, old(self).y,
                old(self).z, block_proto_set.blocks@),
    {
        let mut vertices: Vec<MeshVertex> = Vec::new();
        let ghost mut runs: Seq<Seq<MeshVertex>> = Seq::empty();
        proof {
            assert(runs.flatten() =~= vertices@);
        }
        let mut layer: usize = 0;
        while layer < 16
            invariant
                self.wf(),
                *self == *old(self),
                self.ids_below(block_proto_set.blocks@.len() as int),
                forall|b: int, f: int|
                    0 <= b < block_proto_set.blocks@.len() && 0 <= f < 6
                        ==> #[trigger] block_proto_set.blocks@[b].tex_face_map@[f] <= u32::MAX,
                layer <= 16,
                vertices@.len() % 4 == 0,
                runs.len() == layer,
                vertices@ == runs.flatten(),
                forall|m: int| 0 <= m < layer ==> slice_mesh_ok(#[trigger] runs[m],
                    slice_grid_z(self.ids(), m),
                    (self.x, self.y, ((self.z as int + m) as i64)),
                    Facing::U, Facing::D, block_proto_set.blocks@),
            decreases 16 - layer,
        {
            let grid = self.slice_z(layer);
            let squares = tessellate_slice(&grid, 16, 16);
            proof {
                assert forall|n: int| 0 <= n < grid@.len()
                    implies #[trigger] grid@[n] < block_proto_set.blocks@.len() by {
                    let u = n / 16;
                    let v = n % 16;
                    assert(0 <= u < 16 && 0 <= v < 16 && n == u * 16 + v) by (nonlinear_arith)
                        requires 0 <= n < 256 && u == n / 16 && v == n % 16;
                    assert(cell(grid@, 16, u, v) == self.ids()[chunk_index(u, v, layer as int)]);
                    assert(self.ids()[chunk_index(u, v, layer as int)]
                        < block_proto_set.blocks@.len());
                }
                crate::tessellate::lemma_square_ids_bounded(
                    grid@, 16, 16, squares@, block_proto_set.blocks@.len() as int);
                assert(grid@ =~= slice_grid_z(self.ids(), layer as int)) by {
                    assert forall|n: int| 0 <= n < 256
                        implies grid@[n] == slice_grid_z(self.ids(), layer as int)[n] by {
                        let u = n / 16;
                        let v = n % 16;
                        assert(0 <= u < 16 && 0 <= v < 16 && n == u * 16 + v)
                            by (nonlinear_arith)
                            requires 0 <= n < 256 && u == n / 16 && v == n % 16;
                        assert(cell(grid@, 16, u, v)
                            == self.ids()[chunk_index(u, v, layer as int)]);
                    }
                }
            }
            let offset = (self.x, self.y, self.z + layer as i64);
            let up = squares_to_vertices(&squares, offset, Facing::U, block_proto_set);
            let down = squares_to_vertices(&squares, offset, Facing::D, block_proto_set);
            let ghost upv = up@;
            let ghost downv = down@;
            let ghost run = upv + downv;
            append_whole_quads(&mut vertices, up);
            append_whole_quads(&mut vertices, down);
            proof {
                let nsq = squares@.len() as int;
                assert(run.take(4 * nsq) =~= upv);
                assert(run.skip(4 * nsq) =~= downv);
                assert(offset == (self.x, self.y, ((self.z as int + layer) as i64)));
                assert(squares_wf(slice_grid_z(self.ids(), layer as int), 16, 16, squares@));
                assert(slice_mesh_ok(run, slice_grid_z(self.ids(), layer as int),
                    (self.x, self.y, ((self.z as int + layer) as i64)),
                    Facing::U, Facing::D, block_proto_set.blocks@));
                let runs0 = runs;
                runs = runs0.push(run);
                runs0.lemma_flatten_push(run);
                assert(vertices@ =~= runs.flatten());
            }
            layer = layer + 1;
        }
        let mut layer: usize = 0;
        while layer < 16
            invariant
                self.wf(),
                *self == *old(self),
                self.ids_below(block_proto_set.blocks@.len() as int),
                forall|b: int, f: int|
                    0 <= b < block_proto_set.blocks@.len() && 0 <= f < 6
                        ==> #[trigger] block_proto_set.blocks@[b].tex_face_map@[f] <= u32::MAX,
                layer <= 16,
                vertices@.len() % 4 == 0,
                runs.len() == 16 + layer,
                vertices@ == runs.flatten(),
                forall|m: int| 0 <= m < 16 ==> slice_mesh_ok(#[trigger] runs[m],
                    slice_grid_z(self.ids(), m),
                    (self.x, self.y, ((self.z as int + m) as i64)),
                    Facing::U, Facing::D, block_proto_set.blocks@),
                forall|m: int| 16 <= m < 16 + layer ==> slice_mesh_ok(#[trigger] runs[m],
                    slice_grid_y(self.ids(), m - 16),
                    (self.x, ((self.y as int + m - 16) as i64), self.z),
                    Facing::N, Facing::S, block_proto_set.blocks@),
            decreases 16 - layer,
        {
            let grid = self.slice_y(layer);
            let squares = tessellate_slice(&grid, 16, 16);
            proof {
                assert forall|n: int| 0 <= n < grid@.len()
                    implies #[trigger] grid@[n] < block_proto_set.blocks@.len() by {
                    let u = n / 16;
                    let v = n % 16;
                    assert(0 <= u < 16 && 0 <= v < 16 && n == u * 16 + v) by (nonlinear_arith)
                        requires 0 <= n < 256 && u == n / 16 && v == n % 16;
                    assert(cell(grid@, 16, u, v) == self.ids()[chunk_index(u, layer as int, v)]);
                    assert(self.ids()[chunk_index(u, layer as int, v)]
                        < block_proto_set.blocks@.len());
                }
                crate::tessellate::lemma_square_ids_bounded(
                    grid@, 16, 16, squares@, block_proto_set.blocks@.len() as int);
                assert(grid@ =~= slice_grid_y(self.ids(), layer as int)) by {
                    assert forall|n: int| 0 <= n < 256
                        implies grid@[n] == slice_grid_y(self.ids(), layer as int)[n] by {
                        let u = n / 16;
                        let v = n % 16;
                        assert(0 <= u < 16 && 0 <= v < 16 && n == u * 16 + v)
                            by (nonlinear_arith)
                            requires 0 <= n < 256 && u == n / 16 && v == n % 16;
                        assert(cell(grid@, 16, u, v)
                            == self.ids()[chunk_index(u, layer as int, v)]);
                    }
                }
            }
            let offset = (self.x, self.y + layer as i64, self.z);
            let north = squares_to_vertices(&squares, offset, Facing::N, block_proto_set);
            let south = squares_to_vertices(&squares, offset, Facing::S, block_proto_set);
            let ghost northv = north@;
            let ghost southv = south@;
            let ghost run = northv + southv;
            append_whole_quads(&mut vertices, north);
            append_whole_quads(&mut vertices, south);
            proof {
                let nsq = squares@.len() as int;
                assert(run.take(4 * nsq) =~= northv);
                assert(run.skip(4 * nsq) =~= southv);
                assert(offset == (self.x, ((self.y as int + layer) as i64), self.z));
                assert(squares_wf(slice_grid_y(self.ids(), layer as int), 16, 16, squares@));
                assert(slice_mesh_ok(run, slice_grid_y(self.ids(), layer as int),
                    (self.x, ((self.y as int + layer) as i64), self.z),
                    Facing::N, Facing::S, block_proto_set.blocks@));
                let runs0 = runs;
                runs = runs0.push(run);
                runs0.lemma_flatten_push(run);
                assert(vertices@ =~= runs.flatten());
                assert(runs[16 + layer as int] == run);
            }
            layer = layer + 1;
        }
        let mut layer: usize = 0;
        while layer < 16
            invariant
                self.wf(),
                *self == *old(self),
                self.ids_below(block_proto_set.blocks@.len() as int),
                forall|b: int, f: int|
                    0 <= b < block_proto_set.blocks@.len() && 0 <= f < 6
                        ==> #[trigger] block_proto_set.blocks@[b].tex_face_map@[f] <= u32::MAX,
                layer <= 16,
                vertices@.len() % 4 == 0,
                runs.len() == 32 + layer,
                vertices@ == runs.flatten(),
                forall|m: int| 0 <= m < 16 ==> slice_mesh_ok(#[trigger] runs[m],
                    slice_grid_z(self.ids(), m),
                    (self.x, self.y, ((self.z as int + m) as i64)),
                    Facing::U, Facing::D, block_proto_set.blocks@),
                forall|m: int| 16 <= m < 32 ==> slice_mesh_ok(#[trigger] runs[m],
                    slice_grid_y(self.ids(), m - 16),
                    (self.x, ((self.y as int + m - 16) as i64), self.z),
                    Facing::N, Facing::S, block_proto_set.blocks@),
                forall|m: int| 32 <= m < 32 + layer ==> slice_mesh_ok(#[trigger] runs[m],
                    slice_grid_x(self.ids(), m - 32),
                    (((self.x as int + m - 32) as i64), self.y, self.z),
                    Facing::E, Facing::W, block_proto_set.blocks@),
            decreases 16 - layer,
        {
            let grid = self.slice_x(layer);
            let squares = tessellate_slice(&grid, 16, 16);
            proof {
                assert forall|n: int| 0 <= n < grid@.len()
                    implies #[trigger] grid@[n] < block_proto_set.blocks@.len() by {
                    let u = n / 16;
                    let v = n % 16;
                    assert(0 <= u < 16 && 0 <= v < 16 && n == u * 16 + v) by (nonlinear_arith)
                        requires 0 <= n < 256 && u == n / 16 && v == n % 16;
                    assert(cell(grid@, 16, u, v) == self.ids()[chunk_index(layer as int, u, v)]);
                    assert(self.ids()[chunk_index(layer as int, u, v)]
                        < block_proto_set.blocks@.len());
                }
                crate::tessellate::lemma_square_ids_bounded(
                    grid@, 16, 16, squares@, block_proto_set.blocks@.len() as int);
                assert(grid@ =~= slice_grid_x(self.ids(), layer as int)) by {
                    assert forall|n: int| 0 <= n < 256
                        implies grid@[n] == slice_grid_x(self.ids(), layer as int)[n] by {
                        let u = n / 16;
                        let v = n % 16;
                        assert(0 <= u < 16 && 0 <= v < 16 && n == u * 16 + v)
                            by (nonlinear_arith)
                            requires 0 <= n < 256 && u == n / 16 && v == n % 16;
                        assert(cell(grid@, 16, u, v)
                            == self.ids()[chunk_index(layer as int, u, v)]);
                    }
                }
            }
            let offset = (self.x + layer as i64, self.y, self.z);
            let east = squares_to_vertices(&squares, offset, Facing::E, block_proto_set);
            let west = squares_to_vertices(&squares, offset, Facing::W, block_proto_set);
            let ghost eastv = east@;
            let ghost westv = west@;
            let ghost run = eastv + westv;
            append_whole_quads(&mut vertices, east);
            append_whole_quads(&mut vertices, west);
            proof {
                let nsq = squares@.len() as int;
                assert(run.take(4 * nsq) =~= eastv);
                assert(run.skip(4 * nsq) =~= westv);
                assert(offset == (((self.x as int + layer) as i64), self.y, self.z));
                assert(squares_wf(slice_grid_x(self.ids(), layer as int), 16, 16, squares@));
                assert(slice_mesh_ok(run, slice_grid_x(self.ids(), layer as int),
                    (((self.x as int + layer) as i64), self.y, self.z),
                    Facing::E, Facing::W, block_proto_set.blocks@));
                let runs0 = runs;
                runs = runs0.push(run);
                runs0.lemma_flatten_push(run);
                assert(vertices@ =~= runs.flatten());
                assert(runs[32 + layer as int] == run);
            }
            layer = layer + 1;
        }
        proof {
            assert(runs.flatten() == vertices@);
            assert(chunk_mesh_ok(vertices@, self.ids(), self.x, self.y, self.z,
                block_proto_set.blocks@));
        }
        self.mesh = vertices;
    }

    /// The index buffer for the cached mesh: two triangles per quad, in the
    /// pattern `0, 1, 2, 2, 3, 0` over each quad's four vertices, shifted by
    /// `indices_offset`.
    pub fn get_indices(&self, indices_offset: u32) -> (r: Vec<u32>)
        requires
            self.mesh@.len() % 4 == 0,
            indices_offset + self.mesh@.len() <= u32::MAX,
        ensures
            r@.len() == self.mesh@.len() / 4 * 6,
            forall|j: int| 0 <= j < r@.len()
                ==> #[trigger] r@[j]
                    == indices_offset + (j / 6) * 4 + index_pattern(j % 6),
    {
        let quads = self.mesh.len() / 4;
        let mut indices: Vec<u32> = Vec::new();
        let mut q: usize = 0;
        while q < quads
            invariant
                quads == self.mesh@.len() / 4,
                self.mesh@.len() % 4 == 0,
                indices_offset + self.mesh@.len() <= u32::MAX,
                q <= quads,
                indices@.len() == q * 6,
                forall|j: int| 0 <= j < indices@.len()
                    ==> #[trigger] indices@[j]
                        == indices_offset + (j / 6) * 4 + index_pattern(j % 6),
            decreases quads - q,
        {
            proof {
                let b = 6 * (q as int);
                assert(b / 6 == q && b % 6 == 0 && (b + 1) / 6 == q && (b + 1) % 6 == 1
                    && (b + 2) / 6 == q && (b + 2) % 6 == 2 && (b + 3) / 6 == q && (b + 3) % 6 == 3
                    && (b + 4) / 6 == q && (b + 4) % 6 == 4 && (b + 5) / 6 == q && (b + 5) % 6 == 5)
                    by (nonlinear_arith)
                    requires b == 6 * (q as int);
                assert(indices_offset + q * 4 + 4 <= u32::MAX) by (nonlinear_arith)
                    requires
                        0 <= q < quads,
                        quads == self.mesh@.len() / 4,
                        self.mesh@.len() % 4 == 0,
                        indices_offset + self.mesh@.len() <= u32::MAX;
            }
            let base = indices_offset + (q as u32) * 4;
            indices.push(base);
            indices.push(base + 1);
            indices.push(base + 2);
            indices.push(base + 2);
            indices.push(base + 3);
            indices.push(base);
            q = q + 1;
        }
        indices
    }

    /// The chunk-granularity coordinate of this chunk's anchor: each axis
    /// divided by the chunk side, rounded toward negative infinity.
    pub fn integer_chunk_coords(&self) -> (r: (i64, i64, i64))
        ensures
            r.0 * 16 <= self.x < r.0 * 16 + 16,
            r.1 * 16 <= self.y < r.1 * 16 + 16,
            r.2 * 16 <= self.z < r.2 * 16 + 16,
    {
        let cx = self.x.checked_div_euclid(16).unwrap();
        let cy = self.y.checked_div_euclid(16).unwrap();
        let cz = self.z.checked_div_euclid(16).unwrap();
        proof {
            lemma_div_mul_range(self.x as int, cx as int);
            lemma_div_mul_range(self.y as int, cy as int);
            lemma_div_mul_range(self.z as int, cz as int);
        }
        (cx, cy, cz)
    }
}

/// The index pattern of one quad's two triangles.
pub open spec fn index_pattern(t: int) -> int {
    if t == 0 {
        0
    } else if t == 1 {
        1
    } else if t == 2 || t == 3 {
        2
    } else if t == 4 {
        3
    } else {
        0
    }
}

/// Euclidean division by the chunk side brackets the dividend.
proof fn lemma_div_mul_range(v: int, d: int)
    requires
        d == v / 16,
    ensures
        d * 16 <= v < d * 16 + 16,
{
    assert(d * 16 <= v < d * 16 + 16) by (nonlinear_arith)
        requires d == v / 16;
}

/// Appends a vertex list that is whole quads onto the mesh being built.
fn append_whole_quads(vertices: &mut Vec<MeshVertex>, more: Vec<MeshVertex>)
    requires
        old(vertices)@.len() % 4 == 0,
        more@.len() % 4 == 0,
    ensures
        final(vertices)@ == old(vertices)@ + more@,
        final(vertices)@.len() % 4 == 0,
{
    let mut more = more;
    vertices.append(&mut more);
}

} // verus!
