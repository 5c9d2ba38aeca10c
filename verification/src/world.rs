//! The world coordinator: a chunk set, the block prototype table, and the
//! two work queues that stream chunks in and re-mesh edited ones.
//!
//! A single coordinator drives everything: block reads and writes route
//! through the chunk set, viewer movement recenters the window, evicts what
//! left it and queues generation for what entered it, and the queues are
//! drained one task at a time. Outside work — the terrain height oracle —
//! comes in as plain per-column heights handed to `complete_generation`.

use vstd::prelude::*;
use crate::block::{BlockID, BlockProtoSet};
use crate::chunk::{Chunk, chunk_index, chunk_mesh_ok, index_pattern, ANCHOR_LIMIT};
use crate::chunkset::{ChunkCoord, ChunkSet, COORD_LIMIT, spec_world_to_chunk_coords};
use crate::geometry::MeshVertex;

verus! {

/// Whether the chunk coordinate `cc` names the chunk `c`.
pub open spec fn coord_names(cc: ChunkCoord, c: Chunk) -> bool {
    (cc.0 as int, cc.1 as int, cc.2 as int)
        == (c.x as int / 16, c.y as int / 16, c.z as int / 16)
}

/// Scan-order comparison used while walking the window: `c` comes strictly
/// before the cell `(x, y, z)`.
pub open spec fn before_pos(c: ChunkCoord, x: int, y: int, z: int) -> bool {
    ||| (c.0 as int) < x
    ||| (c.0 as int == x && (c.1 as int) < y)
    ||| (c.0 as int == x && c.1 as int == y && (c.2 as int) < z)
}


/// The vertex buffer one render pass gets: walking the slots in order, a
/// ready chunk whose mesh still fits the 32-bit index space (on top of the
/// `base` vertices already emitted) contributes its whole mesh; empty
/// slots, unready chunks and chunks that no longer fit contribute nothing.
pub open spec fn render_vertices(slots: Seq<Option<Chunk>>, i: int, base: int) -> Seq<MeshVertex>
    decreases slots.len() - i when 0 <= i <= slots.len()
{
    if i >= slots.len() {
        Seq::empty()
    } else {
        match slots[i] {
            Some(c) => if c.ready_to_display && base + c.mesh@.len() <= u32::MAX {
                c.mesh@ + render_vertices(slots, i + 1, base + c.mesh@.len())
            } else {
                render_vertices(slots, i + 1, base)
            },
            None => render_vertices(slots, i + 1, base),
        }
    }
}

/// The index run of one contributed mesh: two triangles per quad in the
/// pattern `0, 1, 2, 2, 3, 0`, shifted past the `base` vertices emitted
/// before it.
pub open spec fn chunk_index_run(mesh_len: int, base: int) -> Seq<u32> {
    Seq::new((mesh_len / 4 * 6) as nat, |j: int| (base + (j / 6) * 4 + index_pattern(j % 6)) as u32)
}

/// The index buffer matching `render_vertices`: the contributed meshes'
/// index runs, in slot order, each offset by the vertices before it.
pub open spec fn render_indices(slots: Seq<Option<Chunk>>, i: int, base: int) -> Seq<u32>
    decreases slots.len() - i when 0 <= i <= slots.len()
{
    if i >= slots.len() {
        Seq::empty()
    } else {
        match slots[i] {
            Some(c) => if c.ready_to_display && base + c.mesh@.len() <= u32::MAX {
                chunk_index_run(c.mesh@.len() as int, base)
                    + render_indices(slots, i + 1, base + c.mesh@.len())
            } else {
                render_indices(slots, i + 1, base)
            },
            None => render_indices(slots, i + 1, base),
        }
    }
}

/// Slots that are all empty contribute nothing to the render payload.
proof fn lemma_render_skip_empty(slots: Seq<Option<Chunk>>, a: int, b: int, base: int)
    requires
        0 <= a <= b <= slots.len(),
        forall|j: int| a <= j < b ==> slots[j] is None,
    ensures
        render_vertices(slots, a, base) == render_vertices(slots, b, base),
        render_indices(slots, a, base) == render_indices(slots, b, base),
    decreases b - a,
{
    if a < b {
        lemma_render_skip_empty(slots, a + 1, b, base);
    }
}

/// The world: chunk storage, block properties, streaming state and the two
/// work queues.
pub struct World {
    pub chunks: ChunkSet,
    pub block_properties: BlockProtoSet,
    pub last_player_chunk_coords: Option<ChunkCoord>,
    pub need_mesh_update: Vec<ChunkCoord>,
    pub need_generation_update: Vec<ChunkCoord>,
}

impl World {
    /// The chunk set is sound, the block table covers at least the terrain
    /// blocks with renderable texture indices, and every stored chunk's
    /// voxels stay inside the block table.
    pub open spec fn wf(&self) -> bool {
        &&& self.chunks.wf()
        &&& 6 <= self.block_properties.blocks@.len()
        &&& forall|b: int, f: int|
            0 <= b < self.block_properties.blocks@.len() && 0 <= f < 6
                ==> #[trigger] self.block_properties.blocks@[b].tex_face_map@[f] <= u32::MAX
        &&& forall|i: int| 0 <= i < self.chunks.chunks@.len()
            ==> (#[trigger] self.chunks.chunks@[i] matches Some(c)
                ==> c.ids_below(self.block_properties.blocks@.len() as int))
    }

    /// A world with no chunks loaded yet and empty work queues.
    pub fn new(block_properties: BlockProtoSet, center: ChunkCoord, render_distance: usize)
        -> (r: Self)
        requires
            6 <= block_properties.blocks@.len(),
            forall|b: int, f: int|
                0 <= b < block_properties.blocks@.len() && 0 <= f < 6
                    ==> #[trigger] block_properties.blocks@[b].tex_face_map@[f] <= u32::MAX,
            1 <= render_distance <= 512,
            -COORD_LIMIT <= center.0 <= COORD_LIMIT,
            -COORD_LIMIT <= center.1 <= COORD_LIMIT,
            -COORD_LIMIT <= center.2 <= COORD_LIMIT,
        ensures
            r.wf(),
            r.chunks.center == center,
            r.chunks.render_distance == render_distance,
            forall|i: int| 0 <= i < r.chunks.chunks@.len() ==> r.chunks.chunks@[i] is None,
            r.block_properties == block_properties,
            r.last_player_chunk_coords is None,
            r.need_mesh_update@.len() == 0,
            r.need_generation_update@.len() == 0,
    {
        World {
            chunks: ChunkSet::new(center, render_distance),
            block_properties,
            last_player_chunk_coords: None,
            need_mesh_update: Vec::new(),
            need_generation_update: Vec::new(),
        }
    }

    /// What a block query returns: the stored ID when the position's chunk
    /// is loaded in the window and actually covers the position, else 0.
    pub open spec fn spec_block_id_at(&self, x: i64, y: i64, z: i64) -> BlockID {
        let cc = spec_world_to_chunk_coords((x, y, z));
        match self.chunks.chunks@[self.chunks.spec_real_index(cc)] {
            Some(ch) => if self.chunks.in_window(cc)
                && ch.x <= x < ch.x + 16 && ch.y <= y < ch.y + 16 && ch.z <= z < ch.z + 16 {
                ch.ids()[chunk_index(x - ch.x, y - ch.y, z - ch.z)]
            } else {
                0
            },
            None => 0,
        }
    }

    /// The block ID at a world position; air (0) anywhere unloaded, so
    /// querying space outside the window is cheap and safe.
    pub fn get_block_id_at(&self, x: i64, y: i64, z: i64) -> (r: BlockID)
        requires
            self.wf(),
        ensures
            r == self.spec_block_id_at(x, y, z),
    {
        match self.chunks.get_chunk_at_world_coords((x, y, z)) {
            Some(ch) => {
                proof {
                    let cc = spec_world_to_chunk_coords((x, y, z));
                    crate::chunkset::lemma_real_index_in_range(&self.chunks, cc);
                    assert(self.chunks.slot_ok(self.chunks.spec_real_index(cc)));
                }
                if ch.check_inside_me(x, y, z) {
                    ch.get_block_id_at(x, y, z)
                } else {
                    0
                }
            }
            None => 0,
        }
    }

    /// Appends a chunk coordinate to the re-mesh queue.
    pub fn queue_mesh_update(&mut self, coord: ChunkCoord)
        requires
            old(self).wf(),
        ensures
            final(self).wf(),
            final(self).need_mesh_update@ == old(self).need_mesh_update@.push(coord),
            final(self).chunks == old(self).chunks,
            final(self).block_properties == old(self).block_properties,
            final(self).last_player_chunk_coords == old(self).last_player_chunk_coords,
            final(self).need_generation_update == old(self).need_generation_update,
    {
        self.need_mesh_update.push(coord);
    }

    /// Appends a chunk coordinate to the generation queue.
    pub fn queue_chunk_update(&mut self, coord: ChunkCoord)
        requires
            old(self).wf(),
        ensures
            final(self).wf(),
            final(self).need_generation_update@ == old(self).need_generation_update@.push(coord),
            final(self).chunks == old(self).chunks,
            final(self).block_properties == old(self).block_properties,
            final(self).last_player_chunk_coords == old(self).last_player_chunk_coords,
            final(self).need_mesh_update == old(self).need_mesh_update,
    {
        self.need_generation_update.push(coord);
    }

    /// Writes a block ID at a world position and queues that chunk for
    /// re-meshing; a no-op returning `None` when the position's chunk is not
    /// loaded.
    pub fn set_block_id_at(&mut self, x: i64, y: i64, z: i64, id: BlockID) -> (r: Option<()>)
        requires
            old(self).wf(),
            id < old(self).block_properties.blocks@.len(),
        ensures
            final(self).wf(),
            final(self).block_properties == old(self).block_properties,
            final(self).last_player_chunk_coords == old(self).last_player_chunk_coords,
            final(self).need_generation_update == old(self).need_generation_update,
            r is None ==> *final(self) == *old(self) && old(self).spec_block_id_at(x, y, z) == 0,
            r is Some ==> {
                let cc = spec_world_to_chunk_coords((x, y, z));
                let i = old(self).chunks.spec_real_index(cc);
                &&& old(self).chunks.chunks@[i] matches Some(ch)
                    && final(self).chunks.chunks@[i] matches Some(nc) && {
                    &&& nc.ids() == ch.ids().update(
                        chunk_index(x - ch.x, y - ch.y, z - ch.z), id)
                    &&& nc.x == ch.x && nc.y == ch.y && nc.z == ch.z
                    &&& nc.mesh == ch.mesh
                    &&& nc.ready_to_display == ch.ready_to_display
                }
                &&& forall|m: int|
                    0 <= m < old(self).chunks.chunks@.len() && m != i
                        ==> final(self).chunks.chunks@[m] == old(self).chunks.chunks@[m]
                &&& final(self).need_mesh_update@ == old(self).need_mesh_update@.push(cc)
                &&& final(self).spec_block_id_at(x, y, z) == id
                &&& final(self).chunks.center == old(self).chunks.center
                &&& final(self).chunks.render_distance == old(self).chunks.render_distance
            },
    {
        let cc = ChunkSet::world_to_chunk_coords((x, y, z));
        if !self.chunks.check_in_bounds(cc) {
            return None;
        }
        let i = self.chunks.chunk_coord_to_real_index(cc);
        if !self.chunks.chunks.is_allocated(i) {
            return None;
        }
        proof {
            assert(self.chunks.slot_ok(i as int));
        }
        let inside = {
            let ch = self.chunks.chunks.read(i);
            ch.check_inside_me(x, y, z)
        };
        if !inside {
            return None;
        }
        proof {
            assert(self.chunks.slot_ok(i as int));
        }
        let ch = self.chunks.chunks.get_mut(i);
        ch.set_block_id_at(x, y, z, id);
        proof {
            assert forall|m: int| 0 <= m < self.chunks.chunks@.len()
                implies self.chunks.slot_ok(m) by {
                assert(old(self).chunks.slot_ok(m));
                if m != i {
                    assert(self.chunks.chunks@[m] == old(self).chunks.chunks@[m]);
                }
            }
            assert forall|m: int| 0 <= m < self.chunks.chunks@.len()
                implies (#[trigger] self.chunks.chunks@[m] matches Some(c)
                    ==> c.ids_below(self.block_properties.blocks@.len() as int)) by {
                if m != i {
                    assert(self.chunks.chunks@[m] == old(self).chunks.chunks@[m]);
                }
            }
        }
        self.queue_mesh_update(cc);
        Some(())
    }

    /// Takes the next chunk coordinate waiting for generation, in arrival
    /// order, or reports the queue empty.
    pub fn next_generation_task(&mut self) -> (r: Option<ChunkCoord>)
        requires
            old(self).wf(),
        ensures
            final(self).wf(),
            final(self).chunks == old(self).chunks,
            final(self).block_properties == old(self).block_properties,
            final(self).last_player_chunk_coords == old(self).last_player_chunk_coords,
            final(self).need_mesh_update == old(self).need_mesh_update,
            old(self).need_generation_update@.len() == 0 ==> r is None
                && final(self).need_generation_update == old(self).need_generation_update,
            old(self).need_generation_update@.len() > 0 ==> {
                &&& r == Some(old(self).need_generation_update@[0])
                &&& final(self).need_generation_update@
                    == old(self).need_generation_update@.skip(1)
            },
    {
        if self.need_generation_update.len() == 0 {
            return None;
        }
        let c = self.need_generation_update.remove(0);
        proof {
            assert(self.need_generation_update@
                =~= old(self).need_generation_update@.skip(1));
        }
        Some(c)
    }

    /// Builds, fills and meshes the chunk for a coordinate handed back by
    /// `next_generation_task`, from the per-column terrain heights the
    /// caller obtained for it.
    pub fn complete_generation(&mut self, coord: ChunkCoord, heights: &Vec<i64>)
        requires
            old(self).wf(),
            -COORD_LIMIT - 2048 <= coord.0 <= COORD_LIMIT + 2048,
            -COORD_LIMIT - 2048 <= coord.1 <= COORD_LIMIT + 2048,
            -COORD_LIMIT - 2048 <= coord.2 <= COORD_LIMIT + 2048,
            heights@.len() == 256,
            forall|n: int| 0 <= n < 256 ==> -ANCHOR_LIMIT <= #[trigger] heights@[n] <= ANCHOR_LIMIT,
        ensures
            final(self).wf(),
            final(self).block_properties == old(self).block_properties,
            final(self).last_player_chunk_coords == old(self).last_player_chunk_coords,
            final(self).need_mesh_update == old(self).need_mesh_update,
            final(self).need_generation_update == old(self).need_generation_update,
            final(self).chunks.center == old(self).chunks.center,
            final(self).chunks.render_distance == old(self).chunks.render_distance,
            forall|i: int|
                0 <= i < old(self).chunks.chunks@.len()
                    && i != old(self).chunks.spec_real_index(coord)
                    ==> final(self).chunks.chunks@[i] == old(self).chunks.chunks@[i],
            final(self).chunks.spec_holds(coord),
            final(self).chunks.chunks@[old(self).chunks.spec_real_index(coord)]
                matches Some(c) && c.ready_to_display
                && chunk_mesh_ok(c.mesh@, c.ids(), c.x, c.y, c.z,
                    old(self).block_properties.blocks@),
    {
        self.chunks.generate_chunk(coord, heights, &self.block_properties);
        proof {
            let i = old(self).chunks.spec_real_index(coord);
            assert forall|m: int| 0 <= m < self.chunks.chunks@.len()
                implies (#[trigger] self.chunks.chunks@[m] matches Some(c)
                    ==> c.ids_below(self.block_properties.blocks@.len() as int)) by {
                if m != i {
                    assert(self.chunks.chunks@[m] == old(self).chunks.chunks@[m]);
                } else {
                    if self.chunks.chunks@[m] is Some {
                        let c = self.chunks.chunks@[m]->Some_0;
                        assert forall|n: int| 0 <= n < c.ids().len()
                            implies #[trigger] c.ids()[n]
                                < self.block_properties.blocks@.len() by {
                            assert(c.ids()[n] < 6);
                        }
                    }
                }
            }
        }
    }

    /// Drains the re-mesh queue: every queued coordinate whose slot holds
    /// that coordinate's chunk gets its mesh rebuilt from its current
    /// voxels (`chunk_mesh_ok`) and is marked ready. Voxels and anchors are
    /// untouched, readiness only ever turns on, and the generation queue is
    /// left alone. Returns whether any work was taken.
    pub fn spawn_mesh_updates(&mut self) -> (r: bool)
        requires
            old(self).wf(),
        ensures
            final(self).wf(),
            final(self).block_properties == old(self).block_properties,
            final(self).last_player_chunk_coords == old(self).last_player_chunk_coords,
            final(self).need_generation_update == old(self).need_generation_update,
            final(self).need_mesh_update@.len() == 0,
            final(self).chunks.center == old(self).chunks.center,
            final(self).chunks.render_distance == old(self).chunks.render_distance,
            final(self).chunks.arr_length == old(self).chunks.arr_length,
            final(self).chunks.arr_area == old(self).chunks.arr_area,
            final(self).chunks.chunks@.len() == old(self).chunks.chunks@.len(),
            forall|i: int| 0 <= i < old(self).chunks.chunks@.len() ==> {
                &&& (old(self).chunks.chunks@[i] is Some) == (final(self).chunks.chunks@[i] is Some)
                &&& (old(self).chunks.chunks@[i] matches Some(c0)
                    ==> final(self).chunks.chunks@[i] matches Some(c1)
                        && c1.ids() == c0.ids() && c1.x == c0.x && c1.y == c0.y && c1.z == c0.z
                        && (c0.ready_to_display ==> c1.ready_to_display))
            },
            // every dequeued coordinate whose slot holds that coordinate's
            // chunk ends ready, with its mesh rebuilt from its voxels
            forall|k: int|
                0 <= k < old(self).need_mesh_update@.len()
                    && old(self).chunks.spec_holds(#[trigger] old(self).need_mesh_update@[k])
                    ==> (final(self).chunks.chunks@[
                            old(self).chunks.spec_real_index(old(self).need_mesh_update@[k])]
                        matches Some(c)
                        && c.ready_to_display
                        && chunk_mesh_ok(c.mesh@, c.ids(), c.x, c.y, c.z,
                            old(self).block_properties.blocks@)),
            r == (old(self).need_mesh_update@.len() > 0),
    {
        let ghost q0 = old(self).need_mesh_update@;
        let ghost mut done: int = 0;
        let got_any_updates = self.need_mesh_update.len() > 0;
        while self.need_mesh_update.len() > 0
            invariant
                self.wf(),
                old(self).wf(),
                self.block_properties == old(self).block_properties,
                self.last_player_chunk_coords == old(self).last_player_chunk_coords,
                self.need_generation_update == old(self).need_generation_update,
                self.chunks.center == old(self).chunks.center,
                self.chunks.render_distance == old(self).chunks.render_distance,
                self.chunks.arr_length == old(self).chunks.arr_length,
                self.chunks.arr_area == old(self).chunks.arr_area,
                self.chunks.chunks@.len() == old(self).chunks.chunks@.len(),
                q0 == old(self).need_mesh_update@,
                0 <= done <= q0.len(),
                self.need_mesh_update@ == q0.skip(done),
                forall|i: int| 0 <= i < old(self).chunks.chunks@.len() ==> {
                    &&& (old(self).chunks.chunks@[i] is Some)
                        == (self.chunks.chunks@[i] is Some)
                    &&& (old(self).chunks.chunks@[i] matches Some(c0)
                        ==> self.chunks.chunks@[i] matches Some(c1)
                            && c1.ids() == c0.ids() && c1.x == c0.x && c1.y == c0.y
                            && c1.z == c0.z
                            && (c0.ready_to_display ==> c1.ready_to_display))
                },
                forall|k: int|
                    0 <= k < done && old(self).chunks.spec_holds(#[trigger] q0[k])
                        ==> (self.chunks.chunks@[old(self).chunks.spec_real_index(q0[k])]
                            matches Some(c)
                            && c.ready_to_display
                            && chunk_mesh_ok(c.mesh@, c.ids(), c.x, c.y, c.z,
                                old(self).block_properties.blocks@)),
            decreases self.need_mesh_update@.len(),
        {
            let coord = self.need_mesh_update.remove(0);
            proof {
                assert(coord == q0[done]);
                assert(self.need_mesh_update@ =~= q0.skip(done + 1));
            }
            let ghost pre = *self;
            if self.chunks.holds_coord(coord) {
                let i = self.chunks.chunk_coord_to_real_index(coord);
                proof {
                    assert(self.chunks.slot_ok(i as int));
                    assert(self.chunks.chunks@[i as int] matches Some(c)
                        ==> c.ids_below(self.block_properties.blocks@.len() as int));
                    // the slot index is the same under the original geometry
                    assert(i as int == old(self).chunks.spec_real_index(coord));
                }
                let ch = self.chunks.chunks.get_mut(i);
                ch.make_mesh(&self.block_properties);
                ch.ready_to_display = true;
                proof {
                    assert forall|m: int| 0 <= m < self.chunks.chunks@.len()
                        implies self.chunks.slot_ok(m) by {
                        assert(pre.chunks.slot_ok(m));
                        if m != i {
                            assert(self.chunks.chunks@[m] == pre.chunks.chunks@[m]);
                        }
                    }
                    assert forall|m: int| 0 <= m < self.chunks.chunks@.len()
                        implies (#[trigger] self.chunks.chunks@[m] matches Some(c)
                            ==> c.ids_below(self.block_properties.blocks@.len() as int)) by {
                        if m != i {
                            assert(self.chunks.chunks@[m] == pre.chunks.chunks@[m]);
                        }
                    }
                    // the processed prefix stays meshed and ready: untouched
                    // slots keep their fact, and this slot just got remeshed
                    assert forall|k: int|
                        0 <= k < done + 1 && old(self).chunks.spec_holds(#[trigger] q0[k])
                        implies (self.chunks.chunks@[old(self).chunks.spec_real_index(q0[k])]
                            matches Some(c)
                            && c.ready_to_display
                            && chunk_mesh_ok(c.mesh@, c.ids(), c.x, c.y, c.z,
                                old(self).block_properties.blocks@)) by {
                        crate::chunkset::lemma_real_index_in_range(&old(self).chunks, q0[k]);
                        let ik = old(self).chunks.spec_real_index(q0[k]);
                        if ik != i {
                            assert(self.chunks.chunks@[ik] == pre.chunks.chunks@[ik]);
                        }
                    }
                }
            } else {
                proof {
                    // the slot contents never changed shape, so a coordinate
                    // not held now was not held at entry either
                    if old(self).chunks.spec_holds(coord) {
                        let i = old(self).chunks.spec_real_index(coord);
                        crate::chunkset::lemma_real_index_in_range(&old(self).chunks, coord);
                        assert(i == self.chunks.spec_real_index(coord));
                        assert(self.chunks.spec_holds(coord));
                    }
                    assert forall|k: int|
                        0 <= k < done + 1 && old(self).chunks.spec_holds(#[trigger] q0[k])
                        implies (self.chunks.chunks@[old(self).chunks.spec_real_index(q0[k])]
                            matches Some(c)
                            && c.ready_to_display
                            && chunk_mesh_ok(c.mesh@, c.ids(), c.x, c.y, c.z,
                                old(self).block_properties.blocks@)) by {
                        crate::chunkset::lemma_real_index_in_range(&old(self).chunks, q0[k]);
                    }
                }
            }
            proof {
                done = done + 1;
            }
        }
        proof {
            assert(q0.skip(q0.len() as int) =~= Seq::<ChunkCoord>::empty());
            assert(done == q0.len());
        }
        got_any_updates
    }

    /// Queues generation for every window coordinate whose chunk is not
    /// currently loaded; each missing coordinate is queued exactly once and
    /// nothing else is touched.
    pub fn enqueue_missing_chunks(&mut self)
        requires
            old(self).wf(),
        ensures
            final(self).wf(),
            final(self).chunks == old(self).chunks,
            final(self).block_properties == old(self).block_properties,
            final(self).last_player_chunk_coords == old(self).last_player_chunk_coords,
            final(self).need_mesh_update == old(self).need_mesh_update,
            final(self).need_generation_update@.len() >= old(self).need_generation_update@.len(),
            forall|k: int| 0 <= k < old(self).need_generation_update@.len()
                ==> final(self).need_generation_update@[k]
                    == old(self).need_generation_update@[k],
            forall|k: int|
                old(self).need_generation_update@.len() <= k
                    < final(self).need_generation_update@.len()
                    ==> old(self).chunks.in_window(#[trigger] final(self).need_generation_update@[k])
                        && !old(self).chunks.spec_holds(final(self).need_generation_update@[k]),
            forall|cc: ChunkCoord|
                old(self).chunks.in_window(cc) && !old(self).chunks.spec_holds(cc)
                    ==> exists|k: int|
                        old(self).need_generation_update@.len() <= k
                            < final(self).need_generation_update@.len()
                            && final(self).need_generation_update@[k] == cc,
            forall|k1: int, k2: int|
                old(self).need_generation_update@.len() <= k1 < k2
                    < final(self).need_generation_update@.len()
                    ==> final(self).need_generation_update@[k1]
                        != final(self).need_generation_update@[k2],
    {
        let ghost q0 = self.need_generation_update@.len() as int;
        let rd = self.chunks.render_distance;
        let (cx, cy, cz) = self.chunks.center;
        let xlo = cx - rd;
        let xhi = cx + rd;
        let ylo = cy - rd;
        let yhi = cy + rd;
        let zlo = cz - rd;
        let zhi = cz + rd;
        let mut x = xlo;
        while x <= xhi
            invariant
                self.wf(),
                self.chunks == old(self).chunks,
                self.block_properties == old(self).block_properties,
                self.last_player_chunk_coords == old(self).last_player_chunk_coords,
                self.need_mesh_update == old(self).need_mesh_update,
                q0 == old(self).need_generation_update@.len(),
                rd == self.chunks.render_distance,
                cx == self.chunks.center.0 && cy == self.chunks.center.1
                    && cz == self.chunks.center.2,
                xlo == cx - rd && xhi == cx + rd && ylo == cy - rd && yhi == cy + rd
                    && zlo == cz - rd && zhi == cz + rd,
                xlo <= x <= xhi + 1,
                self.need_generation_update@.len() >= q0,
                forall|k: int| 0 <= k < q0
                    ==> self.need_generation_update@[k] == old(self).need_generation_update@[k],
                forall|k: int| q0 <= k < self.need_generation_update@.len()
                    ==> self.chunks.in_window(#[trigger] self.need_generation_update@[k])
                        && !self.chunks.spec_holds(self.need_generation_update@[k])
                        && before_pos(self.need_generation_update@[k], x as int, ylo as int,
                            zlo as int),
                forall|cc: ChunkCoord|
                    self.chunks.in_window(cc) && !self.chunks.spec_holds(cc)
                        && before_pos(cc, x as int, ylo as int, zlo as int)
                        ==> exists|k: int| q0 <= k < self.need_generation_update@.len()
                            && #[trigger] self.need_generation_update@[k] == cc,
                forall|k1: int, k2: int|
                    q0 <= k1 < k2 < self.need_generation_update@.len()
                        ==> self.need_generation_update@[k1] != self.need_generation_update@[k2],
            decreases xhi + 1 - x,
        {
            let mut y = ylo;
            while y <= yhi
                invariant
                    self.wf(),
                    self.chunks == old(self).chunks,
                    self.block_properties == old(self).block_properties,
                    self.last_player_chunk_coords == old(self).last_player_chunk_coords,
                    self.need_mesh_update == old(self).need_mesh_update,
                    q0 == old(self).need_generation_update@.len(),
                    rd == self.chunks.render_distance,
                    cx == self.chunks.center.0 && cy == self.chunks.center.1
                        && cz == self.chunks.center.2,
                    xlo == cx - rd && xhi == cx + rd && ylo == cy - rd && yhi == cy + rd
                        && zlo == cz - rd && zhi == cz + rd,
                    xlo <= x <= xhi,
                    ylo <= y <= yhi + 1,
                    self.need_generation_update@.len() >= q0,
                    forall|k: int| 0 <= k < q0
                        ==> self.need_generation_update@[k]
                            == old(self).need_generation_update@[k],
                    forall|k: int| q0 <= k < self.need_generation_update@.len()
                        ==> self.chunks.in_window(#[trigger] self.need_generation_update@[k])
                            && !self.chunks.spec_holds(self.need_generation_update@[k])
                            && before_pos(self.need_generation_update@[k], x as int, y as int,
                                zlo as int),
                    forall|cc: ChunkCoord|
                        self.chunks.in_window(cc) && !self.chunks.spec_holds(cc)
                            && before_pos(cc, x as int, y as int, zlo as int)
                            ==> exists|k: int| q0 <= k < self.need_generation_update@.len()
                                && #[trigger] self.need_generation_update@[k] == cc,
                    forall|k1: int, k2: int|
                        q0 <= k1 < k2 < self.need_generation_update@.len()
                            ==> self.need_generation_update@[k1]
                                != self.need_generation_update@[k2],
                decreases yhi + 1 - y,
            {
                let mut z = zlo;
                while z <= zhi
                    invariant
                        self.wf(),
                        self.chunks == old(self).chunks,
                        self.block_properties == old(self).block_properties,
                        self.last_player_chunk_coords == old(self).last_player_chunk_coords,
                        self.need_mesh_update == old(self).need_mesh_update,
                        q0 == old(self).need_generation_update@.len(),
                        rd == self.chunks.render_distance,
                        cx == self.chunks.center.0 && cy == self.chunks.center.1
                            && cz == self.chunks.center.2,
                        xlo == cx - rd && xhi == cx + rd && ylo == cy - rd && yhi == cy + rd
                            && zlo == cz - rd && zhi == cz + rd,
                        xlo <= x <= xhi,
                        ylo <= y <= yhi,
                        zlo <= z <= zhi + 1,
                        self.need_generation_update@.len() >= q0,
                        forall|k: int| 0 <= k < q0
                            ==> self.need_generation_update@[k]
                                == old(self).need_generation_update@[k],
                        forall|k: int| q0 <= k < self.need_generation_update@.len()
                            ==> self.chunks.in_window(
                                    #[trigger] self.need_generation_update@[k])
                                && !self.chunks.spec_holds(self.need_generation_update@[k])
                                && before_pos(self.need_generation_update@[k], x as int,
                                    y as int, z as int),
                        forall|cc: ChunkCoord|
                            self.chunks.in_window(cc) && !self.chunks.spec_holds(cc)
                                && before_pos(cc, x as int, y as int, z as int)
                                ==> exists|k: int| q0 <= k < self.need_generation_update@.len()
                                    && #[trigger] self.need_generation_update@[k] == cc,
                        forall|k1: int, k2: int|
                            q0 <= k1 < k2 < self.need_generation_update@.len()
                                ==> self.need_generation_update@[k1]
                                    != self.need_generation_update@[k2],
                    decreases zhi + 1 - z,
                {
                    let here = (x, y, z);
                    if !self.chunks.holds_coord(here) {
                        let ghost qpre = self.need_generation_update@;
                        self.need_generation_update.push(here);
                        proof {
                            assert(self.need_generation_update@ == qpre.push(here));
                            assert forall|k: int|
                                q0 <= k < self.need_generation_update@.len() - 1
                                implies #[trigger] self.need_generation_update@[k] == qpre[k] by {
                            }
                            assert(self.need_generation_update@[
                                self.need_generation_update@.len() - 1] == here);
                            assert forall|cc: ChunkCoord|
                                self.chunks.in_window(cc) && !self.chunks.spec_holds(cc)
                                    && before_pos(cc, x as int, y as int, z as int + 1)
                                implies exists|k: int|
                                    q0 <= k < self.need_generation_update@.len()
                                    && #[trigger] self.need_generation_update@[k] == cc by {
                                if before_pos(cc, x as int, y as int, z as int) {
                                    let k = choose|k: int| q0 <= k < qpre.len()
                                        && #[trigger] qpre[k] == cc;
                                    assert(self.need_generation_update@[k] == cc);
                                } else {
                                    assert(cc == here);
                                    assert(self.need_generation_update@[
                                        self.need_generation_update@.len() - 1] == cc);
                                }
                            }
                        }
                    }
                    z = z + 1;
                }
                y = y + 1;
            }
            x = x + 1;
        }
    }

    /// Responds to the viewer entering the chunk `viewer`: recenters the
    /// window there, evicts exactly the chunks whose coordinates left the
    /// window, and queues generation for exactly the window coordinates
    /// with no chunk — no coordinate is both evicted and queued, since the
    /// queued ones lie in the new window and the evicted ones do not. A
    /// repeat call for the unchanged viewer chunk does nothing.
    pub fn update_loaded_chunks(&mut self, viewer: ChunkCoord) -> (r: bool)
        requires
            old(self).wf(),
            -COORD_LIMIT <= viewer.0 <= COORD_LIMIT,
            -COORD_LIMIT <= viewer.1 <= COORD_LIMIT,
            -COORD_LIMIT <= viewer.2 <= COORD_LIMIT,
        ensures
            final(self).wf(),
            final(self).block_properties == old(self).block_properties,
            final(self).need_mesh_update == old(self).need_mesh_update,
            !r ==> *final(self) == *old(self)
                && old(self).last_player_chunk_coords == Some(viewer),
            r ==> {
                &&& final(self).last_player_chunk_coords == Some(viewer)
                &&& final(self).chunks.center == viewer
                &&& final(self).chunks.render_distance == old(self).chunks.render_distance
                // eviction: a slot keeps its chunk exactly when the chunk's
                // coordinate is still inside the new window
                &&& forall|i: int| 0 <= i < old(self).chunks.chunks@.len() ==> {
                    &&& (old(self).chunks.chunks@[i] matches Some(c)
                            && final(self).chunks.in_window(
                                ((c.x as int / 16) as i64, (c.y as int / 16) as i64,
                                    (c.z as int / 16) as i64))
                        ==> final(self).chunks.chunks@[i] == old(self).chunks.chunks@[i])
                    &&& (old(self).chunks.chunks@[i] matches Some(c)
                            && !final(self).chunks.in_window(
                                ((c.x as int / 16) as i64, (c.y as int / 16) as i64,
                                    (c.z as int / 16) as i64))
                        ==> final(self).chunks.chunks@[i] is None)
                    &&& (old(self).chunks.chunks@[i] is None
                        ==> final(self).chunks.chunks@[i] is None)
                }
                // generation: exactly the new-window coordinates that have
                // no chunk after eviction, each once
                &&& final(self).need_generation_update@.len()
                    >= old(self).need_generation_update@.len()
                &&& forall|k: int| 0 <= k < old(self).need_generation_update@.len()
                    ==> final(self).need_generation_update@[k]
                        == old(self).need_generation_update@[k]
                &&& forall|k: int|
                    old(self).need_generation_update@.len() <= k
                        < final(self).need_generation_update@.len()
                        ==> final(self).chunks.in_window(
                                #[trigger] final(self).need_generation_update@[k])
                            && !final(self).chunks.spec_holds(
                                final(self).need_generation_update@[k])
                &&& forall|cc: ChunkCoord|
                    final(self).chunks.in_window(cc) && !final(self).chunks.spec_holds(cc)
                        ==> exists|k: int|
                            old(self).need_generation_update@.len() <= k
                                < final(self).need_generation_update@.len()
                                && final(self).need_generation_update@[k] == cc
                &&& forall|k1: int, k2: int|
                    old(self).need_generation_update@.len() <= k1 < k2
                        < final(self).need_generation_update@.len()
                        ==> final(self).need_generation_update@[k1]
                            != final(self).need_generation_update@[k2]
                // no coordinate is both evicted and queued in this pass
                &&& forall|k: int, i: int|
                    old(self).need_generation_update@.len() <= k
                        < final(self).need_generation_update@.len()
                        && 0 <= i < old(self).chunks.chunks@.len()
                        && old(self).chunks.chunks@[i] is Some
                        && final(self).chunks.chunks@[i] is None
                        ==> !coord_names(
                            final(self).need_generation_update@[k],
                            old(self).chunks.chunks@[i]->Some_0)
            },
    {
        let same = match self.last_player_chunk_coords {
            Some(last) => last.0 == viewer.0 && last.1 == viewer.1 && last.2 == viewer.2,
            None => false,
        };
        if same {
            return false;
        }
        self.last_player_chunk_coords = Some(viewer);
        self.chunks.recenter(viewer);
        self.chunks.evict_outside_window();
        proof {
            assert forall|i: int| 0 <= i < self.chunks.chunks@.len()
                implies (#[trigger] self.chunks.chunks@[i] matches Some(c)
                    ==> c.ids_below(self.block_properties.blocks@.len() as int)) by {
                if self.chunks.chunks@[i] is Some {
                    assert(self.chunks.chunks@[i] == old(self).chunks.chunks@[i]);
                }
            }
        }
        let ghost mid = *self;
        self.enqueue_missing_chunks();
        proof {
            // a queued coordinate lies in the new window; an evicted chunk's
            // coordinate does not; so they can never name the same chunk
            assert forall|k: int, i: int|
                old(self).need_generation_update@.len() <= k
                    < self.need_generation_update@.len()
                    && 0 <= i < old(self).chunks.chunks@.len()
                    && old(self).chunks.chunks@[i] is Some
                    && self.chunks.chunks@[i] is None
                implies !coord_names(
                    self.need_generation_update@[k], old(self).chunks.chunks@[i]->Some_0) by {
                let cc = self.need_generation_update@[k];
                let c = old(self).chunks.chunks@[i]->Some_0;
                assert(mid.chunks.in_window(cc));
                assert(!mid.chunks.in_window(
                    ((c.x as int / 16) as i64, (c.y as int / 16) as i64,
                        (c.z as int / 16) as i64)));
            }
        }
        true
    }


    /// Queues generation for every coordinate of the current window, each
    /// exactly once; chunk storage and the other queue are untouched.
    pub fn generate_all_chunks_around_player(&mut self)
        requires
            old(self).wf(),
        ensures
            final(self).wf(),
            final(self).chunks == old(self).chunks,
            final(self).block_properties == old(self).block_properties,
            final(self).last_player_chunk_coords == old(self).last_player_chunk_coords,
            final(self).need_mesh_update == old(self).need_mesh_update,
            final(self).need_generation_update@.len() >= old(self).need_generation_update@.len(),
            forall|k: int| 0 <= k < old(self).need_generation_update@.len()
                ==> final(self).need_generation_update@[k]
                    == old(self).need_generation_update@[k],
            forall|k: int|
                old(self).need_generation_update@.len() <= k
                    < final(self).need_generation_update@.len()
                    ==> old(self).chunks.in_window(
                        #[trigger] final(self).need_generation_update@[k]),
            forall|cc: ChunkCoord|
                old(self).chunks.in_window(cc)
                    ==> exists|k: int|
                        old(self).need_generation_update@.len() <= k
                            < final(self).need_generation_update@.len()
                            && final(self).need_generation_update@[k] == cc,
            forall|k1: int, k2: int|
                old(self).need_generation_update@.len() <= k1 < k2
                    < final(self).need_generation_update@.len()
                    ==> final(self).need_generation_update@[k1]
                        != final(self).need_generation_update@[k2],
    {
        let ghost q0 = self.need_generation_update@.len() as int;
        let rd = self.chunks.render_distance;
        let (cx, cy, cz) = self.chunks.center;
        let xlo = cx - rd;
        let xhi = cx + rd;
        let ylo = cy - rd;
        let yhi = cy + rd;
        let zlo = cz - rd;
        let zhi = cz + rd;
        let mut x = xlo;
        while x <= xhi
            invariant
                self.wf(),
                self.chunks == old(self).chunks,
                self.block_properties == old(self).block_properties,
                self.last_player_chunk_coords == old(self).last_player_chunk_coords,
                self.need_mesh_update == old(self).need_mesh_update,
                q0 == old(self).need_generation_update@.len(),
                rd == self.chunks.render_distance,
                cx == self.chunks.center.0 && cy == self.chunks.center.1
                    && cz == self.chunks.center.2,
                xlo == cx - rd && xhi == cx + rd && ylo == cy - rd && yhi == cy + rd
                    && zlo == cz - rd && zhi == cz + rd,
                xlo <= x <= xhi + 1,
                self.need_generation_update@.len() >= q0,
                forall|k: int| 0 <= k < q0
                    ==> self.need_generation_update@[k] == old(self).need_generation_update@[k],
                forall|k: int| q0 <= k < self.need_generation_update@.len()
                    ==> self.chunks.in_window(#[trigger] self.need_generation_update@[k])
                        && before_pos(self.need_generation_update@[k], x as int, ylo as int,
                            zlo as int),
                forall|cc: ChunkCoord|
                    self.chunks.in_window(cc)
                        && before_pos(cc, x as int, ylo as int, zlo as int)
                        ==> exists|k: int| q0 <= k < self.need_generation_update@.len()
                            && #[trigger] self.need_generation_update@[k] == cc,
                forall|k1: int, k2: int|
                    q0 <= k1 < k2 < self.need_generation_update@.len()
                        ==> self.need_generation_update@[k1] != self.need_generation_update@[k2],
            decreases xhi + 1 - x,
        {
            let mut y = ylo;
            while y <= yhi
                invariant
                    self.wf(),
                    self.chunks == old(self).chunks,
                    self.block_properties == old(self).block_properties,
                    self.last_player_chunk_coords == old(self).last_player_chunk_coords,
                    self.need_mesh_update == old(self).need_mesh_update,
                    q0 == old(self).need_generation_update@.len(),
                    rd == self.chunks.render_distance,
                    cx == self.chunks.center.0 && cy == self.chunks.center.1
                        && cz == self.chunks.center.2,
                    xlo == cx - rd && xhi == cx + rd && ylo == cy - rd && yhi == cy + rd
                        && zlo == cz - rd && zhi == cz + rd,
                    xlo <= x <= xhi,
                    ylo <= y <= yhi + 1,
                    self.need_generation_update@.len() >= q0,
                    forall|k: int| 0 <= k < q0
                        ==> self.need_generation_update@[k]
                            == old(self).need_generation_update@[k],
                    forall|k: int| q0 <= k < self.need_generation_update@.len()
                        ==> self.chunks.in_window(#[trigger] self.need_generation_update@[k])
                            && before_pos(self.need_generation_update@[k], x as int, y as int,
                                zlo as int),
                    forall|cc: ChunkCoord|
                        self.chunks.in_window(cc)
                            && before_pos(cc, x as int, y as int, zlo as int)
                            ==> exists|k: int| q0 <= k < self.need_generation_update@.len()
                                && #[trigger] self.need_generation_update@[k] == cc,
                    forall|k1: int, k2: int|
                        q0 <= k1 < k2 < self.need_generation_update@.len()
                            ==> self.need_generation_update@[k1]
                                != self.need_generation_update@[k2],
                decreases yhi + 1 - y,
            {
                let mut z = zlo;
                while z <= zhi
                    invariant
                        self.wf(),
                        self.chunks == old(self).chunks,
                        self.block_properties == old(self).block_properties,
                        self.last_player_chunk_coords == old(self).last_player_chunk_coords,
                        self.need_mesh_update == old(self).need_mesh_update,
                        q0 == old(self).need_generation_update@.len(),
                        rd == self.chunks.render_distance,
                        cx == self.chunks.center.0 && cy == self.chunks.center.1
                            && cz == self.chunks.center.2,
                        xlo == cx - rd && xhi == cx + rd && ylo == cy - rd && yhi == cy + rd
                            && zlo == cz - rd && zhi == cz + rd,
                        xlo <= x <= xhi,
                        ylo <= y <= yhi,
                        zlo <= z <= zhi + 1,
                        self.need_generation_update@.len() >= q0,
                        forall|k: int| 0 <= k < q0
                            ==> self.need_generation_update@[k]
                                == old(self).need_generation_update@[k],
                        forall|k: int| q0 <= k < self.need_generation_update@.len()
                            ==> self.chunks.in_window(
                                    #[trigger] self.need_generation_update@[k])
                                && before_pos(self.need_generation_update@[k], x as int,
                                    y as int, z as int),
                        forall|cc: ChunkCoord|
                            self.chunks.in_window(cc)
                                && before_pos(cc, x as int, y as int, z as int)
                                ==> exists|k: int| q0 <= k < self.need_generation_update@.len()
                                    && #[trigger] self.need_generation_update@[k] == cc,
                        forall|k1: int, k2: int|
                            q0 <= k1 < k2 < self.need_generation_update@.len()
                                ==> self.need_generation_update@[k1]
                                    != self.need_generation_update@[k2],
                    decreases zhi + 1 - z,
                {
                    let here = (x, y, z);
                    let ghost qpre = self.need_generation_update@;
                    self.need_generation_update.push(here);
                    proof {
                        assert(self.need_generation_update@ == qpre.push(here));
                        assert forall|k: int|
                            q0 <= k < self.need_generation_update@.len() - 1
                            implies #[trigger] self.need_generation_update@[k] == qpre[k] by {
                        }
                        assert(self.need_generation_update@[
                            self.need_generation_update@.len() - 1] == here);
                        assert forall|cc: ChunkCoord|
                            self.chunks.in_window(cc)
                                && before_pos(cc, x as int, y as int, z as int + 1)
                            implies exists|k: int|
                                q0 <= k < self.need_generation_update@.len()
                                && #[trigger] self.need_generation_update@[k] == cc by {
                            if before_pos(cc, x as int, y as int, z as int) {
                                let k = choose|k: int| q0 <= k < qpre.len()
                                    && #[trigger] qpre[k] == cc;
                                assert(self.need_generation_update@[k] == cc);
                            } else {
                                assert(cc == here);
                                assert(self.need_generation_update@[
                                    self.need_generation_update@.len() - 1] == cc);
                            }
                        }
                    }
                    z = z + 1;
                }
                y = y + 1;
            }
            x = x + 1;
        }
    }

    /// Flattens every loaded, display-ready chunk's mesh into one vertex
    /// buffer and its matching index buffer, exactly as `render_vertices`
    /// and `render_indices` describe: contributed meshes in slot order,
    /// each index run offset by the vertices before it, and every emitted
    /// index inside the vertex buffer. A chunk whose quads would push the
    /// vertex count past the 32-bit index space is left for a later frame.
    pub fn get_all_chunk_meshes(&self) -> (r: (Vec<MeshVertex>, Vec<u32>))
        requires
            self.wf(),
        ensures
            r.0@ == render_vertices(self.chunks.chunks@, 0, 0),
            r.1@ == render_indices(self.chunks.chunks@, 0, 0),
            r.0@.len() % 4 == 0,
            forall|k: int| 0 <= k < r.1@.len() ==> (#[trigger] r.1@[k]) < r.0@.len(),
    {
        let ghost slots = self.chunks.chunks@;
        let mut vertices: Vec<MeshVertex> = Vec::new();
        let mut indices: Vec<u32> = Vec::new();
        let occupied = self.chunks.iter();
        let n = occupied.len();
        let ghost mut cursor: int = 0;
        let mut t: usize = 0;
        while t < n
            invariant
                self.wf(),
                slots == self.chunks.chunks@,
                n == occupied@.len(),
                t <= n,
                forall|k: int| 0 <= k < occupied@.len()
                    ==> (#[trigger] occupied@[k]) < self.chunks.chunks@.len()
                        && self.chunks.chunks@[occupied@[k] as int] is Some,
                forall|k1: int, k2: int| 0 <= k1 < k2 < occupied@.len()
                    ==> occupied@[k1] < occupied@[k2],
                forall|i: int|
                    0 <= i < self.chunks.chunks@.len() && self.chunks.chunks@[i] is Some
                        ==> exists|k: int| 0 <= k < occupied@.len() && #[trigger] occupied@[k] == i,
                0 <= cursor <= slots.len(),
                t > 0 ==> cursor == occupied@[t - 1] + 1,
                t == 0 ==> cursor == 0,
                vertices@.len() % 4 == 0,
                vertices@.len() <= u32::MAX,
                forall|k: int| 0 <= k < indices@.len() ==> (#[trigger] indices@[k]) < vertices@.len(),
                render_vertices(slots, 0, 0)
                    == vertices@ + render_vertices(slots, cursor, vertices@.len() as int),
                render_indices(slots, 0, 0)
                    == indices@ + render_indices(slots, cursor, vertices@.len() as int),
            decreases n - t,
        {
            let i = occupied[t];
            proof {
                assert(self.chunks.slot_ok(i as int));
                // every slot between the previous hit and this one is empty
                assert forall|j: int| cursor <= j < i implies slots[j] is None by {
                    if slots[j] is Some {
                        let k = choose|k: int|
                            0 <= k < occupied@.len() && #[trigger] occupied@[k] == j;
                        if k < t {
                            if k < t - 1 {
                                assert(occupied@[k] < occupied@[t - 1]);
                            }
                        } else {
                            if k > t {
                                assert(occupied@[t as int] < occupied@[k]);
                            }
                        }
                    }
                }
                lemma_render_skip_empty(slots, cursor, i as int, vertices@.len() as int);
                cursor = i as int;
            }
            let ch = self.chunks.chunks.read(i);
            if ch.ready_to_display && ch.mesh.len() <= u32::MAX as usize - vertices.len() {
                let offset = vertices.len() as u32;
                let mut chunk_indices = ch.get_indices(offset);
                let ghost v0 = vertices@.len() as int;
                let ghost ilen = chunk_indices@.len() as int;
                let ghost mlen = ch.mesh@.len() as int;
                proof {
                    assert forall|k: int| 0 <= k < chunk_indices@.len()
                        implies (#[trigger] chunk_indices@[k]) < v0 + mlen by {
                        assert(chunk_indices@[k] as int
                            == v0 + (k / 6) * 4 + index_pattern(k % 6));
                        assert((k / 6) * 4 + index_pattern(k % 6) < mlen)
                            by (nonlinear_arith)
                            requires
                                0 <= k < ilen,
                                ilen == mlen / 4 * 6,
                                mlen % 4 == 0,
                                index_pattern(k % 6) <= 3,
                                index_pattern(k % 6) >= 0;
                    }
                    assert(chunk_indices@ =~= chunk_index_run(mlen, v0));
                }
                let mut mesh_copy = copy_mesh(&ch.mesh);
                vertices.append(&mut mesh_copy);
                indices.append(&mut chunk_indices);
                proof {
                    // this slot contributes its mesh and index run: one
                    // unfolding of the payload functions at the slot
                    assert(slots[i as int] == Some(*ch));
                    assert(render_vertices(slots, i as int, v0)
                        == ch.mesh@ + render_vertices(slots, i + 1, v0 + mlen));
                    assert(render_indices(slots, i as int, v0)
                        == chunk_index_run(mlen, v0) + render_indices(slots, i + 1, v0 + mlen));
                    assert(render_vertices(slots, 0, 0)
                        =~= vertices@ + render_vertices(slots, i + 1, vertices@.len() as int));
                    assert(render_indices(slots, 0, 0)
                        =~= indices@ + render_indices(slots, i + 1, vertices@.len() as int));
                    cursor = i + 1;
                }
            } else {
                proof {
                    // this slot is skipped: unready, or its mesh no longer
                    // fits under the 32-bit index space
                    assert(slots[i as int] == Some(*ch));
                    assert(render_vertices(slots, i as int, vertices@.len() as int)
                        == render_vertices(slots, i + 1, vertices@.len() as int));
                    assert(render_indices(slots, i as int, vertices@.len() as int)
                        == render_indices(slots, i + 1, vertices@.len() as int));
                    cursor = i + 1;
                }
            }
            t = t + 1;
        }
        proof {
            // everything past the last hit is empty
            assert forall|j: int| cursor <= j < slots.len() implies slots[j] is None by {
                if slots[j] is Some {
                    let k = choose|k: int|
                        0 <= k < occupied@.len() && #[trigger] occupied@[k] == j;
                    if k < t - 1 {
                        assert(occupied@[k] < occupied@[t - 1]);
                    }
                }
            }
            lemma_render_skip_empty(slots, cursor, slots.len() as int, vertices@.len() as int);
        }
        (vertices, indices)
    }
}

/// Clones a vertex list element by element.
fn copy_mesh(mesh: &Vec<MeshVertex>) -> (r: Vec<MeshVertex>)
    ensures
        r@ == mesh@,
{
    let mut r: Vec<MeshVertex> = Vec::new();
    let n = mesh.len();
    let mut i: usize = 0;
    while i < n
        invariant
            n == mesh@.len(),
            i <= n,
            r@ == mesh@.take(i as int),
        decreases n - i,
    {
        let v = mesh[i];
        r.push(v);
        proof {
            assert(r@ =~= mesh@.take(i + 1));
        }
        i = i + 1;
    }
    proof {
        assert(mesh@.take(n as int) =~= mesh@);
    }
    r
}

} // verus!
