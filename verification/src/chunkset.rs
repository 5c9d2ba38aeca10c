//! Chunk set: a fixed-size toroidal cache of chunks addressed by Euclidean
//! modulo of the chunk coordinate.
//!
//! The array side is `2 * render_distance + 1`, so the window of coordinates
//! around the center maps one-to-one onto array cells: moving the center
//! re-labels cells instead of moving data. A cell may keep a stale chunk for
//! a coordinate that has left the window until it is explicitly evicted;
//! eviction before reuse is the caller's streaming discipline, and every
//! occupied cell always holds a chunk whose own coordinate maps to it.

use vstd::prelude::*;
use crate::block::BlockProtoSet;
use crate::chunk::{Chunk, chunk_index, chunk_mesh_ok, planet_cell, ANCHOR_LIMIT};
use crate::pool::MemoryBlock;

verus! {

/// A chunk-granularity position in unbounded world space.
pub type ChunkCoord = (i64, i64, i64);

/// Chunk coordinates are kept small enough that world anchors (coordinate
/// times chunk side) stay well inside `i64`.
pub const COORD_LIMIT: i64 = 0x0080_0000_0000_0000;

/// The chunk coordinate a chunk's anchor sits at, axis by axis.
pub open spec fn chunk_coord_of(c: Chunk) -> (int, int, int) {
    (c.x as int / 16, c.y as int / 16, c.z as int / 16)
}

/// A toroidal array of chunk slots with a movable logical center.
pub struct ChunkSet {
    pub chunks: MemoryBlock<Chunk>,
    pub center: ChunkCoord,
    pub render_distance: i64,
    pub arr_length: usize,
    pub arr_area: usize,
    pub arr_vol: usize,
}

impl ChunkSet {
    /// The flat slot index that the chunk coordinate `(cx, cy, cz)` maps
    /// to: Euclidean remainder per axis, then row-major flattening. The
    /// center plays no part in it.
    pub open spec fn real_index_of(&self, cx: int, cy: int, cz: int) -> int {
        (cx % (self.arr_length as int)) * (self.arr_area as int)
            + (cy % (self.arr_length as int)) * (self.arr_length as int)
            + (cz % (self.arr_length as int))
    }

    /// The flat slot index for a coordinate value.
    pub open spec fn spec_real_index(&self, coord: ChunkCoord) -> int {
        self.real_index_of(coord.0 as int, coord.1 as int, coord.2 as int)
    }

    /// Whether a coordinate lies in the window: within `render_distance` of
    /// the center on every axis.
    pub open spec fn in_window(&self, coord: ChunkCoord) -> bool {
        &&& self.center.0 - self.render_distance <= coord.0 <= self.center.0 + self.render_distance
        &&& self.center.1 - self.render_distance <= coord.1 <= self.center.1 + self.render_distance
        &&& self.center.2 - self.render_distance <= coord.2 <= self.center.2 + self.render_distance
    }

    /// The slot `i` is empty, or holds a well-formed chunk that sits on the
    /// chunk grid, inside the coordinate limit, and whose own coordinate
    /// maps to `i`.
    pub open spec fn slot_ok(&self, i: int) -> bool {
        self.chunks@[i] matches Some(c) ==> {
            &&& c.wf()
            &&& c.mesh@.len() % 4 == 0
            &&& c.x as int % 16 == 0
            &&& c.y as int % 16 == 0
            &&& c.z as int % 16 == 0
            &&& -(COORD_LIMIT as int) - 2048 <= c.x as int / 16 <= COORD_LIMIT + 2048
            &&& -(COORD_LIMIT as int) - 2048 <= c.y as int / 16 <= COORD_LIMIT + 2048
            &&& -(COORD_LIMIT as int) - 2048 <= c.z as int / 16 <= COORD_LIMIT + 2048
            &&& self.real_index_of(c.x as int / 16, c.y as int / 16, c.z as int / 16) == i
        }
    }

    /// Geometry sanity: the array is the cube of an odd side fixed by the
    /// render distance, the center is inside the coordinate limit, and every
    /// occupied slot holds the chunk that belongs to it.
    pub open spec fn wf(&self) -> bool {
        &&& 1 <= self.render_distance <= 512
        &&& self.arr_length as int == 2 * self.render_distance + 1
        &&& self.arr_area as int == self.arr_length * self.arr_length
        &&& self.arr_vol as int == self.arr_area * self.arr_length
        &&& self.chunks@.len() == self.arr_vol
        &&& -COORD_LIMIT <= self.center.0 <= COORD_LIMIT
        &&& -COORD_LIMIT <= self.center.1 <= COORD_LIMIT
        &&& -COORD_LIMIT <= self.center.2 <= COORD_LIMIT
        &&& forall|i: int| 0 <= i < self.chunks@.len() ==> self.slot_ok(i)
    }

    /// An empty chunk set: all slots free, centered where asked.
    pub fn new(center: ChunkCoord, render_distance: usize) -> (r: Self)
        requires
            1 <= render_distance <= 512,
            -COORD_LIMIT <= center.0 <= COORD_LIMIT,
            -COORD_LIMIT <= center.1 <= COORD_LIMIT,
            -COORD_LIMIT <= center.2 <= COORD_LIMIT,
        ensures
            r.wf(),
            r.center == center,
            r.render_distance == render_distance,
            r.arr_length == 2 * render_distance + 1,
            forall|i: int| 0 <= i < r.chunks@.len() ==> r.chunks@[i] is None,
    {
        let arr_length = 2 * render_distance + 1;
        proof {
            assert(arr_length * arr_length <= 1025 * 1025
                && arr_length * arr_length * arr_length <= 1025 * 1025 * 1025)
                by (nonlinear_arith)
                requires 0 < arr_length <= 1025;
        }
        let arr_area = arr_length * arr_length;
        let arr_vol = arr_area * arr_length;
        ChunkSet {
            chunks: MemoryBlock::new(arr_vol),
            center,
            render_distance: render_distance as i64,
            arr_length,
            arr_area,
            arr_vol,
        }
    }

    /// Moves the logical center. No chunk data moves: only which coordinates
    /// count as in the window changes.
    pub fn recenter(&mut self, center: ChunkCoord)
        requires
            old(self).wf(),
            -COORD_LIMIT <= center.0 <= COORD_LIMIT,
            -COORD_LIMIT <= center.1 <= COORD_LIMIT,
            -COORD_LIMIT <= center.2 <= COORD_LIMIT,
        ensures
            final(self).wf(),
            final(self).center == center,
            final(self).chunks@ == old(self).chunks@,
            final(self).render_distance == old(self).render_distance,
            final(self).arr_length == old(self).arr_length,
            final(self).arr_area == old(self).arr_area,
            final(self).arr_vol == old(self).arr_vol,
    {
        self.center = center;
        proof {
            assert forall|i: int| 0 <= i < self.chunks@.len() implies self.slot_ok(i) by {
                assert(old(self).slot_ok(i));
            }
        }
    }

    /// The per-axis array index of a chunk coordinate: its Euclidean
    /// remainder modulo the array side, independent of the center.
    pub fn chunk_coord_to_arr_index(&self, coord: ChunkCoord) -> (r: (usize, usize, usize))
        requires
            self.wf(),
        ensures
            r.0 as int == coord.0 as int % (self.arr_length as int),
            r.1 as int == coord.1 as int % (self.arr_length as int),
            r.2 as int == coord.2 as int % (self.arr_length as int),
            r.0 < self.arr_length && r.1 < self.arr_length && r.2 < self.arr_length,
    {
        let l = self.arr_length as i64;
        let i0 = coord.0.checked_rem_euclid(l).unwrap();
        let i1 = coord.1.checked_rem_euclid(l).unwrap();
        let i2 = coord.2.checked_rem_euclid(l).unwrap();
        (i0 as usize, i1 as usize, i2 as usize)
    }

    /// Flattens a per-axis array index into the slot index.
    pub fn arr_index_to_real_index(&self, index: (usize, usize, usize)) -> (r: usize)
        requires
            self.wf(),
            index.0 < self.arr_length,
            index.1 < self.arr_length,
            index.2 < self.arr_length,
        ensures
            r as int == (index.0 as int) * (self.arr_area as int)
                + (index.1 as int) * (self.arr_length as int) + (index.2 as int),
            r < self.arr_vol,
    {
        proof {
            lemma_flat_index_bound(
                self.arr_length as int, index.0 as int, index.1 as int, index.2 as int);
        }
        index.0 * self.arr_area + index.1 * self.arr_length + index.2
    }

    /// The slot index a chunk coordinate maps to.
    pub fn chunk_coord_to_real_index(&self, coord: ChunkCoord) -> (r: usize)
        requires
            self.wf(),
        ensures
            r as int == self.spec_real_index(coord),
            r < self.arr_vol,
    {
        self.arr_index_to_real_index(self.chunk_coord_to_arr_index(coord))
    }

    /// Whether a chunk coordinate is inside the current window.
    pub fn check_in_bounds(&self, chunk_coord: ChunkCoord) -> (r: bool)
        requires
            self.wf(),
        ensures
            r == self.in_window(chunk_coord),
    {
        chunk_coord.0 <= self.center.0 + self.render_distance
            && chunk_coord.0 >= self.center.0 - self.render_distance
            && chunk_coord.1 <= self.center.1 + self.render_distance
            && chunk_coord.1 >= self.center.1 - self.render_distance
            && chunk_coord.2 <= self.center.2 + self.render_distance
            && chunk_coord.2 >= self.center.2 - self.render_distance
    }

    /// Whether the slot a coordinate maps to is free.
    pub fn is_unloaded(&self, chunk_coord: ChunkCoord) -> (r: bool)
        requires
            self.wf(),
        ensures
            r == (self.chunks@[self.spec_real_index(chunk_coord)] is None),
    {
        let i = self.chunk_coord_to_real_index(chunk_coord);
        !self.chunks.is_allocated(i)
    }

    /// Frees the slot a coordinate maps to, dropping whatever chunk was in
    /// it; freeing a free slot is a no-op.
    pub fn mark_unloaded(&mut self, chunk_coord: ChunkCoord)
        requires
            old(self).wf(),
        ensures
            final(self).wf(),
            final(self).chunks@
                == old(self).chunks@.update(old(self).spec_real_index(chunk_coord), None::<Chunk>),
            final(self).center == old(self).center,
            final(self).render_distance == old(self).render_distance,
            final(self).arr_length == old(self).arr_length,
            final(self).arr_area == old(self).arr_area,
            final(self).arr_vol == old(self).arr_vol,
    {
        let i = self.chunk_coord_to_real_index(chunk_coord);
        if self.chunks.is_allocated(i) {
            self.chunks.drop(i);
        } else {
            proof {
                assert(self.chunks@ =~= old(self).chunks@.update(i as int, None::<Chunk>));
            }
        }
        proof {
            assert forall|m: int| 0 <= m < self.chunks@.len() implies self.slot_ok(m) by {
                assert(old(self).slot_ok(m));
                if m != i {
                    assert(self.chunks@[m] == old(self).chunks@[m]);
                }
            }
        }
    }

    /// Whether the slot for `coord` holds the chunk of exactly that
    /// coordinate (not a stale occupant from an earlier window).
    pub open spec fn spec_holds(&self, coord: ChunkCoord) -> bool {
        self.chunks@[self.spec_real_index(coord)] matches Some(c)
            && chunk_coord_of(c) == (coord.0 as int, coord.1 as int, coord.2 as int)
    }

    /// Whether the slot for `coord` currently holds that coordinate's chunk.
    pub fn holds_coord(&self, coord: ChunkCoord) -> (r: bool)
        requires
            self.wf(),
        ensures
            r == self.spec_holds(coord),
    {
        let i = self.chunk_coord_to_real_index(coord);
        if !self.chunks.is_allocated(i) {
            return false;
        }
        let c = self.chunks.read(i);
        let cc = c.integer_chunk_coords();
        proof {
            lemma_exact_div(c.x as int, cc.0 as int);
            lemma_exact_div(c.y as int, cc.1 as int);
            lemma_exact_div(c.z as int, cc.2 as int);
        }
        cc.0 == coord.0 && cc.1 == coord.1 && cc.2 == coord.2
    }

    /// Borrows the chunk at a chunk coordinate: the occupant of its slot,
    /// when the coordinate is in the window and the slot is occupied.
    pub fn get_chunk_at_chunk_coords(&self, chunk_coord: ChunkCoord) -> (r: Option<&Chunk>)
        requires
            self.wf(),
        ensures
            match r {
                Some(c) => self.in_window(chunk_coord)
                    && self.chunks@[self.spec_real_index(chunk_coord)] == Some(*c),
                None => !self.in_window(chunk_coord)
                    || self.chunks@[self.spec_real_index(chunk_coord)] is None,
            },
    {
        if self.check_in_bounds(chunk_coord) {
            let i = self.chunk_coord_to_real_index(chunk_coord);
            if self.chunks.is_allocated(i) {
                return Some(self.chunks.read(i));
            }
        }
        None
    }

    /// Borrows the chunk covering a world-space block position.
    pub fn get_chunk_at_world_coords(&self, pos: (i64, i64, i64)) -> (r: Option<&Chunk>)
        requires
            self.wf(),
        ensures
            match r {
                Some(c) => self.in_window(spec_world_to_chunk_coords(pos))
                    && self.chunks@[self.spec_real_index(spec_world_to_chunk_coords(pos))]
                        == Some(*c),
                None => !self.in_window(spec_world_to_chunk_coords(pos))
                    || self.chunks@[self.spec_real_index(spec_world_to_chunk_coords(pos))]
                        is None,
            },
    {
        let c = Self::world_to_chunk_coords(pos);
        self.get_chunk_at_chunk_coords(c)
    }

    /// The chunk coordinate whose chunk covers a world-space block position.
    pub fn world_to_chunk_coords(pos: (i64, i64, i64)) -> (r: ChunkCoord)
        ensures
            r == spec_world_to_chunk_coords(pos),
            r.0 * 16 <= pos.0 < r.0 * 16 + 16,
            r.1 * 16 <= pos.1 < r.1 * 16 + 16,
            r.2 * 16 <= pos.2 < r.2 * 16 + 16,
    {
        let cx = pos.0.checked_div_euclid(16).unwrap();
        let cy = pos.1.checked_div_euclid(16).unwrap();
        let cz = pos.2.checked_div_euclid(16).unwrap();
        proof {
            lemma_div_brackets(pos.0 as int, cx as int);
            lemma_div_brackets(pos.1 as int, cy as int);
            lemma_div_brackets(pos.2 as int, cz as int);
        }
        (cx, cy, cz)
    }

    /// The slot indices currently occupied, in ascending order.
    pub fn iter(&self) -> (r: Vec<usize>)
        requires
            self.wf(),
        ensures
            forall|k: int| 0 <= k < r@.len()
                ==> (#[trigger] r@[k]) < self.chunks@.len()
                    && self.chunks@[r@[k] as int] is Some,
            forall|k1: int, k2: int| 0 <= k1 < k2 < r@.len() ==> r@[k1] < r@[k2],
            forall|i: int|
                0 <= i < self.chunks@.len() && self.chunks@[i] is Some
                    ==> exists|k: int| 0 <= k < r@.len() && #[trigger] r@[k] == i,
    {
        let n = self.chunks.length();
        let mut r: Vec<usize> = Vec::new();
        let mut i: usize = 0;
        while i < n
            invariant
                n == self.chunks@.len(),
                i <= n,
                forall|k: int| 0 <= k < r@.len()
                    ==> (#[trigger] r@[k]) < i && self.chunks@[r@[k] as int] is Some,
                forall|k1: int, k2: int| 0 <= k1 < k2 < r@.len() ==> r@[k1] < r@[k2],
                forall|m: int|
                    0 <= m < i && self.chunks@[m] is Some
                        ==> exists|k: int| 0 <= k < r@.len() && #[trigger] r@[k] == m,
            decreases n - i,
        {
            if self.chunks.is_allocated(i) {
                let ghost r0 = r@;
                r.push(i);
                proof {
                    assert(r@ == r0.push(i));
                    assert forall|k: int| 0 <= k < r@.len() - 1 implies #[trigger] r@[k] < i by {
                        assert(r@[k] == r0[k]);
                    }
                    assert forall|m: int| 0 <= m < i + 1 && self.chunks@[m] is Some
                        implies exists|k: int| 0 <= k < r@.len() && #[trigger] r@[k] == m by {
                        if m < i {
                            let k = choose|k: int| 0 <= k < r0.len() && #[trigger] r0[k] == m;
                            assert(r@[k] == m);
                        } else {
                            assert(r@[r@.len() - 1] == i);
                        }
                    }
                }
            }
            i = i + 1;
        }
        r
    }

    /// Builds, fills and meshes a fresh chunk for `coord`, dropping any
    /// stale occupant of its slot first, and marks it ready to display.
    /// `heights` is the terrain height of each of the chunk's 16 x 16
    /// columns; the voxels become exactly what `planet_cell` says.
    pub fn generate_chunk(
        &mut self,
        chunk_coord: ChunkCoord,
        heights: &Vec<i64>,
        block_proto_set: &BlockProtoSet,
    )
        requires
            old(self).wf(),
            -COORD_LIMIT - 2048 <= chunk_coord.0 <= COORD_LIMIT + 2048,
            -COORD_LIMIT - 2048 <= chunk_coord.1 <= COORD_LIMIT + 2048,
            -COORD_LIMIT - 2048 <= chunk_coord.2 <= COORD_LIMIT + 2048,
            heights@.len() == 256,
            forall|n: int| 0 <= n < 256 ==> -ANCHOR_LIMIT <= #[trigger] heights@[n] <= ANCHOR_LIMIT,
            block_proto_set.blocks@.len() >= 6,
            forall|b: int, f: int|
                0 <= b < block_proto_set.blocks@.len() && 0 <= f < 6
                    ==> #[trigger] block_proto_set.blocks@[b].tex_face_map@[f] <= u32::MAX,
        ensures
            final(self).wf(),
            final(self).center == old(self).center,
            final(self).render_distance == old(self).render_distance,
            final(self).arr_length == old(self).arr_length,
            final(self).arr_area == old(self).arr_area,
            final(self).arr_vol == old(self).arr_vol,
            forall|i: int|
                0 <= i < old(self).chunks@.len() && i != old(self).spec_real_index(chunk_coord)
                    ==> final(self).chunks@[i] == old(self).chunks@[i],
            final(self).chunks@[old(self).spec_real_index(chunk_coord)] matches Some(c) && {
                &&& c.x == 16 * chunk_coord.0 && c.y == 16 * chunk_coord.1
                    && c.z == 16 * chunk_coord.2
                &&& c.ready_to_display
                &&& c.mesh@.len() % 4 == 0
                &&& chunk_mesh_ok(c.mesh@, c.ids(), c.x, c.y, c.z, block_proto_set.blocks@)
                &&& forall|i: int, j: int, k: int|
                    0 <= i < 16 && 0 <= j < 16 && 0 <= k < 16
                        ==> c.ids()[#[trigger] chunk_index(i, j, k)]
                            == planet_cell(0, 16 * chunk_coord.2 as int,
                                heights@[i * 16 + j] as int, k)
                &&& forall|n: int| 0 <= n < c.ids().len() ==> #[trigger] c.ids()[n] < 6
            },
            final(self).spec_holds(chunk_coord),
    {
        let i = self.chunk_coord_to_real_index(chunk_coord);
        let mut c = Chunk::new(chunk_coord.0 * 16, chunk_coord.1 * 16, chunk_coord.2 * 16);
        c.generate_planet(heights);
        proof {
            assert forall|n: int| 0 <= n < c.ids().len()
                implies #[trigger] c.ids()[n] < 6 by {
                let bi = n / 256;
                let bj = (n % 256) / 16;
                let bk = n % 16;
                assert(0 <= bi < 16 && 0 <= bj < 16 && 0 <= bk < 16
                    && n == bi * 256 + bj * 16 + bk) by (nonlinear_arith)
                    requires 0 <= n < 4096 && bi == n / 256 && bj == (n % 256) / 16 && bk == n % 16;
                assert(c.ids()[chunk_index(bi, bj, bk)] < 6);
            }
        }
        c.make_mesh(block_proto_set);
        c.ready_to_display = true;
        if self.chunks.is_allocated(i) {
            self.chunks.drop(i);
        }
        proof {
            lemma_mul_div_16(chunk_coord.0 as int);
            lemma_mul_div_16(chunk_coord.1 as int);
            lemma_mul_div_16(chunk_coord.2 as int);
        }
        self.chunks.write(i, c);
        proof {
            assert forall|m: int| 0 <= m < self.chunks@.len() implies self.slot_ok(m) by {
                assert(old(self).slot_ok(m));
                if m != i {
                    assert(self.chunks@[m] == old(self).chunks@[m]);
                } else {
                    assert(self.chunks@[m] == Some(c));
                }
            }
        }
    }

    /// Drops every occupied slot whose chunk's coordinate has left the
    /// window; chunks still in the window stay untouched.
    pub fn evict_outside_window(&mut self)
        requires
            old(self).wf(),
        ensures
            final(self).wf(),
            final(self).center == old(self).center,
            final(self).render_distance == old(self).render_distance,
            final(self).arr_length == old(self).arr_length,
            final(self).arr_area == old(self).arr_area,
            final(self).arr_vol == old(self).arr_vol,
            final(self).chunks@.len() == old(self).chunks@.len(),
            forall|i: int| 0 <= i < old(self).chunks@.len() ==> {
                &&& (old(self).chunks@[i] matches Some(c) && old(self).in_window(
                        ((c.x as int / 16) as i64, (c.y as int / 16) as i64,
                            (c.z as int / 16) as i64))
                    ==> final(self).chunks@[i] == old(self).chunks@[i])
                &&& (old(self).chunks@[i] matches Some(c) && !old(self).in_window(
                        ((c.x as int / 16) as i64, (c.y as int / 16) as i64,
                            (c.z as int / 16) as i64))
                    ==> final(self).chunks@[i] is None)
                &&& (old(self).chunks@[i] is None ==> final(self).chunks@[i] is None)
            },
    {
        let n = self.chunks.length();
        let mut i: usize = 0;
        while i < n
            invariant
                self.wf(),
                n == self.chunks@.len(),
                i <= n,
                self.center == old(self).center,
                self.render_distance == old(self).render_distance,
                self.arr_length == old(self).arr_length,
                self.arr_area == old(self).arr_area,
                self.arr_vol == old(self).arr_vol,
                forall|m: int| i <= m < n ==> self.chunks@[m] == old(self).chunks@[m],
                forall|m: int| 0 <= m < i ==> {
                    &&& (old(self).chunks@[m] matches Some(c) && old(self).in_window(
                            ((c.x as int / 16) as i64, (c.y as int / 16) as i64,
                                (c.z as int / 16) as i64))
                        ==> self.chunks@[m] == old(self).chunks@[m])
                    &&& (old(self).chunks@[m] matches Some(c) && !old(self).in_window(
                            ((c.x as int / 16) as i64, (c.y as int / 16) as i64,
                                (c.z as int / 16) as i64))
                        ==> self.chunks@[m] is None)
                    &&& (old(self).chunks@[m] is None ==> self.chunks@[m] is None)
                },
            decreases n - i,
        {
            let ghost pre = *self;
            if self.chunks.is_allocated(i) {
                let keep = {
                    let c = self.chunks.read(i);
                    proof {
                        assert(self.slot_ok(i as int));
                    }
                    let cc = c.integer_chunk_coords();
                    proof {
                        lemma_exact_div(c.x as int, cc.0 as int);
                        lemma_exact_div(c.y as int, cc.1 as int);
                        lemma_exact_div(c.z as int, cc.2 as int);
                    }
                    self.check_in_bounds(cc)
                };
                if !keep {
                    self.chunks.drop(i);
                }
                proof {
                    assert forall|m: int| 0 <= m < self.chunks@.len() implies self.slot_ok(m) by {
                        assert(pre.slot_ok(m));
                        if m != i {
                            assert(self.chunks@[m] == pre.chunks@[m]);
                        }
                    }
                }
            }
            i = i + 1;
        }
    }
}

/// The chunk coordinate covering a world-space block position: each axis
/// divided by the chunk side, rounded toward negative infinity.
pub open spec fn spec_world_to_chunk_coords(pos: (i64, i64, i64)) -> ChunkCoord {
    (((pos.0 as int) / 16) as i64, ((pos.1 as int) / 16) as i64, ((pos.2 as int) / 16) as i64)
}

/// The slot index of any coordinate lands inside the array.
pub proof fn lemma_real_index_in_range(cs: &ChunkSet, cc: ChunkCoord)
    requires
        cs.wf(),
    ensures
        0 <= cs.spec_real_index(cc) < cs.chunks@.len(),
{
    let l = cs.arr_length as int;
    lemma_flat_index_bound(l, cc.0 as int % l, cc.1 as int % l, cc.2 as int % l);
}

/// Flattened per-axis indices stay below the array volume.
proof fn lemma_flat_index_bound(l: int, i0: int, i1: int, i2: int)
    requires
        0 <= i0 < l,
        0 <= i1 < l,
        0 <= i2 < l,
    ensures
        0 <= i0 * (l * l) + i1 * l + i2 < l * l * l,
{
    assert(0 <= i0 * (l * l) + i1 * l + i2 < l * l * l) by (nonlinear_arith)
        requires 0 <= i0 < l && 0 <= i1 < l && 0 <= i2 < l;
}

/// Euclidean division brackets the dividend between multiples.
proof fn lemma_div_brackets(v: int, d: int)
    requires
        d == v / 16,
    ensures
        d * 16 <= v < d * 16 + 16,
{
    assert(d * 16 <= v < d * 16 + 16) by (nonlinear_arith)
        requires d == v / 16;
}

/// A value bracketed between multiples of the chunk side has that multiple
/// as its Euclidean quotient, exactly when it sits on the grid.
proof fn lemma_exact_div(v: int, d: int)
    requires
        d * 16 <= v < d * 16 + 16,
    ensures
        v % 16 == 0 ==> d == v / 16 && v == 16 * d,
{
    assert(v % 16 == 0 ==> d == v / 16 && v == 16 * d) by (nonlinear_arith)
        requires d * 16 <= v < d * 16 + 16;
}

/// A multiple of the chunk side divides back to its factor.
proof fn lemma_mul_div_16(c: int)
    ensures
        (16 * c) % 16 == 0,
        (16 * c) / 16 == c,
{
    assert((16 * c) % 16 == 0 && (16 * c) / 16 == c) by (nonlinear_arith);
}


/// Recentering never moves a coordinate's slot: the slot index is a pure
/// function of the coordinate modulo the (fixed) array side, so two chunk
/// sets that share array geometry map every coordinate to the same slot, no
/// matter where their centers are.
pub proof fn lemma_arr_index_stable_under_recenter(a: &ChunkSet, b: &ChunkSet, coord: ChunkCoord)
    requires
        a.arr_length == b.arr_length,
        a.arr_area == b.arr_area,
    ensures
        a.spec_real_index(coord) == b.spec_real_index(coord),
{
}

} // verus!
