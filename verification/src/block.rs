//! Block prototypes: the per-block-ID properties the rest of the core
//! consults — solidity, transparency, and which texture each of the six face
//! directions samples.
//!
//! A prototype set is built from a plain list of prototypes, exactly as they
//! come out of a configuration file: per-block texture indices are local to
//! the block when they arrive and are rebased onto one global texture list
//! here, and an "Air" prototype is prepended as block ID 0.

use vstd::prelude::*;
use vstd::string::StringExecFns;
use crate::geometry::{Facing, spec_facing_index};

verus! {

/// Block IDs are 16-bit; 0 is always air / unloaded space.
pub type BlockID = u16;

/// The default solidity of a block prototype whose configuration names none.
pub fn default_solid() -> (r: bool)
    ensures
        r,
{
    true
}

/// The default face-to-texture table: every face uses the block's first
/// texture.
pub fn tex_face_map_zeros() -> (r: [usize; 6])
    ensures
        forall|i: int| 0 <= i < 6 ==> r@[i] == 0,
{
    [0, 0, 0, 0, 0, 0]
}

/// Static properties of one block kind.
#[derive(Debug)]
pub struct BlockProto {
    pub name: String,
    pub textures: Vec<String>,
    /// Texture index per face direction, in the order north, east, west,
    /// south, up, down.
    pub tex_face_map: [usize; 6],
    pub solid: bool,
    pub transparent: bool,
}

/// The number of textures owned by the blocks before block `i`: the offset
/// that block `i`'s face table is rebased by.
pub open spec fn tex_offset(blocks: Seq<BlockProto>, i: int) -> int
    decreases i,
{
    if i <= 0 {
        0
    } else {
        tex_offset(blocks, i - 1) + blocks[i - 1].textures@.len()
    }
}

proof fn lemma_tex_offset_monotonic(blocks: Seq<BlockProto>, i: int, j: int)
    requires
        0 <= i <= j,
    ensures
        tex_offset(blocks, i) <= tex_offset(blocks, j),
    decreases j - i,
{
    if i < j {
        lemma_tex_offset_monotonic(blocks, i, j - 1);
    }
}

/// The texture paths contributed by one block: each texture name under the
/// texture asset directory.
pub open spec fn block_texture_paths(b: BlockProto) -> Seq<Seq<char>> {
    Seq::new(b.textures@.len(), |j: int| "assets/textures/"@ + b.textures@[j]@)
}

/// The texture paths of a whole prototype list, block by block, in order.
pub open spec fn texture_paths(blocks: Seq<BlockProto>) -> Seq<Seq<char>>
    decreases blocks.len(),
{
    if blocks.len() == 0 {
        Seq::empty()
    } else {
        texture_paths(blocks.drop_last()) + block_texture_paths(blocks.last())
    }
}

/// An indexed set of block prototypes; a `BlockID` is an index into it.
#[derive(Debug)]
pub struct BlockProtoSet {
    pub blocks: Vec<BlockProto>,
}

impl BlockProtoSet {
    /// An empty set, with no prototypes at all (not even air).
    pub fn new() -> (r: Self)
        ensures
            r.blocks@.len() == 0,
    {
        BlockProtoSet { blocks: Vec::new() }
    }

    /// Builds the set from configured prototypes: block `i` of the input
    /// becomes block ID `i + 1`, its face table rebased by the number of
    /// textures of the blocks before it, and block ID 0 becomes a
    /// non-solid, transparent, textureless "Air" prototype.
    pub fn from_protos(protos: Vec<BlockProto>) -> (r: Self)
        requires
            tex_offset(protos@, protos@.len() as int) <= usize::MAX,
            forall|i: int, k: int|
                0 <= i < protos@.len() && 0 <= k < 6
                    ==> #[trigger] protos@[i].tex_face_map@[k] + tex_offset(protos@, i)
                        <= usize::MAX,
        ensures
            r.blocks@.len() == protos@.len() + 1,
            r.blocks@[0].name@ == "Air"@,
            r.blocks@[0].textures@.len() == 0,
            forall|k: int| 0 <= k < 6 ==> r.blocks@[0].tex_face_map@[k] == 0,
            !r.blocks@[0].solid,
            r.blocks@[0].transparent,
            forall|i: int| 0 <= i < protos@.len() ==> {
                &&& (#[trigger] r.blocks@[i + 1]).name == protos@[i].name
                &&& r.blocks@[i + 1].textures == protos@[i].textures
                &&& r.blocks@[i + 1].solid == protos@[i].solid
                &&& r.blocks@[i + 1].transparent == protos@[i].transparent
                &&& forall|k: int| 0 <= k < 6
                        ==> #[trigger] r.blocks@[i + 1].tex_face_map@[k]
                            == protos@[i].tex_face_map@[k] + tex_offset(protos@, i)
            },
    {
        let ghost all = protos@;
        let n_protos = protos.len();
        proof {
            assert(all.len() == n_protos);
        }
        let air = BlockProto {
            name: String::from_str("Air"),
            textures: Vec::new(),
            tex_face_map: [0, 0, 0, 0, 0, 0],
            solid: false,
            transparent: true,
        };
        let mut blocks: Vec<BlockProto> = Vec::new();
        blocks.push(air);

        let mut protos = protos;
        let mut true_tex_offset: usize = 0;
        let mut i: usize = 0;
        while protos.len() > 0
            invariant
                all.len() <= usize::MAX,
                i + protos@.len() == all.len(),
                protos@ =~= all.skip(i as int),
                true_tex_offset == tex_offset(all, i as int),
                tex_offset(all, all.len() as int) <= usize::MAX,
                forall|m: int, k: int|
                    0 <= m < all.len() && 0 <= k < 6
                        ==> #[trigger] all[m].tex_face_map@[k] + tex_offset(all, m)
                            <= usize::MAX,
                blocks@.len() == i + 1,
                blocks@[0].name@ == "Air"@,
                blocks@[0].textures@.len() == 0,
                forall|k: int| 0 <= k < 6 ==> blocks@[0].tex_face_map@[k] == 0,
                !blocks@[0].solid,
                blocks@[0].transparent,
                forall|m: int| 0 <= m < i ==> {
                    &&& (#[trigger] blocks@[m + 1]).name == all[m].name
                    &&& blocks@[m + 1].textures == all[m].textures
                    &&& blocks@[m + 1].solid == all[m].solid
                    &&& blocks@[m + 1].transparent == all[m].transparent
                    &&& forall|k: int| 0 <= k < 6
                            ==> #[trigger] blocks@[m + 1].tex_face_map@[k]
                                == all[m].tex_face_map@[k] + tex_offset(all, m)
                },
            decreases protos@.len(),
        {
            let p = protos.remove(0);
            proof {
                assert(p == all[i as int]);
                lemma_tex_offset_monotonic(all, i as int + 1, all.len() as int);
            }
            let m = p.tex_face_map;
            let rebased = [
                m[0] + true_tex_offset,
                m[1] + true_tex_offset,
                m[2] + true_tex_offset,
                m[3] + true_tex_offset,
                m[4] + true_tex_offset,
                m[5] + true_tex_offset,
            ];
            let n_textures = p.textures.len();
            blocks.push(BlockProto {
                name: p.name,
                textures: p.textures,
                tex_face_map: rebased,
                solid: p.solid,
                transparent: p.transparent,
            });
            true_tex_offset = true_tex_offset + n_textures;
            i = i + 1;
        }
        BlockProtoSet { blocks }
    }

    /// Borrows the prototype for a block ID.
    pub fn by_id(&self, block_id: BlockID) -> (r: &BlockProto)
        requires
            block_id < self.blocks@.len(),
        ensures
            *r == self.blocks@[block_id as int],
    {
        &self.blocks[block_id as usize]
    }

    /// The global texture index that `facing` of block `block_id` samples.
    pub fn get_tex_id(&self, block_id: BlockID, facing: Facing) -> (r: usize)
        requires
            block_id < self.blocks@.len(),
        ensures
            r == self.blocks@[block_id as int].tex_face_map@[spec_facing_index(facing)],
    {
        self.blocks[block_id as usize].tex_face_map[facing.index()]
    }

    /// Every texture path of every block, in block order: the list the
    /// texture atlas is loaded from, which the rebased face tables index.
    pub fn collect_textures(&self) -> (r: Vec<String>)
        ensures
            r@.len() == texture_paths(self.blocks@).len(),
            forall|j: int| 0 <= j < r@.len() ==> #[trigger] r@[j]@ == texture_paths(self.blocks@)[j],
    {
        let mut textures: Vec<String> = Vec::new();
        let n = self.blocks.len();
        let mut i: usize = 0;
        while i < n
            invariant
                i <= n,
                n == self.blocks@.len(),
                textures@.len() == texture_paths(self.blocks@.take(i as int)).len(),
                forall|j: int| 0 <= j < textures@.len()
                    ==> #[trigger] textures@[j]@ == texture_paths(self.blocks@.take(i as int))[j],
            decreases n - i,
        {
            let ghost prefix = texture_paths(self.blocks@.take(i as int));
            let block = &self.blocks[i];
            let tn = block.textures.len();
            let mut k: usize = 0;
            while k < tn
                invariant
                    k <= tn,
                    i < n,
                    n == self.blocks@.len(),
                    tn == self.blocks@[i as int].textures@.len(),
                    block == &self.blocks@[i as int],
                    prefix == texture_paths(self.blocks@.take(i as int)),
                    textures@.len() == prefix.len() + k,
                    forall|j: int| 0 <= j < prefix.len()
                        ==> #[trigger] textures@[j]@ == prefix[j],
                    forall|j: int| prefix.len() <= j < textures@.len()
                        ==> #[trigger] textures@[j]@
                            == block_texture_paths(self.blocks@[i as int])[j - prefix.len()],
                decreases tn - k,
            {
                let s = String::from_str("assets/textures/");
                let s = s.concat(block.textures[k].as_str());
                textures.push(s);
                k = k + 1;
            }
            proof {
                assert(self.blocks@.take(i + 1).drop_last() =~= self.blocks@.take(i as int));
                assert(texture_paths(self.blocks@.take(i + 1))
                    == prefix + block_texture_paths(self.blocks@[i as int]));
            }
            i = i + 1;
        }
        proof {
            assert(self.blocks@.take(n as int) =~= self.blocks@);
        }
        textures
    }
}

} // verus!
