//! Chunks (cubic block arrays) and per-column height maps.

use vstd::prelude::*;

use crate::block::{spec_block_index, in_chunk, vec3_to_index, Block, IVec3};

verus! {

/// A cubic region of `CHUNK_SIZE^3` blocks, flat-indexed by
/// `spec_block_index`. `pos` is the chunk coordinate: the chunk spans world
/// blocks `[pos * 32, pos * 32 + 32)` on each axis.
pub struct Chunk {
    pub pos: IVec3,
    pub blocks: Vec<Block>,
}

impl Chunk {
    /// The block array always holds exactly one block per cell.
    pub open spec fn wf(&self) -> bool {
        self.blocks.len() == 32768
    }

    /// The block stored at local coordinates `(x, y, z)`.
    pub open spec fn spec_block(&self, x: int, y: int, z: int) -> Block
        recommends
            self.wf(),
            in_chunk(x, y, z),
    {
        self.blocks[spec_block_index(x, y, z)]
    }

    /// A fresh all-air chunk at `pos`.
    pub fn new(pos: IVec3) -> (c: Chunk)
        ensures
            c.wf(),
            c.pos == pos,
            forall|x: int, y: int, z: int|
                in_chunk(x, y, z) ==> c.spec_block(x, y, z) == Block::Air,
    {
        let mut blocks: Vec<Block> = Vec::new();
        let mut i: usize = 0;
        while i < 32768
            invariant
                i == blocks.len(),
                i <= 32768,
                forall|j: int| 0 <= j < i ==> blocks[j] == Block::Air,
            decreases 32768 - i,
        {
            blocks.push(Block::Air);
            i = i + 1;
        }
        proof {
            assert forall|x: int, y: int, z: int| in_chunk(x, y, z) implies
                blocks@[spec_block_index(x, y, z)] == Block::Air by {
                crate::block::lemma_index_bijection(x, y, z);
            }
        }
        Chunk { pos, blocks }
    }

    /// Read one block.
    pub fn block(&self, pos: IVec3) -> (b: Block)
        requires
            self.wf(),
            in_chunk(pos.x as int, pos.y as int, pos.z as int),
        ensures
            b == self.spec_block(pos.x as int, pos.y as int, pos.z as int),
    {
        self.blocks[vec3_to_index(pos)]
    }

    /// Overwrite one block, leaving every other cell unchanged.
    pub fn set_block(&mut self, pos: IVec3, b: Block)
        requires
            old(self).wf(),
            in_chunk(pos.x as int, pos.y as int, pos.z as int),
        ensures
            final(self).wf(),
            final(self).pos == old(self).pos,
            final(self).blocks@ == old(self).blocks@.update(
                spec_block_index(pos.x as int, pos.y as int, pos.z as int),
                b,
            ),
            final(self).spec_block(pos.x as int, pos.y as int, pos.z as int) == b,
            forall|x: int, y: int, z: int|
                in_chunk(x, y, z) && (x, y, z) != (pos.x as int, pos.y as int, pos.z as int)
                    ==> final(self).spec_block(x, y, z) == old(self).spec_block(x, y, z),
    {
        let i = vec3_to_index(pos);
        self.blocks[i] = b;
        proof {
            assert forall|x: int, y: int, z: int|
                in_chunk(x, y, z) && (x, y, z) != (pos.x as int, pos.y as int, pos.z as int)
                    implies self.spec_block(x, y, z) == old(self).spec_block(x, y, z) by {
                crate::block::lemma_index_bijection(x, y, z);
                crate::block::lemma_index_bijection(pos.x as int, pos.y as int, pos.z as int);
            }
        }
    }
}

/// Terrain column heights for one chunk and a one-block apron around it:
/// local columns `(x, z)` with `-1 <= x <= 32` and `-1 <= z <= 32`.
///
/// The producer samples the deterministic noise field once per world column;
/// meshing uses the apron to resolve blocks just beyond the chunk border
/// exactly as the neighbor's generator would.
pub struct HeightMap {
    pub data: Vec<i32>,
}

impl HeightMap {
    /// One height per column of the padded `34 x 34` grid.
    pub open spec fn wf(&self) -> bool {
        self.data.len() == 1156
    }

    /// The column height `max_y` at local column `(x, z)`.
    pub open spec fn spec_height(&self, x: int, z: int) -> int
        recommends
            self.wf(),
            -1 <= x <= 32,
            -1 <= z <= 32,
    {
        self.data[(x + 1) + (z + 1) * 34] as int
    }

    /// Wrap a `34 * 34` row-major (x fastest) height vector.
    pub fn new(data: Vec<i32>) -> (h: HeightMap)
        requires
            data.len() == 1156,
        ensures
            h.wf(),
            forall|x: int, z: int|
                -1 <= x <= 32 && -1 <= z <= 32
                    ==> h.spec_height(x, z) == data[(x + 1) + (z + 1) * 34],
    {
        HeightMap { data }
    }

    /// Read the height of one column.
    pub fn height(&self, x: i32, z: i32) -> (h: i32)
        requires
            self.wf(),
            -1 <= x <= 32,
            -1 <= z <= 32,
        ensures
            h == self.spec_height(x as int, z as int),
    {
        let i = ((x + 1) + (z + 1) * 34) as usize;
        self.data[i]
    }
}

} // verus!
