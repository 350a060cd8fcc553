//! Terrain generation: block selection from column height, and whole-chunk
//! generation from a height map.

use vstd::prelude::*;

use crate::block::{in_chunk, Block, IVec3};
use crate::chunk::{Chunk, HeightMap};

verus! {

/// The block-selection rule for a world position whose column surface is at
/// `max_y`: bedrock floors the world, the surface block is grass, the next
/// few are dirt, high altitudes turn to stone and snow, everything below the
/// terrain surface but under the sea fills with water.
pub open spec fn spec_generate_block_at(y: int, max_y: int) -> Block {
    if y == 0 {
        Block::Bedrock
    } else if y < max_y {
        if y > 165 {
            Block::Snow
        } else if y > 140 {
            Block::Stone
        } else if y == max_y - 1 {
            Block::Grass
        } else if y >= max_y - 4 {
            Block::Dirt
        } else {
            Block::Stone
        }
    } else if y < 64 {
        Block::Water
    } else {
        Block::Air
    }
}

/// Pick the block for world position `pos` in a column of height `max_y`.
/// Only the y coordinate matters; the x and z coordinates select `max_y`.
pub fn generate_block_at(pos: IVec3, max_y: i32) -> (b: Block)
    ensures
        b == spec_generate_block_at(pos.y as int, max_y as int),
{
    let y = pos.y;
    if y == 0 {
        Block::Bedrock
    } else if y < max_y {
        if y > 165 {
            Block::Snow
        } else if y > 140 {
            Block::Stone
        } else if (y as i64) == (max_y as i64) - 1 {
            Block::Grass
        } else if (y as i64) >= (max_y as i64) - 4 {
            Block::Dirt
        } else {
            Block::Stone
        }
    } else if y < crate::SEA_LEVEL {
        Block::Water
    } else {
        Block::Air
    }
}

/// The block a generator produces at local position `(x, y, z)` of the chunk
/// at `chunk_pos`, given the heights of the surrounding columns. Local
/// coordinates may reach one block beyond the chunk on each axis; that is how
/// meshing resolves border cells without the neighbor chunk.
pub open spec fn spec_generated_block(
    chunk_pos: IVec3,
    heights: HeightMap,
    x: int,
    y: int,
    z: int,
) -> Block
    recommends
        heights.wf(),
        -1 <= x <= 32,
        -1 <= z <= 32,
{
    spec_generate_block_at(chunk_pos.y * 32 + y, heights.spec_height(x, z))
}

/// Build the chunk at `pos`: every cell gets the block that the selection
/// rule assigns to its world position, from the height of its column alone.
pub fn generate_chunk(pos: IVec3, heights: &HeightMap) -> (c: Chunk)
    requires
        heights.wf(),
        -65536 <= pos.x <= 65536,
        -65536 <= pos.y <= 65536,
        -65536 <= pos.z <= 65536,
    ensures
        c.wf(),
        c.pos == pos,
        forall|x: int, y: int, z: int|
            in_chunk(x, y, z) ==> c.spec_block(x, y, z) == spec_generated_block(
                pos,
                *heights,
                x,
                y,
                z,
            ),
{
    let mut chunk = Chunk::new(pos);
    let mut z: i32 = 0;
    while z < 32
        invariant
            chunk.wf(),
            chunk.pos == pos,
            heights.wf(),
            -65536 <= pos.x <= 65536,
            -65536 <= pos.y <= 65536,
            -65536 <= pos.z <= 65536,
            0 <= z <= 32,
            forall|xi: int, yi: int, zi: int|
                in_chunk(xi, yi, zi) && zi < z ==> chunk.spec_block(xi, yi, zi)
                    == spec_generated_block(pos, *heights, xi, yi, zi),
        decreases 32 - z,
    {
        let mut x: i32 = 0;
        while x < 32
            invariant
                chunk.wf(),
                chunk.pos == pos,
                heights.wf(),
                -65536 <= pos.x <= 65536,
                -65536 <= pos.y <= 65536,
                -65536 <= pos.z <= 65536,
                0 <= z < 32,
                0 <= x <= 32,
                forall|xi: int, yi: int, zi: int|
                    in_chunk(xi, yi, zi) && zi < z ==> chunk.spec_block(xi, yi, zi)
                        == spec_generated_block(pos, *heights, xi, yi, zi),
                forall|xi: int, yi: int|
                    in_chunk(xi, yi, z as int) && xi < x ==> chunk.spec_block(xi, yi, z as int)
                        == spec_generated_block(pos, *heights, xi, yi, z as int),
            decreases 32 - x,
        {
            let max_y = heights.height(x, z);
            let mut y: i32 = 0;
            while y < 32
                invariant
                    chunk.wf(),
                    chunk.pos == pos,
                    heights.wf(),
                    -65536 <= pos.x <= 65536,
                    -65536 <= pos.y <= 65536,
                    -65536 <= pos.z <= 65536,
                    0 <= z < 32,
                    0 <= x < 32,
                    0 <= y <= 32,
                    max_y == heights.spec_height(x as int, z as int),
                    forall|xi: int, yi: int, zi: int|
                        in_chunk(xi, yi, zi) && zi < z ==> chunk.spec_block(xi, yi, zi)
                            == spec_generated_block(pos, *heights, xi, yi, zi),
                    forall|xi: int, yi: int|
                        in_chunk(xi, yi, z as int) && xi < x ==> chunk.spec_block(xi, yi, z as int)
                            == spec_generated_block(pos, *heights, xi, yi, z as int),
                    forall|yi: int|
                        0 <= yi < y ==> chunk.spec_block(x as int, yi, z as int)
                            == spec_generated_block(pos, *heights, x as int, yi, z as int),
                decreases 32 - y,
            {
                let world_y = pos.y * 32 + y;
                let b = generate_block_at(
                    IVec3 { x: pos.x * 32 + x, y: world_y, z: pos.z * 32 + z },
                    max_y,
                );
                let ghost pre = chunk;
                chunk.set_block(IVec3 { x, y, z }, b);
                proof {
                    assert forall|xi: int, yi: int, zi: int|
                        in_chunk(xi, yi, zi) && !(xi == x && yi == y && zi == z)
                            implies chunk.spec_block(xi, yi, zi) == pre.spec_block(xi, yi, zi) by {
                        assert((xi, yi, zi) != (x as int, y as int, z as int));
                    }
                    assert forall|yi: int| 0 <= yi <= y implies chunk.spec_block(x as int, yi, z as int)
                        == spec_generated_block(pos, *heights, x as int, yi, z as int) by {
                        if yi == y {
                            assert(chunk.spec_block(x as int, y as int, z as int) == b);
                        } else {
                            assert(in_chunk(x as int, yi, z as int));
                            assert((x as int, yi, z as int) != (x as int, y as int, z as int));
                            assert(chunk.spec_block(x as int, yi, z as int) == pre.spec_block(
                                x as int,
                                yi,
                                z as int,
                            ));
                        }
                    }
                }
                y = y + 1;
            }
            x = x + 1;
        }
        z = z + 1;
    }
    chunk
}

} // verus!
