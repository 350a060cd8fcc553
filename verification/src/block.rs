//! Block kinds, face orientations, and the index/coordinate bijection.

use vstd::prelude::*;

verus! {

/// A signed integer 3-vector: chunk coordinates, block coordinates, normals.
#[derive(Clone, Copy, PartialEq, Eq, Structural, Debug)]
pub struct IVec3 {
    pub x: i32,
    pub y: i32,
    pub z: i32,
}

impl IVec3 {
    pub fn new(x: i32, y: i32, z: i32) -> (v: IVec3)
        ensures
            v == (IVec3 { x, y, z }),
    {
        IVec3 { x, y, z }
    }
}

/// The closed set of block kinds. `Air` is the unique empty value.
#[derive(Clone, Copy, PartialEq, Eq, Structural, Debug)]
pub enum Block {
    Air,
    Stone,
    Dirt,
    Grass,
    Plank,
    Bedrock,
    Water,
    Sand,
    Wood,
    Leaf,
    Snow,
}

/// The six face orientations, in the fixed order exposed as 0..6.
#[derive(Clone, Copy, PartialEq, Eq, Structural, Debug)]
pub enum Direction {
    Left,
    Right,
    Bottom,
    Top,
    Back,
    Front,
}

impl Block {
    /// The numeric tag packed into mesh vertices, following declaration order.
    pub open spec fn spec_id(self) -> u32 {
        match self {
            Block::Air => 0,
            Block::Stone => 1,
            Block::Dirt => 2,
            Block::Grass => 3,
            Block::Plank => 4,
            Block::Bedrock => 5,
            Block::Water => 6,
            Block::Sand => 7,
            Block::Wood => 8,
            Block::Leaf => 9,
            Block::Snow => 10,
        }
    }

    #[verifier::when_used_as_spec(spec_id)]
    pub fn id(self) -> (r: u32)
        ensures
            r == self.spec_id(),
            r <= 10,
    {
        match self {
            Block::Air => 0,
            Block::Stone => 1,
            Block::Dirt => 2,
            Block::Grass => 3,
            Block::Plank => 4,
            Block::Bedrock => 5,
            Block::Water => 6,
            Block::Sand => 7,
            Block::Wood => 8,
            Block::Leaf => 9,
            Block::Snow => 10,
        }
    }

    pub open spec fn spec_is_air(&self) -> bool {
        self is Air
    }

    /// Meshing emits a face exactly where an air cell meets a non-air cell.
    #[verifier::when_used_as_spec(spec_is_air)]
    pub fn is_air(&self) -> (r: bool)
        ensures
            r == self.spec_is_air(),
    {
        matches!(self, Block::Air)
    }

    pub open spec fn spec_is_solid(&self) -> bool {
        !(self is Air || self is Water)
    }

    /// Ray casting stops on solid blocks: everything except air and water.
    #[verifier::when_used_as_spec(spec_is_solid)]
    pub fn is_solid(&self) -> (r: bool)
        ensures
            r == self.spec_is_solid(),
    {
        !matches!(self, Block::Air | Block::Water)
    }
}

impl Direction {
    /// The numeric tag packed into mesh vertices, following declaration order.
    pub open spec fn spec_index(self) -> u32 {
        match self {
            Direction::Left => 0,
            Direction::Right => 1,
            Direction::Bottom => 2,
            Direction::Top => 3,
            Direction::Back => 4,
            Direction::Front => 5,
        }
    }

    #[verifier::when_used_as_spec(spec_index)]
    pub fn index(self) -> (r: u32)
        ensures
            r == self.spec_index(),
            r <= 5,
    {
        match self {
            Direction::Left => 0,
            Direction::Right => 1,
            Direction::Bottom => 2,
            Direction::Top => 3,
            Direction::Back => 4,
            Direction::Front => 5,
        }
    }

    /// The unit integer normal of each orientation.
    pub open spec fn spec_normal(self) -> IVec3 {
        match self {
            Direction::Left => IVec3 { x: -1i32, y: 0, z: 0 },
            Direction::Right => IVec3 { x: 1, y: 0, z: 0 },
            Direction::Bottom => IVec3 { x: 0, y: -1i32, z: 0 },
            Direction::Top => IVec3 { x: 0, y: 1, z: 0 },
            Direction::Back => IVec3 { x: 0, y: 0, z: -1i32 },
            Direction::Front => IVec3 { x: 0, y: 0, z: 1 },
        }
    }

    #[verifier::when_used_as_spec(spec_normal)]
    pub fn as_ivec3(self) -> (n: IVec3)
        ensures
            n == self.spec_normal(),
    {
        match self {
            Direction::Left => IVec3 { x: -1, y: 0, z: 0 },
            Direction::Right => IVec3 { x: 1, y: 0, z: 0 },
            Direction::Bottom => IVec3 { x: 0, y: -1, z: 0 },
            Direction::Top => IVec3 { x: 0, y: 1, z: 0 },
            Direction::Back => IVec3 { x: 0, y: 0, z: -1 },
            Direction::Front => IVec3 { x: 0, y: 0, z: 1 },
        }
    }
}

/// The fixed flat-index bijection: `idx(x, y, z) = x + y*S + z*S*S`.
pub open spec fn spec_block_index(x: int, y: int, z: int) -> int {
    x + y * 32 + z * 1024
}

/// Whether a local block position lies inside a chunk.
pub open spec fn in_chunk(x: int, y: int, z: int) -> bool {
    0 <= x < 32 && 0 <= y < 32 && 0 <= z < 32
}

/// Flat index of an in-chunk position.
pub fn vec3_to_index(pos: IVec3) -> (i: usize)
    requires
        in_chunk(pos.x as int, pos.y as int, pos.z as int),
    ensures
        i == spec_block_index(pos.x as int, pos.y as int, pos.z as int),
        i < 32768,
{
    (pos.x + pos.y * 32 + pos.z * 1024) as usize
}

/// Inverse of `vec3_to_index`.
pub fn index_to_vec3(index: usize) -> (pos: IVec3)
    requires
        index < 32768,
    ensures
        in_chunk(pos.x as int, pos.y as int, pos.z as int),
        pos.x == index as int % 32,
        pos.y == (index as int / 32) % 32,
        pos.z == index as int / 1024,
        spec_block_index(pos.x as int, pos.y as int, pos.z as int) == index,
{
    let x = (index % 32) as i32;
    let y = ((index / 32) % 32) as i32;
    let z = (index / 1024) as i32;
    proof {
        lemma_index_to_vec3(index as int);
    }
    IVec3 { x, y, z }
}

proof fn lemma_index_to_vec3(i: int)
    by (nonlinear_arith)
    requires
        0 <= i < 32768,
    ensures
        spec_block_index(i % 32, (i / 32) % 32, i / 1024) == i,
        0 <= i % 32 < 32,
        0 <= (i / 32) % 32 < 32,
        0 <= i / 1024 < 32,
{
}

/// The index/coordinate bijection, coordinate side: decoding the index of an
/// in-chunk position yields the position back.
pub proof fn lemma_index_bijection(x: int, y: int, z: int)
    by (nonlinear_arith)
    requires
        in_chunk(x, y, z),
    ensures
        spec_block_index(x, y, z) % 32 == x,
        (spec_block_index(x, y, z) / 32) % 32 == y,
        spec_block_index(x, y, z) / 1024 == z,
        0 <= spec_block_index(x, y, z) < 32768,
{
}

/// The index/coordinate bijection, index side: encoding the decoded
/// coordinates of any index in range yields the index back.
pub proof fn lemma_index_roundtrip(i: int)
    requires
        0 <= i < 32768,
    ensures
        spec_block_index(i % 32, (i / 32) % 32, i / 1024) == i,
{
    lemma_index_to_vec3(i);
}

} // verus!
