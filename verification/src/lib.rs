//! Core of a voxel world engine: deterministic terrain generation, chunk
//! storage, surface meshing with baked ambient occlusion, streaming around a
//! moving observer, voxel ray casting, and frustum culling.
//!
//! Everything here works on plain integer data; the floating-point edges
//! (noise sampling, camera matrices) live outside the library and hand in
//! column heights, fixed-point plane equations, and rational ray parameters.

use vstd::prelude::*;

pub mod block;
pub mod chunk;
pub mod frustum;
pub mod gen;
pub mod interaction;
pub mod mesher;
pub mod raycast;
pub mod store;
pub mod streamer;
pub mod tick;

verus! {

/// Edge length of a cubic chunk, in blocks.
pub const CHUNK_SIZE: i32 = 32;

/// Number of blocks in one chunk.
pub const CHUNK_VOLUME: usize = 32768;

/// World-space y of the sea surface; columns below it fill with water.
pub const SEA_LEVEL: i32 = 64;

} // verus!
