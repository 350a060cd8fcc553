use ferriscraft::block::{Block, Direction, IVec3};
use ferriscraft::chunk::HeightMap;
use ferriscraft::gen::generate_chunk;
use ferriscraft::raycast::ray_cast;
use ferriscraft::store::ChunkStore;

fn height_map(pos: IVec3, h: fn(i64, i64) -> i32) -> HeightMap {
    let mut data = Vec::with_capacity(34 * 34);
    for lz in -1..=32i64 {
        for lx in -1..=32i64 {
            data.push(h(pos.x as i64 * 32 + lx, pos.z as i64 * 32 + lz));
        }
    }
    HeightMap::new(data)
}

/// Terrain for the boundary cast: the left chunk's columns stay at sea
/// level (air at y 80), the right chunk's tower up to 96.
fn step_height(x: i64, _z: i64) -> i32 {
    if x < 32 {
        64
    } else {
        96
    }
}

/// Scenario: a ray cast through a chunk boundary. From (31.5, 80, 16)
/// along +x with reach 4, the first solid block starts the right chunk:
/// the hit names the right chunk, local x 0, and the Left face, and the
/// entry parameter is exactly one half.
#[test]
fn ray_cast_through_boundary() {
    let mut store = ChunkStore::new();
    let left_pos = IVec3::new(0, 2, 0);
    let right_pos = IVec3::new(1, 2, 0);
    assert!(store.insert(generate_chunk(left_pos, &height_map(left_pos, step_height))));
    assert!(store.insert(generate_chunk(right_pos, &height_map(right_pos, step_height))));

    // origin (31.5, 80, 16) and direction (1, 0, 0), both over scale 2
    let hit = ray_cast(&store, [63, 160, 32], [2, 0, 0], 2, 4, 1).expect("the wall is in reach");
    assert_eq!(hit.chunk_pos, right_pos);
    assert_eq!(hit.local_pos.x, 0);
    assert_eq!(hit.global_position, IVec3::new(32, 80, 16));
    assert_eq!(hit.normal, Direction::Left);
    assert_eq!(hit.block, Block::Stone);
    // t = (32 - 31.5) / 1 = 1/2, exactly
    assert_eq!((hit.distance_num, hit.distance_den), (1, 2));
    // the cell in front of the hit face is empty
    let n = hit.normal.as_ivec3();
    let prev = IVec3::new(
        hit.global_position.x + n.x,
        hit.global_position.y + n.y,
        hit.global_position.z + n.z,
    );
    let c = store.get(IVec3::new(prev.x.div_euclid(32), prev.y.div_euclid(32), prev.z.div_euclid(32))).unwrap();
    let local = IVec3::new(prev.x.rem_euclid(32), prev.y.rem_euclid(32), prev.z.rem_euclid(32));
    assert!(!c.block(local).is_solid());
}

/// A ray pointing straight down hits the ground under the observer, through
/// the Top face.
#[test]
fn ray_cast_straight_down() {
    let mut store = ChunkStore::new();
    let pos = IVec3::new(0, 2, 0);
    assert!(store.insert(generate_chunk(pos, &height_map(pos, |_, _| 80))));

    // origin (10.5, 90.5, 10.5), direction (0, -1, 0), reach 16
    let hit = ray_cast(&store, [21, 181, 21], [0, -2, 0], 2, 16, 1).expect("ground in reach");
    assert_eq!(hit.global_position, IVec3::new(10, 79, 10));
    assert_eq!(hit.normal, Direction::Top);
    assert_eq!(hit.block, Block::Grass);
    // t = 90.5 - 80 = 10.5 = 21/2
    assert_eq!((hit.distance_num, hit.distance_den), (21, 2));
}

/// Out of reach: the same ground, but the reach ends above it.
#[test]
fn ray_cast_out_of_reach() {
    let mut store = ChunkStore::new();
    let pos = IVec3::new(0, 2, 0);
    assert!(store.insert(generate_chunk(pos, &height_map(pos, |_, _| 80))));
    assert!(ray_cast(&store, [21, 181, 21], [0, -2, 0], 2, 5, 1).is_none());
}

/// Water is not solid: the cast passes through a flooded column and stops
/// only at the sea floor.
#[test]
fn ray_cast_passes_water() {
    let mut store = ChunkStore::new();
    let pos = IVec3::new(0, 1, 0);  // spans y 32..64: water above height 40
    assert!(store.insert(generate_chunk(pos, &height_map(pos, |_, _| 40))));
    let hit = ray_cast(&store, [10, 120, 10], [0, -2, 0], 2, 32, 1).expect("sea floor in reach");
    assert_eq!(hit.global_position.y, 39);
    assert_eq!(hit.block, Block::Grass);
}

/// An empty store, or a zero direction, yields no hit.
#[test]
fn ray_cast_misses() {
    let store = ChunkStore::new();
    assert!(ray_cast(&store, [0, 100, 0], [2, 0, 0], 2, 8, 1).is_none());
    assert!(ray_cast(&store, [0, 100, 0], [0, 0, 0], 2, 8, 1).is_none());
}
