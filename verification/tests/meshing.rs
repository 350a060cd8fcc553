use ferriscraft::block::{Block, Direction, IVec3};
use ferriscraft::chunk::{Chunk, HeightMap};
use ferriscraft::gen::generate_block_at;
use ferriscraft::gen::generate_chunk;
use ferriscraft::interaction::place_block;
use ferriscraft::mesher::ChunkMesh;
use ferriscraft::store::ChunkStore;

/// World-space column height used by the meshing scenarios: gentle terrain
/// a little above sea level, so chunks at height index 2 (y 64..96) hold
/// both ground and air.
fn world_height(x: i64, z: i64) -> i32 {
    64 + ((x * 7 + z * 13).rem_euclid(20)) as i32
}

/// The padded height map of the chunk at `pos`, sampled from `world_height`.
fn height_map_for(pos: IVec3, h: fn(i64, i64) -> i32) -> HeightMap {
    let mut data = Vec::with_capacity(34 * 34);
    for lz in -1..=32i64 {
        for lx in -1..=32i64 {
            data.push(h(pos.x as i64 * 32 + lx, pos.z as i64 * 32 + lz));
        }
    }
    HeightMap::new(data)
}

fn flat_90(_x: i64, _z: i64) -> i32 {
    90
}

fn unpack(word: u32) -> (u32, u32, u32, u32, u32, u32) {
    (
        word & 0x3f,
        (word >> 6) & 0x3f,
        (word >> 12) & 0x3f,
        (word >> 18) & 0x7,
        (word >> 21) & 0x3,
        word >> 23,
    )
}

fn dir_of(id: u32) -> Direction {
    match id {
        0 => Direction::Left,
        1 => Direction::Right,
        2 => Direction::Bottom,
        3 => Direction::Top,
        4 => Direction::Back,
        _ => Direction::Front,
    }
}

fn block_id(b: Block) -> u32 {
    b.id()
}

/// Scenario: a single chunk at the origin column, no neighbors in the
/// store. The mesh is non-empty, vertex and index counts are consistent,
/// and every emitted face carries the block kind the terrain rule assigns
/// to its solid cell.
#[test]
fn single_chunk_mesh_at_origin() {
    let pos = IVec3::new(0, 2, 0);
    let hm = height_map_for(pos, world_height);
    let chunk = generate_chunk(pos, &hm);
    let store = ChunkStore::new();
    let mesh = ChunkMesh::build(&chunk, &store, &hm).expect("mesh should not be empty");

    assert!(!mesh.vertices.is_empty());
    assert_eq!(mesh.vertices.len() % 4, 0);
    assert_eq!(mesh.indices.len(), mesh.vertices.len() / 4 * 6);

    for face in mesh.vertices.chunks(4) {
        let (x0, y0, z0, d0, _, b0) = unpack(face[0]);
        // all four corners agree on orientation and block kind
        let mut mx = x0;
        let mut my = y0;
        let mut mz = z0;
        for w in face {
            let (x, y, z, d, _, b) = unpack(*w);
            assert_eq!(d, d0);
            assert_eq!(b, b0);
            mx = mx.min(x);
            my = my.min(y);
            mz = mz.min(z);
        }
        // the solid cell the face belongs to
        let dir = dir_of(d0);
        let (cx, cy, cz) = match dir {
            Direction::Left | Direction::Back | Direction::Bottom => {
                (mx as i32, my as i32, mz as i32)
            }
            Direction::Right => (mx as i32 - 1, my as i32, mz as i32),
            Direction::Top => (mx as i32, my as i32 - 1, mz as i32),
            Direction::Front => (mx as i32, my as i32, mz as i32 - 1),
        };
        let world = IVec3::new(cx, pos.y * 32 + cy, cz);
        let expected = generate_block_at(world, world_height(cx as i64, cz as i64));
        assert_eq!(b0, block_id(expected), "face block kind must follow the terrain rule");
        assert_ne!(b0, 0, "no face is emitted for air");
    }
}

/// Scenario: the seam between two independently built chunks. The right
/// chunk meshes identically whether its left neighbor sits in the store or
/// is regenerated from the height map, so seams cannot crack.
#[test]
fn seam_equality() {
    let left_pos = IVec3::new(0, 2, 0);
    let right_pos = IVec3::new(1, 2, 0);
    let left_hm = height_map_for(left_pos, world_height);
    let right_hm = height_map_for(right_pos, world_height);
    let left = generate_chunk(left_pos, &left_hm);
    let right = generate_chunk(right_pos, &right_hm);

    let empty = ChunkStore::new();
    let mesh_alone = ChunkMesh::build(&right, &empty, &right_hm).expect("non-empty");

    let mut store = ChunkStore::new();
    assert!(store.insert(left));
    let mesh_with_neighbor = ChunkMesh::build(&right, &store, &right_hm).expect("non-empty");

    assert_eq!(mesh_alone.vertices, mesh_with_neighbor.vertices);
    assert_eq!(mesh_alone.indices, mesh_with_neighbor.indices);
}

/// Scenario: break one buried block and remesh. The vertex count grows by
/// four per newly exposed neighbor face and shrinks by four per face the
/// removed block previously showed.
#[test]
fn break_and_remesh() {
    let pos = IVec3::new(0, 2, 0);
    let hm = height_map_for(pos, flat_90);
    let mut chunk = generate_chunk(pos, &hm);
    let store = ChunkStore::new();

    let v0 = ChunkMesh::build(&chunk, &store, &hm).expect("non-empty").vertices.len();

    // the target cell is buried: all six neighbors are solid, no face shows
    let target = IVec3::new(5, 5, 5);
    let neighbors = [
        IVec3::new(4, 5, 5),
        IVec3::new(6, 5, 5),
        IVec3::new(5, 4, 5),
        IVec3::new(5, 6, 5),
        IVec3::new(5, 5, 4),
        IVec3::new(5, 5, 6),
    ];
    let exposed_after = neighbors.iter().filter(|n| !chunk.block(**n).is_air()).count();
    assert_eq!(exposed_after, 6);
    assert!(!chunk.block(target).is_air());

    let remesh = place_block(&mut chunk, target, Block::Air);
    assert_eq!(remesh, vec![pos], "an interior edit only invalidates its own chunk");

    let v1 = ChunkMesh::build(&chunk, &store, &hm).expect("non-empty").vertices.len();
    assert_eq!(v1, v0 + 4 * exposed_after - 4 * 0);
}

/// An edit outside the chunk is rejected: no change, nothing to remesh.
#[test]
fn out_of_range_edit_rejected() {
    let pos = IVec3::new(0, 2, 0);
    let hm = height_map_for(pos, flat_90);
    let mut chunk = generate_chunk(pos, &hm);
    let before = chunk.block(IVec3::new(0, 0, 0));
    let remesh = place_block(&mut chunk, IVec3::new(-1, 5, 5), Block::Air);
    assert!(remesh.is_empty());
    assert_eq!(chunk.block(IVec3::new(0, 0, 0)), before);
}

/// A border edit invalidates the adjacent chunks too.
#[test]
fn border_edit_invalidates_neighbors() {
    let pos = IVec3::new(0, 2, 0);
    let hm = height_map_for(pos, flat_90);
    let mut chunk = generate_chunk(pos, &hm);
    let remesh = place_block(&mut chunk, IVec3::new(0, 5, 31), Block::Air);
    assert_eq!(
        remesh,
        vec![pos, IVec3::new(-1, 2, 0), IVec3::new(0, 2, 1)],
    );
}

/// Exact packed words: one lone stone block over generated air produces six
/// faces with the documented bit layout and zero occlusion.
#[test]
fn vertex_packing_exact() {
    // high above the sea, so the generated surroundings are pure air
    let pos = IVec3::new(0, 3, 0);
    let hm = height_map_for(pos, |_, _| 0);
    let mut chunk = Chunk::new(pos);
    chunk.set_block(IVec3::new(10, 10, 10), Block::Stone);
    let store = ChunkStore::new();
    let mesh = ChunkMesh::build(&chunk, &store, &hm).expect("non-empty");
    assert_eq!(mesh.vertices.len(), 24);
    assert_eq!(mesh.indices.len(), 36);

    let pack = |x: u32, y: u32, z: u32, dir: u32, ao: u32, block: u32| {
        x | y << 6 | z << 12 | dir << 18 | ao << 21 | block << 23
    };
    // the cell scan reaches the solid cell first: its left face leads
    let expected_left = [
        pack(10, 10, 10, 0, 0, 1),
        pack(10, 10, 11, 0, 0, 1),
        pack(10, 11, 11, 0, 0, 1),
        pack(10, 11, 10, 0, 0, 1),
    ];
    assert_eq!(&mesh.vertices[0..4], &expected_left);
    // index pattern: two triangles per face over its four vertices
    assert_eq!(&mesh.indices[0..6], &[0, 1, 2, 0, 2, 3]);
    assert_eq!(&mesh.indices[6..12], &[4, 5, 6, 4, 6, 7]);
}

/// Ambient occlusion darkens a corner when a neighbor block is added, and
/// clamps at the darkest level.
#[test]
fn ambient_occlusion_darkens() {
    let pos = IVec3::new(0, 3, 0);
    let hm = height_map_for(pos, |_, _| 0);
    let store = ChunkStore::new();

    let mut lone = Chunk::new(pos);
    lone.set_block(IVec3::new(10, 10, 10), Block::Stone);
    let mesh_lone = ChunkMesh::build(&lone, &store, &hm).expect("non-empty");

    let mut pair = Chunk::new(pos);
    pair.set_block(IVec3::new(10, 10, 10), Block::Stone);
    // a diagonal neighbor above the top face corner
    pair.set_block(IVec3::new(11, 11, 11), Block::Stone);
    let mesh_pair = ChunkMesh::build(&pair, &store, &hm).expect("non-empty");

    let ao_sum = |mesh: &ChunkMesh| -> u32 {
        mesh.vertices.iter().map(|w| (w >> 21) & 0x3).sum()
    };
    assert_eq!(ao_sum(&mesh_lone), 0);
    assert!(ao_sum(&mesh_pair) > 0, "the added voxel must occlude some corner");
}

/// Water fills the sea and is meshed like any non-air block, while staying
/// non-solid for picking.
#[test]
fn water_below_sea_level() {
    let b = generate_block_at(IVec3::new(0, 50, 0), 40);
    assert_eq!(b, Block::Water);
    assert!(!b.is_air());
    assert!(!b.is_solid());
}
