use ferriscraft::block::{index_to_vec3, vec3_to_index, Block, Direction, IVec3};
use ferriscraft::gen::generate_block_at;
use ferriscraft::interaction::place_target;
use ferriscraft::tick::fixed_steps;

/// The index/coordinate bijection round-trips over the whole chunk.
#[test]
fn index_bijection() {
    for i in 0..32768usize {
        let p = index_to_vec3(i);
        assert!(p.x >= 0 && p.x < 32 && p.y >= 0 && p.y < 32 && p.z >= 0 && p.z < 32);
        assert_eq!(vec3_to_index(p), i);
    }
    for x in 0..32 {
        for y in 0..32 {
            for z in 0..32 {
                let p = IVec3::new(x, y, z);
                assert_eq!(index_to_vec3(vec3_to_index(p)), p);
            }
        }
    }
}

/// The exact block-selection ladder of the terrain rule.
#[test]
fn block_selection_rule() {
    let at = |y: i32, max_y: i32| generate_block_at(IVec3::new(0, y, 0), max_y);
    assert_eq!(at(0, 100), Block::Bedrock);
    assert_eq!(at(99, 100), Block::Grass);
    assert_eq!(at(96, 100), Block::Dirt);
    assert_eq!(at(95, 100), Block::Stone);
    assert_eq!(at(150, 200), Block::Stone);
    assert_eq!(at(170, 200), Block::Snow);
    assert_eq!(at(50, 40), Block::Water);
    assert_eq!(at(70, 40), Block::Air);
    // the surface block of a column at the snow line is still snow
    assert_eq!(at(166, 167), Block::Snow);
}

/// The six unit normals, in packing order.
#[test]
fn direction_normals() {
    assert_eq!(Direction::Left.as_ivec3(), IVec3::new(-1, 0, 0));
    assert_eq!(Direction::Right.as_ivec3(), IVec3::new(1, 0, 0));
    assert_eq!(Direction::Bottom.as_ivec3(), IVec3::new(0, -1, 0));
    assert_eq!(Direction::Top.as_ivec3(), IVec3::new(0, 1, 0));
    assert_eq!(Direction::Back.as_ivec3(), IVec3::new(0, 0, -1));
    assert_eq!(Direction::Front.as_ivec3(), IVec3::new(0, 0, 1));
    assert_eq!(Direction::Left.index(), 0);
    assert_eq!(Direction::Front.index(), 5);
}

/// Air is the unique empty block; water is non-solid but not empty.
#[test]
fn block_predicates() {
    assert!(Block::Air.is_air());
    assert!(!Block::Air.is_solid());
    assert!(!Block::Water.is_air());
    assert!(!Block::Water.is_solid());
    assert!(Block::Stone.is_solid());
    assert!(!Block::Stone.is_air());
}

/// Placing against a face inside the chunk stays in the chunk; placing
/// across an edge wraps the local cell and shifts the chunk coordinate.
#[test]
fn place_target_wraps() {
    let cp = IVec3::new(4, 2, -1);

    let (c, l) = place_target(cp, IVec3::new(10, 10, 10), Direction::Top);
    assert_eq!(c, cp);
    assert_eq!(l, IVec3::new(10, 11, 10));

    let (c, l) = place_target(cp, IVec3::new(31, 10, 10), Direction::Right);
    assert_eq!(c, IVec3::new(5, 2, -1));
    assert_eq!(l, IVec3::new(0, 10, 10));

    let (c, l) = place_target(cp, IVec3::new(0, 10, 10), Direction::Left);
    assert_eq!(c, IVec3::new(3, 2, -1));
    assert_eq!(l, IVec3::new(31, 10, 10));

    let (c, l) = place_target(cp, IVec3::new(10, 0, 10), Direction::Bottom);
    assert_eq!(c, IVec3::new(4, 1, -1));
    assert_eq!(l, IVec3::new(10, 31, 10));

    let (c, l) = place_target(cp, IVec3::new(10, 10, 31), Direction::Front);
    assert_eq!(c, IVec3::new(4, 2, 0));
    assert_eq!(l, IVec3::new(10, 10, 0));
}

/// The fixed-step accumulator: whole steps come out, the remainder stays.
#[test]
fn fixed_step_accumulator() {
    // one second against a 64 Hz step
    assert_eq!(fixed_steps(1_000_000_000, 15_625_000), (64, 0));
    // a frame shorter than one step pays for nothing
    assert_eq!(fixed_steps(10_000_000, 15_625_000), (0, 10_000_000));
    // time is conserved
    let (steps, rem) = fixed_steps(100_000_000, 15_625_000);
    assert_eq!(steps * 15_625_000 + rem, 100_000_000);
}
