use ferriscraft::block::IVec3;
use ferriscraft::chunk::HeightMap;
use ferriscraft::gen::generate_chunk;
use ferriscraft::store::ChunkStore;
use ferriscraft::streamer::{handle_chunk_despawn, handle_chunk_gen, process_tasks};

fn flat_map(h: i32) -> HeightMap {
    HeightMap::new(vec![h; 34 * 34])
}

/// Scenario: one spawn tick around an observer at chunk (0, 2, 0) with
/// render distance 8. The spawn region is a 16 x 16 square of columns with
/// the vertical range clamped at zero: ten layers, 2560 chunks, every one
/// claimed exactly once.
#[test]
fn streaming_bounds() {
    let mut store = ChunkStore::new();
    let pc = IVec3::new(0, 2, 0);
    let spawn = handle_chunk_gen(&mut store, pc, 8);
    assert_eq!(spawn.len(), 16 * 16 * 10);
    assert!(spawn.len() >= 1);
    assert!(spawn.len() <= 16 * 16 * 10);
    for p in &spawn {
        assert!(p.y >= 0);
        assert!((pc.x - 8..pc.x + 8).contains(&p.x));
        assert!((pc.z - 8..pc.z + 8).contains(&p.z));
        assert!(p.y < pc.y + 8);
        assert!(store.is_loading(*p));
    }
}

/// Running the streamer twice with the same observer position spawns
/// nothing new and despawns nothing.
#[test]
fn streamer_idempotence() {
    let mut store = ChunkStore::new();
    let pc = IVec3::new(3, 1, -2);
    let first = handle_chunk_gen(&mut store, pc, 2);
    assert!(!first.is_empty());
    let second = handle_chunk_gen(&mut store, pc, 2);
    assert!(second.is_empty());

    let removed_first = handle_chunk_despawn(&mut store, pc, 2);
    assert!(removed_first.is_empty(), "everything spawned lies inside the keep region");
    let removed_second = handle_chunk_despawn(&mut store, pc, 2);
    assert!(removed_second.is_empty());
}

/// Scenario: after the observer moves far away, one despawn tick leaves no
/// store entry and no loading bit for the old chunks.
#[test]
fn eviction_completeness() {
    let mut store = ChunkStore::new();
    let home = IVec3::new(0, 2, 0);
    let spawn = handle_chunk_gen(&mut store, home, 2);
    // complete one build so both loaded and loading coords exist
    let hm = flat_map(70);
    let built = generate_chunk(spawn[0], &hm);
    assert!(store.insert(built));
    assert!(store.contains(spawn[0]));

    let far = IVec3::new(1000, 2, 1000);
    let removed = handle_chunk_despawn(&mut store, far, 8);
    assert_eq!(removed.len(), spawn.len());
    for p in &spawn {
        assert!(!store.contains(*p));
        assert!(!store.is_loading(*p));
    }
}

/// Completed builds are accepted nearest-first and the per-tick cap is
/// honored; a later tick accepts the rest.
#[test]
fn process_tasks_bounded_and_sorted() {
    let mut store = ChunkStore::new();
    let hm = flat_map(70);
    let near = generate_chunk(IVec3::new(1, 0, 0), &hm);
    let mid = generate_chunk(IVec3::new(5, 0, 0), &hm);
    let far = generate_chunk(IVec3::new(11, 0, 0), &hm);
    let pc = IVec3::new(0, 0, 0);

    let accepted = process_tasks(&mut store, vec![far, near, mid], pc, 2);
    assert_eq!(
        accepted,
        vec![IVec3::new(1, 0, 0), IVec3::new(5, 0, 0)],
        "the two nearest builds land first"
    );
    assert!(store.contains(IVec3::new(1, 0, 0)));
    assert!(store.contains(IVec3::new(5, 0, 0)));
    assert!(!store.contains(IVec3::new(11, 0, 0)));
}

/// A build whose coordinate was already loaded (a superseded task) is
/// dropped silently.
#[test]
fn process_tasks_drops_superseded() {
    let mut store = ChunkStore::new();
    let hm = flat_map(70);
    let pc = IVec3::new(0, 0, 0);
    let first = generate_chunk(IVec3::new(1, 0, 0), &hm);
    let duplicate = generate_chunk(IVec3::new(1, 0, 0), &hm);
    assert!(store.insert(first));
    let accepted = process_tasks(&mut store, vec![duplicate], pc, 10);
    assert!(accepted.is_empty());
}

/// The loading bit protocol: only the first claim wins, insertion clears
/// the bit, eviction clears both.
#[test]
fn loading_set_protocol() {
    let mut store = ChunkStore::new();
    let p = IVec3::new(4, 1, -3);
    assert!(store.mark_loading(p));
    assert!(!store.mark_loading(p), "the build is already owned");
    assert!(store.is_loading(p));
    assert!(!store.contains(p));

    let hm = flat_map(70);
    let chunk = generate_chunk(p, &hm);
    assert!(store.insert(chunk));
    assert!(store.contains(p));
    assert!(!store.is_loading(p), "insertion clears the loading bit");

    let hm2 = flat_map(70);
    let again = generate_chunk(p, &hm2);
    assert!(!store.insert(again), "a double insert is refused");

    store.remove(p);
    assert!(!store.contains(p));
    assert!(!store.is_loading(p));
}

/// Writes go through the store only for loaded chunks, and an out-of-range
/// cell is rejected without any change.
#[test]
fn set_block_requires_loaded() {
    let mut store = ChunkStore::new();
    let p = IVec3::new(0, 0, 0);
    let local = IVec3::new(1, 2, 3);
    assert!(!store.set_block_at(p, local, ferriscraft::block::Block::Plank));
    let hm = flat_map(70);
    assert!(store.insert(generate_chunk(p, &hm)));
    assert!(store.set_block_at(p, local, ferriscraft::block::Block::Plank));
    let c = store.get(p).unwrap();
    assert_eq!(c.block(local), ferriscraft::block::Block::Plank);

    let before = c.block(IVec3::new(0, 0, 0));
    assert!(!store.set_block_at(p, IVec3::new(32, 0, 0), ferriscraft::block::Block::Sand));
    assert!(!store.set_block_at(p, IVec3::new(0, -1, 0), ferriscraft::block::Block::Sand));
    assert_eq!(store.get(p).unwrap().block(IVec3::new(0, 0, 0)), before);
}
