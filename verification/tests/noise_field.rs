use noise::{Fbm, MultiFractal, NoiseFn, Simplex};

fn terrain_fbm(seed: u32) -> Fbm<Simplex> {
    Fbm::<Simplex>::new(seed)
        .set_frequency(0.002)
        .set_persistence(0.5)
        .set_octaves(4)
        .set_lacunarity(2.0)
}

fn biome_fbm(seed: u32) -> Fbm<Simplex> {
    Fbm::<Simplex>::new(seed + 1)
        .set_frequency(0.0001)
        .set_persistence(0.6)
        .set_octaves(3)
        .set_lacunarity(2.0)
}

/// The noise field is referentially transparent: two independently built
/// generators with the same seed return bit-identical values for the same
/// world column, which is what keeps chunk seams identical. The library's
/// height maps rely on this when the apron of one chunk re-samples columns
/// owned by its neighbor.
#[test]
fn noise_determinism() {
    let seed = 1337;
    let a_terrain = terrain_fbm(seed);
    let b_terrain = terrain_fbm(seed);
    let a_biome = biome_fbm(seed);
    let b_biome = biome_fbm(seed);
    for i in 0..200i32 {
        let x = (i * 37 - 2000) as f64;
        let z = (i * 91 - 7000) as f64;
        let ta = a_terrain.get([x, z]);
        let tb = b_terrain.get([x, z]);
        assert_eq!(ta.to_bits(), tb.to_bits());
        let ba = a_biome.get([x, z]);
        let bb = b_biome.get([x, z]);
        assert_eq!(ba.to_bits(), bb.to_bits());
        assert!((-1.0..=1.0).contains(&ta));
        assert!((-1.0..=1.0).contains(&ba));
    }
}

/// Different seeds give different terrain somewhere: the seed is not dead.
#[test]
fn noise_seed_matters() {
    let a = terrain_fbm(1337);
    let b = terrain_fbm(7331);
    let mut differs = false;
    for i in 0..64i32 {
        let x = (i * 53) as f64;
        if a.get([x, 0.0]).to_bits() != b.get([x, 0.0]).to_bits() {
            differs = true;
            break;
        }
    }
    assert!(differs);
}
