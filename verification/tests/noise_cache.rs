use forgia::noise_cache::{cached_perlin, PerlinCache};
use noise::{NoiseFn, Seedable};

#[test]
fn cached_perlin_is_stable_for_same_seed() {
    let mut cache = PerlinCache::new();
    let p1 = cached_perlin(&mut cache, 42);
    let p2 = cached_perlin(&mut cache, 42);
    assert_eq!(p1.get([0.1, 0.2]), p2.get([0.1, 0.2]));
    assert_eq!(p1.get([1.5, 3.7]), p2.get([1.5, 3.7]));
}

#[test]
fn cached_perlin_rebuilds_on_seed_change() {
    let mut cache = PerlinCache::new();
    let p1 = cached_perlin(&mut cache, 42);
    let p2 = cached_perlin(&mut cache, 100);
    assert_ne!(p1.get([0.1, 0.2]), p2.get([0.1, 0.2]));
    assert_eq!(cache.seed(), 100);
    assert_eq!(p2.seed(), 100);
    assert_eq!(cached_perlin(&mut cache, 42).seed(), 42);
}

#[test]
fn cached_perlin_matches_a_fresh_generator_of_the_seed() {
    let mut cache = PerlinCache::new();
    assert_eq!(cache.seed(), 0);
    for seed in [0u32, 7, 7, 123_456, 0] {
        let p = cached_perlin(&mut cache, seed);
        let fresh = noise::Perlin::new(seed);
        assert_eq!(p.get([0.3, 0.9]), fresh.get([0.3, 0.9]));
        assert_eq!(p.get([-4.25, 17.5]), fresh.get([-4.25, 17.5]));
        assert_eq!(cache.seed(), seed);
    }
}
