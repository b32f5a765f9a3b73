use forgia::hashes::{cell_hash, cluster_tree_hash, fnv1a, hash_u32, tile_hash, FNV_OFFSET};

#[test]
fn cell_hash_is_deterministic() {
    let h1 = cell_hash(10, -5, 42);
    let h2 = cell_hash(10, -5, 42);
    assert_eq!(h1, h2);
    let h3 = cell_hash(10, -5, 43);
    assert_ne!(h1, h3, "different seed must change hash");
}

fn cell_hash_reference(x: i32, z: i32, seed: u32) -> u32 {
    let mut h = (x as u32).wrapping_mul(73856093) ^ (z as u32).wrapping_mul(19349663) ^ seed.wrapping_mul(83492791);
    h = h.wrapping_mul(h.wrapping_shr(16) | 1);
    h ^= h.wrapping_shr(15);
    h
}

#[test]
fn cell_hash_exact_values() {
    assert_eq!(cell_hash(0, 0, 0), 0);
    for (x, z, s) in [(1, 2, 3), (-7, 11, 99), (i32::MAX, i32::MIN, u32::MAX)] {
        assert_eq!(cell_hash(x, z, s), cell_hash_reference(x, z, s));
    }
}

#[test]
fn tile_hash_exact_values() {
    assert_eq!(tile_hash(0, 0), 0);
    let mut h = 1u32.wrapping_mul(0x9E37_79B1) ^ 2u32.wrapping_mul(0x85EB_CA6B);
    h ^= h >> 15;
    h = h.wrapping_mul(0xC2B2_AE35);
    h ^= h >> 13;
    assert_eq!(tile_hash(1, 2), h);
    assert_ne!(tile_hash(1, 2), tile_hash(2, 1));
}

#[test]
fn cluster_tree_hash_exact_values() {
    assert_eq!(cluster_tree_hash((0, 0), 0), 0);
    let mut h = 3u32.wrapping_mul(0x9E37_79B1);
    h = h.wrapping_add((-4i32 as u32).wrapping_mul(0x85EB_CA6B));
    h = h.wrapping_add(5u32.wrapping_mul(0xC2B2_AE3D));
    h ^= h >> 16;
    assert_eq!(cluster_tree_hash((3, -4), 5), h.wrapping_mul(0x27D4_EB2F));
}

#[test]
fn hash_u32_exact_values() {
    let mut x = 7u32 ^ 0x9e37_79b9;
    x = x.wrapping_add(x << 6);
    x ^= x >> 11;
    x = x.wrapping_add(x << 8);
    assert_eq!(hash_u32(7), x);
    assert_ne!(hash_u32(7), hash_u32(8));
}

#[test]
fn fnv1a_known_vectors() {
    // Published FNV-1a 64 test vectors.
    assert_eq!(fnv1a(b"", FNV_OFFSET), 0xcbf2_9ce4_8422_2325);
    assert_eq!(fnv1a(b"a", FNV_OFFSET), 0xaf63_dc4c_8601_ec8c);
    assert_eq!(fnv1a(b"foobar", FNV_OFFSET), 0x8594_4171_f739_67e8);
}

#[test]
fn fnv1a_chains_like_concatenation() {
    let h1 = fnv1a(b"foo", FNV_OFFSET);
    assert_eq!(fnv1a(b"bar", h1), fnv1a(b"foobar", FNV_OFFSET));
}
