//! Stateless integer hashes used to scatter terrain features, floor tiles and
//! distant props reproducibly, and the FNV-1a hash behind content cache keys.

use vstd::prelude::*;

verus! {

/// Hash of a cellular-noise cell `(x, z)` under `seed`.
pub open spec fn cell_hash_spec(x: i32, z: i32, seed: u32) -> u32 {
    let h0 = vstd::wrapping::u32_specs::wrapping_mul(x as u32, 73856093)
        ^ vstd::wrapping::u32_specs::wrapping_mul(z as u32, 19349663)
        ^ vstd::wrapping::u32_specs::wrapping_mul(seed, 83492791);
    let h1 = vstd::wrapping::u32_specs::wrapping_mul(h0, vstd::wrapping::u32_specs::wrapping_shr(h0, 16) | 1);
    h1 ^ vstd::wrapping::u32_specs::wrapping_shr(h1, 15)
}

/// Deterministic hash for the centres of cellular-noise cells.
pub fn cell_hash(x: i32, z: i32, seed: u32) -> (h: u32)
    ensures
        h == cell_hash_spec(x, z, seed),
{
    let mut h = (x as u32).wrapping_mul(73856093) ^ (z as u32).wrapping_mul(19349663)
        ^ seed.wrapping_mul(83492791);
    h = h.wrapping_mul(h.wrapping_shr(16) | 1);
    h ^= h.wrapping_shr(15);
    h
}

/// Hash of floor tile `(tx, tz)`.
pub open spec fn tile_hash_spec(tx: i32, tz: i32) -> u32 {
    let h0 = vstd::wrapping::u32_specs::wrapping_mul(tx as u32, 0x9E37_79B1)
        ^ vstd::wrapping::u32_specs::wrapping_mul(tz as u32, 0x85EB_CA6B);
    let h1 = h0 ^ (h0 >> 15u32);
    let h2 = vstd::wrapping::u32_specs::wrapping_mul(h1, 0xC2B2_AE35);
    h2 ^ (h2 >> 13u32)
}

/// Stable integer hash of a floor-grid tile (no RNG state): picks the tile
/// variant without the diagonal stripes of a `(tx + tz) % 3` pattern.
pub fn tile_hash(tx: i32, tz: i32) -> (h: u32)
    ensures
        h == tile_hash_spec(tx, tz),
{
    let mut h = (tx as u32).wrapping_mul(0x9E37_79B1) ^ (tz as u32).wrapping_mul(0x85EB_CA6B);
    h ^= h >> 15;
    h = h.wrapping_mul(0xC2B2_AE35);
    h ^= h >> 13;
    h
}

/// Hash of `(cluster, idx)` used to scatter distant trees and rocks.
pub open spec fn cluster_tree_hash_spec(kx: i32, kz: i32, idx: u32) -> u32 {
    let h0 = vstd::wrapping::u32_specs::wrapping_mul(kx as u32, 0x9E37_79B1);
    let h1 = vstd::wrapping::u32_specs::wrapping_add(h0, vstd::wrapping::u32_specs::wrapping_mul(kz as u32, 0x85EB_CA6B));
    let h2 = vstd::wrapping::u32_specs::wrapping_add(h1, vstd::wrapping::u32_specs::wrapping_mul(idx, 0xC2B2_AE3D));
    let h3 = h2 ^ (h2 >> 16u32);
    vstd::wrapping::u32_specs::wrapping_mul(h3, 0x27D4_EB2F)
}

/// Deterministic hash of a far-LOD cluster key and a prop index, for
/// scattering props reproducibly per seed.
pub fn cluster_tree_hash(key: (i32, i32), idx: u32) -> (h: u32)
    ensures
        h == cluster_tree_hash_spec(key.0, key.1, idx),
{
    let x = key.0 as u32;
    let z = key.1 as u32;
    let mut h = x.wrapping_mul(0x9E37_79B1);
    h = h.wrapping_add(z.wrapping_mul(0x85EB_CA6B));
    h = h.wrapping_add(idx.wrapping_mul(0xC2B2_AE3D));
    h ^= h >> 16;
    h.wrapping_mul(0x27D4_EB2F)
}

/// The island-shape hash of `x`.
pub open spec fn hash_u32_spec(x: u32) -> u32 {
    let x1 = x ^ 0x9e37_79b9u32;
    let x2 = vstd::wrapping::u32_specs::wrapping_add(x1, vstd::wrapping::u32_specs::wrapping_shl(x1, 6));
    let x3 = x2 ^ (x2 >> 11u32);
    vstd::wrapping::u32_specs::wrapping_add(x3, vstd::wrapping::u32_specs::wrapping_shl(x3, 8))
}

/// Integer hash used to derive the island shape's random offsets from a seed.
pub fn hash_u32(x: u32) -> (h: u32)
    ensures
        h == hash_u32_spec(x),
{
    let mut x = x ^ 0x9e37_79b9;
    x = x.wrapping_add(x.wrapping_shl(6));
    x ^= x >> 11;
    x = x.wrapping_add(x.wrapping_shl(8));
    x
}

/// The 64-bit FNV-1a prime.
pub const FNV_PRIME: u64 = 0x0000_0100_0000_01B3;

/// The 64-bit FNV-1a offset basis.
pub const FNV_OFFSET: u64 = 0xCBF2_9CE4_8422_2325;

/// FNV-1a over `bytes`, continuing from `h`.
pub open spec fn fnv1a_spec(bytes: Seq<u8>, h: u64) -> u64
    decreases bytes.len(),
{
    if bytes.len() == 0 {
        h
    } else {
        let h1 = fnv1a_spec(bytes.drop_last(), h);
        vstd::wrapping::u64_specs::wrapping_mul(h1 ^ (bytes.last() as u64), FNV_PRIME)
    }
}

/// FNV-1a (64 bits), stable across runs, continuing from `h`: hashing two
/// slices in turn equals hashing their concatenation.
pub fn fnv1a(bytes: &[u8], h: u64) -> (r: u64)
    ensures
        r == fnv1a_spec(bytes@, h),
{
    let mut h = h;
    let ghost h0 = h;
    let mut i: usize = 0;
    while i < bytes.len()
        invariant
            i <= bytes@.len(),
            h == fnv1a_spec(bytes@.take(i as int), h0),
        decreases bytes@.len() - i,
    {
        assert(bytes@.take(i as int + 1).drop_last() =~= bytes@.take(i as int));
        h ^= bytes[i] as u64;
        h = h.wrapping_mul(FNV_PRIME);
        i += 1;
    }
    assert(bytes@.take(bytes@.len() as int) =~= bytes@);
    h
}

/// Hashing `a` then `b` is hashing `a + b`.
pub proof fn lemma_fnv1a_concat(a: Seq<u8>, b: Seq<u8>, h: u64)
    ensures
        fnv1a_spec(b, fnv1a_spec(a, h)) == fnv1a_spec(a + b, h),
    decreases b.len(),
{
    if b.len() == 0 {
        assert(a + b =~= a);
    } else {
        lemma_fnv1a_concat(a, b.drop_last(), h);
        assert((a + b).drop_last() =~= a + b.drop_last());
    }
}

} // verus!
