//! Chunk bookkeeping for the voxel terrain: chunk coordinates, the layout of a
//! padded chunk volume, LOD levels, and the bounded cache of unloaded chunks.

use vstd::prelude::*;
use std::collections::HashMap;
use std::collections::VecDeque;

verus! {

pub const CHUNK_X: u32 = 32;
pub const CHUNK_Y: u32 = 128;
pub const CHUNK_Z: u32 = 32;
pub const PAD_X: u32 = 34;
pub const PAD_Y: u32 = 130;
pub const PAD_Z: u32 = 34;
/// Number of samples in a padded chunk volume.
pub const PADDED_TOTAL: usize = 150280;
/// Number of columns of a chunk.
pub const COLUMNS: usize = 1024;

/// Coordinates of a chunk on the XZ grid.
#[derive(Debug, Clone, Copy, PartialEq, Eq, Hash, Structural)]
pub struct ChunkCoord {
    pub x: i32,
    pub z: i32,
}

/// Absolute value in `int`.
pub open spec fn abs_int(v: int) -> int {
    if v < 0 { -v } else { v }
}

/// Manhattan distance between two chunk coordinates.
pub open spec fn manhattan(a: ChunkCoord, b: ChunkCoord) -> int {
    abs_int(a.x - b.x) + abs_int(a.z - b.z)
}

/// The cache key of a chunk: both coordinates packed into 64 bits.
pub open spec fn coord_key(c: ChunkCoord) -> u64 {
    ((((c.x as u32) as u64) * 0x1_0000_0000) + ((c.z as u32) as u64)) as u64
}

impl ChunkCoord {
    pub fn new(x: i32, z: i32) -> (c: Self)
        ensures
            c.x == x && c.z == z,
    {
        ChunkCoord { x, z }
    }

    /// Manhattan distance in chunks.
    pub fn distance(&self, other: &ChunkCoord) -> (d: i32)
        requires
            manhattan(*self, *other) <= i32::MAX,
        ensures
            d == manhattan(*self, *other),
    {
        let dx: i64 = self.x as i64 - other.x as i64;
        let dz: i64 = self.z as i64 - other.z as i64;
        let ax: i64 = if dx < 0 { -dx } else { dx };
        let az: i64 = if dz < 0 { -dz } else { dz };
        (ax + az) as i32
    }

    /// The key under which the chunk cache stores this chunk.
    pub fn key(&self) -> (k: u64)
        ensures
            k == coord_key(*self),
    {
        (self.x as u32 as u64) * 0x1_0000_0000 + (self.z as u32 as u64)
    }
}

/// Different chunks have different cache keys.
pub proof fn lemma_coord_key_injective(a: ChunkCoord, b: ChunkCoord)
    requires
        coord_key(a) == coord_key(b),
    ensures
        a == b,
{
    let ax = (a.x as u32) as int;
    let az = (a.z as u32) as int;
    let bx = (b.x as u32) as int;
    let bz = (b.z as u32) as int;
    vstd::arithmetic::div_mod::lemma_fundamental_div_mod_converse(ax * 0x1_0000_0000 + az, 0x1_0000_0000, ax, az);
    vstd::arithmetic::div_mod::lemma_fundamental_div_mod_converse(bx * 0x1_0000_0000 + bz, 0x1_0000_0000, bx, bz);
    let (p, q, r, s) = (a.x, b.x, a.z, b.z);
    assert((p as u32) == (q as u32) && (r as u32) == (s as u32));
    assert(p == q && r == s) by (bit_vector)
        requires
            (p as u32) == (q as u32),
            (r as u32) == (s as u32),
    ;
}

/// Index of sample `(x, y, z)` in a padded chunk volume (x fastest, then y).
/// The index is computed in `u32`, so it must fit there; inside the padded
/// volume it lands below [`PADDED_TOTAL`].
pub fn index(x: u32, y: u32, z: u32) -> (i: usize)
    requires
        x + PAD_X * (y + PAD_Y * z) <= u32::MAX,
    ensures
        i == x + PAD_X * (y + PAD_Y * z),
        x < PAD_X && y < PAD_Y && z < PAD_Z ==> i < PADDED_TOTAL,
{
    proof {
        assert(x < 34 && y < 130 && z < 34 ==> x + PAD_X * (y + PAD_Y * z) < PADDED_TOTAL) by (nonlinear_arith);
        assert(PAD_Y * z <= y + PAD_Y * z <= PAD_X * (y + PAD_Y * z)) by (nonlinear_arith)
            requires y >= 0, z >= 0;
    }
    (x + PAD_X * (y + PAD_Y * z)) as usize
}

/// Level of detail of a terrain chunk (Lod0 is the most detailed).
#[derive(Debug, Clone, Copy, PartialEq, Eq, Structural)]
pub enum ChunkLod {
    Lod0,
    Lod1,
    Lod2,
}

impl Default for ChunkLod {
    fn default() -> (l: Self)
        ensures
            l == ChunkLod::Lod0,
    {
        ChunkLod::Lod0
    }
}


// ─── Cache of unloaded chunks ───────────────────────────────────────────────

/// Most unloaded chunks kept in the cache.
pub const CHUNK_CACHE_SIZE: usize = 128;

/// Compressed copies of unloaded chunks, keyed by [`ChunkCoord::key`], with
/// their insertion order (oldest first) for eviction.
pub struct ChunkCache<C> {
    entries: HashMap<u64, C>,
    order: VecDeque<u64>,
}

/// The eviction order before an insertion: the oldest key leaves when full.
pub open spec fn order_after_evict(order: Seq<u64>) -> Seq<u64> {
    if order.len() >= CHUNK_CACHE_SIZE { order.drop_first() } else { order }
}

/// The entries before an insertion: the oldest key's entry leaves when full.
pub open spec fn entries_after_evict<C>(entries: Map<u64, C>, order: Seq<u64>) -> Map<u64, C> {
    if order.len() >= CHUNK_CACHE_SIZE { entries.remove(order[0]) } else { entries }
}

/// At most 128 keys in the order, and every cached key is in the order.
pub open spec fn cache_shape_ok<C>(entries: Map<u64, C>, order: Seq<u64>) -> bool {
    &&& order.len() <= CHUNK_CACHE_SIZE
    &&& forall|k: u64| #[trigger] entries.contains_key(k) ==> order.contains(k)
}

proof fn lemma_shape_bounded<C>(entries: Map<u64, C>, order: Seq<u64>)
    requires
        cache_shape_ok(entries, order),
    ensures
        entries.dom().len() <= CHUNK_CACHE_SIZE,
{
    broadcast use vstd::seq_lib::seq_to_set_is_finite;
    assert(entries.dom().subset_of(order.to_set()));
    order.lemma_cardinality_of_set();
    vstd::set_lib::lemma_len_subset(entries.dom(), order.to_set());
}

impl<C> ChunkCache<C> {
    /// Every cached key is in the eviction order, which holds at most 128 keys.
    #[verifier::type_invariant]
    spec fn well_shaped(self) -> bool {
        cache_shape_ok(self.entries@, self.order@)
    }

    /// The cached chunks, by key.
    pub closed spec fn cached(&self) -> Map<u64, C> {
        self.entries@
    }

    /// The keys in eviction order, oldest first.
    pub closed spec fn eviction_order(&self) -> Seq<u64> {
        self.order@
    }

    /// An empty cache.
    pub fn new() -> (c: Self)
        ensures
            c.cached() == Map::<u64, C>::empty(),
            c.eviction_order() == Seq::<u64>::empty(),
    {
        let c = ChunkCache { entries: HashMap::new(), order: VecDeque::new() };
        proof {
            broadcast use vstd::std_specs::hash::group_hash_axioms;
        }
        c
    }

    /// Keeps `cached` for `coord`, evicting the oldest entry when 128 are held.
    pub fn cache(&mut self, coord: ChunkCoord, cached: C)
        ensures
            final(self).eviction_order() == order_after_evict(old(self).eviction_order()).push(coord_key(coord)),
            final(self).cached() == entries_after_evict(old(self).cached(), old(self).eviction_order())
                .insert(coord_key(coord), cached),
            final(self).cached().dom().len() <= CHUNK_CACHE_SIZE,
    {
        broadcast use vstd::std_specs::hash::group_hash_axioms;
        proof {
            use_type_invariant(&*self);
        }
        let mut taken: ChunkCache<C> = ChunkCache::new();
        std::mem::swap(self, &mut taken);
        let ChunkCache { mut entries, mut order } = taken;
        let ghost o = order@;
        let ghost e0 = entries@;
        let key = coord.key();
        if order.len() >= CHUNK_CACHE_SIZE {
            let oldest = order.pop_front();
            if let Some(old_key) = oldest {
                entries.remove(&old_key);
            }
        }
        order.push_back(key);
        entries.insert(key, cached);
        proof {
            assert forall|k: u64| #[trigger] entries@.contains_key(k) implies order@.contains(k) by {
                if k == key {
                    assert(order@[order@.len() - 1] == key);
                } else {
                    assert(e0.contains_key(k));
                    let i = choose|i: int| 0 <= i < o.len() && o[i] == k;
                    if o.len() >= CHUNK_CACHE_SIZE {
                        assert(i != 0);
                        assert(order@[i - 1] == k);
                    } else {
                        assert(order@[i] == k);
                    }
                }
            }
            lemma_shape_bounded(entries@, order@);
        }
        *self = ChunkCache { entries, order };
    }

    /// Unloads `coord`: unless the chunk was modified, keeps the copy that
    /// `compress` makes (evicting the oldest entry when 128 are held); a
    /// modified chunk is dropped and `compress` is not called.
    pub fn cache_unloaded<F: FnOnce() -> C>(&mut self, coord: ChunkCoord, modified: bool, compress: F)
        requires
            compress.requires(()),
        ensures
            modified ==> final(self).cached() == old(self).cached()
                && final(self).eviction_order() == old(self).eviction_order(),
            !modified ==> exists|c: C| #[trigger] compress.ensures((), c)
                && final(self).cached() == entries_after_evict(old(self).cached(), old(self).eviction_order())
                    .insert(coord_key(coord), c)
                && final(self).eviction_order() == order_after_evict(old(self).eviction_order()).push(coord_key(coord)),
    {
        if modified {
            return;
        }
        let c = compress();
        self.cache(coord, c);
    }

    /// Takes the cached copy of `coord` out of the cache (its key leaves the
    /// eviction order too); `None` when it is not cached.
    pub fn restore(&mut self, coord: ChunkCoord) -> (r: Option<C>)
        ensures
            r == if old(self).cached().contains_key(coord_key(coord)) {
                Some(old(self).cached()[coord_key(coord)])
            } else {
                None
            },
            final(self).cached() == old(self).cached().remove(coord_key(coord)),
            final(self).eviction_order() == old(self).eviction_order().filter(|k: u64| k != coord_key(coord)),
    {
        broadcast use vstd::std_specs::hash::group_hash_axioms;
        proof {
            use_type_invariant(&*self);
        }
        let mut taken: ChunkCache<C> = ChunkCache::new();
        std::mem::swap(self, &mut taken);
        let ChunkCache { mut entries, order } = taken;
        let ghost e0 = entries@;
        let key = coord.key();
        let r = entries.remove(&key);
        let mut kept: VecDeque<u64> = VecDeque::new();
        let ghost o = order@;
        let ghost pred = |k: u64| k != key;
        let mut i: usize = 0;
        while i < order.len()
            invariant
                order@ == o,
                pred == (|k: u64| k != key),
                i <= o.len(),
                kept@ == o.take(i as int).filter(pred),
                kept@.len() <= i,
            decreases o.len() - i,
        {
            let k = order[i];
            proof {
                reveal_with_fuel(Seq::<_>::filter, 1);
                assert(o.take(i as int + 1).drop_last() =~= o.take(i as int));
                assert(o.take(i as int + 1).last() == k);
                assert(o.take(i as int + 1).filter(pred) == if pred(k) {
                    o.take(i as int).filter(pred).push(k)
                } else {
                    o.take(i as int).filter(pred)
                });
            }
            let ghost before = kept@;
            if k != key {
                kept.push_back(k);
                assert(kept@ == before.push(k));
                assert(pred(k));
            } else {
                assert(!pred(k));
            }
            assert(kept@ == o.take(i as int + 1).filter(pred));
            i += 1;
        }
        proof {
            assert(o.take(o.len() as int) =~= o);
            assert forall|k: u64| #[trigger] entries@.contains_key(k) implies kept@.contains(k) by {
                assert(e0.contains_key(k));
                assert(o.contains(k));
                let j = choose|j: int| 0 <= j < o.len() && o[j] == k;
                assert(k != key);
                o.lemma_filter_contains(pred, j);
            }
        }
        *self = ChunkCache { entries, order: kept };
        r
    }

    /// Whether `coord` is cached.
    pub fn contains(&self, coord: ChunkCoord) -> (b: bool)
        ensures
            b == self.cached().contains_key(coord_key(coord)),
    {
        broadcast use vstd::std_specs::hash::group_hash_axioms;
        self.entries.contains_key(&coord.key())
    }

    /// Number of cached chunks; never more than 128.
    pub fn len(&self) -> (n: usize)
        ensures
            n == self.cached().len(),
            n <= CHUNK_CACHE_SIZE,
    {
        broadcast use vstd::std_specs::hash::group_hash_axioms;
        proof {
            use_type_invariant(self);
            lemma_shape_bounded(self.entries@, self.order@);
        }
        self.entries.len()
    }

    /// The cached chunks, by key.
    pub fn entries(&self) -> (m: &HashMap<u64, C>)
        ensures
            m@ == self.cached(),
    {
        &self.entries
    }
}

/// Unloading a chunk and then restoring it: an unmodified chunk comes back
/// exactly as compressed, a modified one (not cached before) is not found;
/// either way a second restore finds nothing.
pub proof fn lemma_unload_then_restore<C>(entries: Map<u64, C>, order: Seq<u64>, coord: ChunkCoord, modified: bool, c: C)
    requires
        !entries.contains_key(coord_key(coord)),
    ensures
        ({
            let after = if modified {
                entries
            } else {
                entries_after_evict(entries, order).insert(coord_key(coord), c)
            };
            &&& after.contains_key(coord_key(coord)) <==> !modified
            &&& !modified ==> after[coord_key(coord)] == c
            &&& !after.remove(coord_key(coord)).contains_key(coord_key(coord))
        }),
{
}

/// The cache never holds more than 128 chunks, whatever was cached, unloaded
/// or restored before.
pub proof fn lemma_cache_bounded<C>(entries: Map<u64, C>, order: Seq<u64>, coord: ChunkCoord, c: C)
    requires
        cache_shape_ok(entries, order),
    ensures
        entries.dom().len() <= CHUNK_CACHE_SIZE,
        cache_shape_ok(
            entries_after_evict(entries, order).insert(coord_key(coord), c),
            order_after_evict(order).push(coord_key(coord)),
        ),
{
    lemma_shape_bounded(entries, order);
    let e2 = entries_after_evict(entries, order).insert(coord_key(coord), c);
    let o2 = order_after_evict(order).push(coord_key(coord));
    assert forall|k: u64| #[trigger] e2.contains_key(k) implies o2.contains(k) by {
        if k == coord_key(coord) {
            assert(o2[o2.len() - 1] == k);
        } else {
            let i = choose|i: int| 0 <= i < order.len() && order[i] == k;
            if order.len() >= CHUNK_CACHE_SIZE {
                assert(i != 0);
                assert(o2[i - 1] == k);
            } else {
                assert(o2[i] == k);
            }
        }
    }
}

// ─── Initial chunks around a position ──────────────────────────────────────

/// Largest radius, in chunks, of the initial generation around the player.
pub const INITIAL_CHUNKS_MAX_RADIUS: i32 = 12;

/// The radius of the initial generation for a configured streaming radius.
pub open spec fn initial_radius(streaming_radius: i32) -> int {
    if streaming_radius < INITIAL_CHUNKS_MAX_RADIUS { streaming_radius as int } else { INITIAL_CHUNKS_MAX_RADIUS as int }
}

/// Whether the offset `(dx, dz)` lies in the disc of radius `r`.
pub open spec fn in_disc(dx: int, dz: int, r: int) -> bool {
    &&& -r <= dx <= r
    &&& -r <= dz <= r
    &&& dx * dx + dz * dz <= r * r
}

/// Row-major order of chunk coordinates: by `z`, then by `x`.
pub open spec fn row_major_before(a: ChunkCoord, b: ChunkCoord) -> bool {
    a.z < b.z || (a.z == b.z && a.x < b.x)
}

/// The chunks that the initial generation around `center` visits, in its
/// order: every chunk whose offset from `center` lies in the disc of radius
/// `min(streaming_radius, 12)`, row by row (increasing `z`, then `x`).
pub fn initial_chunk_coords(center: ChunkCoord, streaming_radius: i32) -> (v: Vec<ChunkCoord>)
    requires
        streaming_radius > i32::MIN,
        i32::MIN + INITIAL_CHUNKS_MAX_RADIUS <= center.x <= i32::MAX - INITIAL_CHUNKS_MAX_RADIUS,
        i32::MIN + INITIAL_CHUNKS_MAX_RADIUS <= center.z <= i32::MAX - INITIAL_CHUNKS_MAX_RADIUS,
    ensures
        forall|k: int| 0 <= k < v@.len() ==> in_disc(
            #[trigger] v@[k].x - center.x, v@[k].z - center.z, initial_radius(streaming_radius)),
        forall|dx: int, dz: int| in_disc(dx, dz, initial_radius(streaming_radius)) ==> v@.contains(
            ChunkCoord { x: (center.x + dx) as i32, z: (center.z + dz) as i32 }),
        forall|i: int, j: int| 0 <= i < j < v@.len() ==> row_major_before(#[trigger] v@[i], #[trigger] v@[j]),
{
    let r: i32 = if streaming_radius < INITIAL_CHUNKS_MAX_RADIUS { streaming_radius } else { INITIAL_CHUNKS_MAX_RADIUS };
    let ghost rr = r as int;
    let mut v: Vec<ChunkCoord> = Vec::new();
    if r < 0 {
        assert forall|dx: int, dz: int| in_disc(dx, dz, rr) implies v@.contains(
            ChunkCoord { x: (center.x + dx) as i32, z: (center.z + dz) as i32 }) by {
        }
        return v;
    }
    let mut dz: i32 = -r;
    while dz <= r
        invariant
            0 <= rr <= INITIAL_CHUNKS_MAX_RADIUS,
            r == rr,
            rr == initial_radius(streaming_radius),
            i32::MIN + INITIAL_CHUNKS_MAX_RADIUS <= center.x <= i32::MAX - INITIAL_CHUNKS_MAX_RADIUS,
            i32::MIN + INITIAL_CHUNKS_MAX_RADIUS <= center.z <= i32::MAX - INITIAL_CHUNKS_MAX_RADIUS,
            -rr <= dz <= rr + 1,
            forall|k: int| 0 <= k < v@.len() ==> in_disc(#[trigger] v@[k].x - center.x, v@[k].z - center.z, rr),
            forall|k: int| 0 <= k < v@.len() ==> (#[trigger] v@[k]).z < center.z + dz,
            forall|ddx: int, ddz: int| in_disc(ddx, ddz, rr) && ddz < dz ==> v@.contains(
                ChunkCoord { x: (center.x + ddx) as i32, z: (center.z + ddz) as i32 }),
            forall|i: int, j: int| 0 <= i < j < v@.len() ==> row_major_before(#[trigger] v@[i], #[trigger] v@[j]),
        decreases rr + 1 - dz,
    {
        let mut dx: i32 = -r;
        while dx <= r
            invariant
                0 <= rr <= INITIAL_CHUNKS_MAX_RADIUS,
                r == rr,
                i32::MIN + INITIAL_CHUNKS_MAX_RADIUS <= center.x <= i32::MAX - INITIAL_CHUNKS_MAX_RADIUS,
                i32::MIN + INITIAL_CHUNKS_MAX_RADIUS <= center.z <= i32::MAX - INITIAL_CHUNKS_MAX_RADIUS,
                -rr <= dz <= rr,
                -rr <= dx <= rr + 1,
                forall|k: int| 0 <= k < v@.len() ==> in_disc(#[trigger] v@[k].x - center.x, v@[k].z - center.z, rr),
                forall|k: int| 0 <= k < v@.len() ==> (#[trigger] v@[k]).z < center.z + dz
                    || (v@[k].z == center.z + dz && v@[k].x < center.x + dx),
                forall|ddx: int, ddz: int| in_disc(ddx, ddz, rr) && (ddz < dz || (ddz == dz && ddx < dx)) ==> v@.contains(
                    ChunkCoord { x: (center.x + ddx) as i32, z: (center.z + ddz) as i32 }),
                forall|i: int, j: int| 0 <= i < j < v@.len() ==> row_major_before(#[trigger] v@[i], #[trigger] v@[j]),
            decreases rr + 1 - dx,
        {
            proof {
                assert(0 <= dx * dx <= 144 && 0 <= dz * dz <= 144 && 0 <= r * r <= 144) by (nonlinear_arith)
                    requires -12 <= dx <= 12, -12 <= dz <= 12, 0 <= r <= 12;
            }
            if dx * dx + dz * dz <= r * r {
                let c = ChunkCoord { x: center.x + dx, z: center.z + dz };
                let ghost before = v@;
                v.push(c);
                proof {
                    assert(v@[v@.len() - 1] == c);
                    assert forall|ddx: int, ddz: int| in_disc(ddx, ddz, rr) && (ddz < dz || (ddz == dz && ddx < dx + 1))
                        implies v@.contains(ChunkCoord { x: (center.x + ddx) as i32, z: (center.z + ddz) as i32 }) by {
                        if ddz == dz && ddx == dx {
                            assert(v@[v@.len() - 1] == ChunkCoord { x: (center.x + ddx) as i32, z: (center.z + ddz) as i32 });
                        } else {
                            let w = ChunkCoord { x: (center.x + ddx) as i32, z: (center.z + ddz) as i32 };
                            assert(before.contains(w));
                            let k = choose|k: int| 0 <= k < before.len() && before[k] == w;
                            assert(v@[k] == w);
                        }
                    }
                    assert forall|i: int, j: int| 0 <= i < j < v@.len() implies row_major_before(#[trigger] v@[i], #[trigger] v@[j]) by {
                        if j == v@.len() - 1 {
                            assert(before[i] == v@[i]);
                        } else {
                            assert(before[i] == v@[i] && before[j] == v@[j]);
                        }
                    }
                }
            } else {
                proof {
                    assert forall|ddx: int, ddz: int| in_disc(ddx, ddz, rr) && (ddz < dz || (ddz == dz && ddx < dx + 1))
                        implies v@.contains(ChunkCoord { x: (center.x + ddx) as i32, z: (center.z + ddz) as i32 }) by {
                        if ddz == dz && ddx == dx {
                            assert(false);
                        }
                    }
                }
            }
            dx = dx + 1;
        }
        dz = dz + 1;
    }
    v
}

} // verus!
