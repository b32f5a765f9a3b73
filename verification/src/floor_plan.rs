//! Integer parts of the arena floor: the quarter-turn yaw and the variant of
//! each floor tile, and the content-derived key under which a merged static
//! batch (floor, walls, rooms) is cached.

use vstd::prelude::*;
use crate::hashes::{fnv1a, fnv1a_spec, lemma_fnv1a_concat, FNV_OFFSET};
use vstd::string::StringSliceAdditionalSpecFns;
use vstd::string::StringExecFns;

verus! {

// ─── Floor tiles ────────────────────────────────────────────────────────────

/// Quarter turns (0..=3) of the floor tile at `(tx, tz)`.
pub open spec fn tile_yaw_quarter_spec(tx: i32, tz: i32) -> int {
    (vstd::wrapping::i32_specs::wrapping_mul(tx, 7) ^ vstd::wrapping::i32_specs::wrapping_mul(tz, 13)) as int % 4
}

/// Deterministic yaw of a floor tile in quarter turns, varied across the grid
/// so that repeated tiles do not line up.
pub fn tile_yaw_quarter(tx: i32, tz: i32) -> (q: i32)
    ensures
        q == tile_yaw_quarter_spec(tx, tz),
        0 <= q < 4,
{
    let v: i32 = tx.wrapping_mul(7) ^ tz.wrapping_mul(13);
    let r: u32 = (v as u32) & 3;
    proof {
        assert(((v as u32) & 3u32) as int == (v as int) % 4) by (bit_vector);
    }
    r as i32
}

/// Variant of a floor tile that is not clean, from its hash: dirt (1) when
/// bit 16 is clear, rocks (2) when it is set.
pub fn tile_variant_kind(h: u32) -> (kind: u8)
    ensures
        kind == if (h >> 16u32) & 1 == 0 { 1u8 } else { 2u8 },
{
    if (h >> 16) & 1 == 0 {
        1
    } else {
        2
    }
}

// ─── Content-derived cache key ──────────────────────────────────────────────

/// A pose as its ten 32-bit words (translation xyz, rotation xyzw, scale xyz).
pub type PoseWords = [u32; 10];

/// Little-endian bytes of a 32-bit word.
pub open spec fn u32_le(v: u32) -> Seq<u8> {
    seq![(v & 0xff) as u8, ((v >> 8u32) & 0xff) as u8, ((v >> 16u32) & 0xff) as u8, (v >> 24u32) as u8]
}

/// The bytes hashed for one instance: its kind, then each pose word.
pub open spec fn instance_bytes(inst: (u8, PoseWords)) -> Seq<u8> {
    seq![inst.0] + inst.1@.map_values(|w: u32| u32_le(w)).flatten()
}

/// Everything the key is derived from, in hashing order: the label's bytes,
/// each source scene's bytes, each instance's bytes.
pub open spec fn key_content(label: Seq<u8>, instances: Seq<(u8, PoseWords)>, scenes: Seq<Seq<u8>>) -> Seq<u8> {
    label + scenes.flatten() + instances.map_values(|i: (u8, PoseWords)| instance_bytes(i)).flatten()
}

/// Lower-case hexadecimal digit of `n < 16`.
pub open spec fn hex_char(n: int) -> char {
    if n < 10 {
        ('0' as int + n) as char
    } else {
        ('a' as int + n - 10) as char
    }
}

/// The 16 hexadecimal digits of `h`, most significant first.
pub open spec fn hex16(h: u64) -> Seq<char> {
    Seq::new(16, |i: int| hex_char(((h >> ((60 - 4 * i) as u64)) & 0xf) as int))
}

fn hex_digit(n: u64) -> (s: &'static str)
    requires
        n < 16,
    ensures
        s@ == seq![hex_char(n as int)],
{
    proof {
        reveal_strlit("0");
        reveal_strlit("1");
        reveal_strlit("2");
        reveal_strlit("3");
        reveal_strlit("4");
        reveal_strlit("5");
        reveal_strlit("6");
        reveal_strlit("7");
        reveal_strlit("8");
        reveal_strlit("9");
        reveal_strlit("a");
        reveal_strlit("b");
        reveal_strlit("c");
        reveal_strlit("d");
        reveal_strlit("e");
        reveal_strlit("f");
    }
    let s = match n {
        0 => "0",
        1 => "1",
        2 => "2",
        3 => "3",
        4 => "4",
        5 => "5",
        6 => "6",
        7 => "7",
        8 => "8",
        9 => "9",
        10 => "a",
        11 => "b",
        12 => "c",
        13 => "d",
        14 => "e",
        _ => "f",
    };
    assert(s@ =~= seq![hex_char(n as int)]);
    s
}

fn push_u32_le(h: u64, w: u32) -> (r: u64)
    ensures
        r == fnv1a_spec(u32_le(w), h),
{
    let bytes: [u8; 4] = [(w & 0xff) as u8, ((w >> 8) & 0xff) as u8, ((w >> 16) & 0xff) as u8, (w >> 24) as u8];
    assert(bytes@ =~= u32_le(w));
    fnv1a(&bytes, h)
}

/// The FNV-1a hash of [`key_content`].
pub fn content_hash(label: &str, instances: &[(u8, PoseWords)], scenes: &[Vec<u8>]) -> (h: u64)
    ensures
        h == fnv1a_spec(key_content(label.spec_bytes(), instances@, scenes@.map_values(|v: Vec<u8>| v@)), FNV_OFFSET),
{
    let lb = label.as_bytes();
    let mut h: u64 = fnv1a(lb, FNV_OFFSET);
    let ghost sv = scenes@.map_values(|v: Vec<u8>| v@);
    let ghost iv = instances@.map_values(|i: (u8, PoseWords)| instance_bytes(i));
    let mut s: usize = 0;
    while s < scenes.len()
        invariant
            s <= scenes@.len(),
            sv == scenes@.map_values(|v: Vec<u8>| v@),
            h == fnv1a_spec(lb@ + sv.take(s as int).flatten(), FNV_OFFSET),
        decreases scenes@.len() - s,
    {
        proof {
            lemma_fnv1a_concat(lb@ + sv.take(s as int).flatten(), scenes@[s as int]@, FNV_OFFSET);
            assert(sv.take(s as int + 1) =~= sv.take(s as int).push(scenes@[s as int]@));
            sv.take(s as int).lemma_flatten_push(scenes@[s as int]@);
            assert(lb@ + sv.take(s as int).flatten() + scenes@[s as int]@ =~= lb@ + sv.take(s as int + 1).flatten());
        }
        h = fnv1a(scenes[s].as_slice(), h);
        s += 1;
    }
    assert(sv.take(scenes@.len() as int) =~= sv);
    let ghost prefix = lb@ + sv.flatten();
    let mut i: usize = 0;
    while i < instances.len()
        invariant
            i <= instances@.len(),
            iv == instances@.map_values(|i: (u8, PoseWords)| instance_bytes(i)),
            h == fnv1a_spec(prefix + iv.take(i as int).flatten(), FNV_OFFSET),
        decreases instances@.len() - i,
    {
        let (kind, words) = instances[i];
        let ghost before = prefix + iv.take(i as int).flatten();
        let kb: [u8; 1] = [kind];
        proof {
            lemma_fnv1a_concat(before, kb@, FNV_OFFSET);
        }
        h = fnv1a(&kb, h);
        let ghost wv = words@.map_values(|w: u32| u32_le(w));
        let mut j: usize = 0;
        while j < 10
            invariant
                j <= 10,
                words@.len() == 10,
                wv == words@.map_values(|w: u32| u32_le(w)),
                h == fnv1a_spec(before + kb@ + wv.take(j as int).flatten(), FNV_OFFSET),
            decreases 10 - j,
        {
            proof {
                lemma_fnv1a_concat(before + kb@ + wv.take(j as int).flatten(), u32_le(words@[j as int]), FNV_OFFSET);
                assert(wv.take(j as int + 1) =~= wv.take(j as int).push(u32_le(words@[j as int])));
                wv.take(j as int).lemma_flatten_push(u32_le(words@[j as int]));
                assert(before + kb@ + wv.take(j as int).flatten() + u32_le(words@[j as int])
                    =~= before + kb@ + wv.take(j as int + 1).flatten());
            }
            h = push_u32_le(h, words[j]);
            j += 1;
        }
        proof {
            assert(wv.take(10) =~= wv);
            assert(kb@ =~= seq![kind]);
            assert(instance_bytes(instances@[i as int]) == kb@ + wv.flatten());
            assert(iv.take(i as int + 1) =~= iv.take(i as int).push(instance_bytes(instances@[i as int])));
            iv.take(i as int).lemma_flatten_push(instance_bytes(instances@[i as int]));
            assert(before + kb@ + wv.flatten() =~= prefix + iv.take(i as int + 1).flatten());
        }
        i += 1;
    }
    assert(iv.take(instances@.len() as int) =~= iv);
    assert(prefix + iv.flatten() =~= key_content(label.spec_bytes(), instances@, sv));
    h
}

/// Cache key of a merged static batch, derived from what is merged: the label,
/// a colon and the 16 hexadecimal digits of [`content_hash`]. The same content
/// always gives the same key; any change of pose, kind, count or source scene
/// changes the hashed bytes.
pub fn content_cache_key(label: &str, instances: &[(u8, PoseWords)], scenes: &[Vec<u8>]) -> (key: String)
    ensures
        key@ == label@ + seq![':'] + hex16(content_hash_spec(label, instances@, scenes@)),
{
    let h: u64 = content_hash(label, instances, scenes);
    let mut key = String::from_str(label);
    proof {
        reveal_strlit(":");
    }
    key.append(":");
    let ghost start = key@;
    let mut i: u64 = 0;
    while i < 16
        invariant
            i <= 16,
            start == label@ + seq![':'],
            key@ == start + hex16(h).take(i as int),
        decreases 16 - i,
    {
        let shift: u64 = 60 - 4 * i;
        let nib: u64 = (h >> shift) & 0xf;
        assert(nib < 16) by (bit_vector)
            requires nib == (h >> shift) & 0xf;
        key.append(hex_digit(nib));
        assert(hex16(h).take(i as int + 1) =~= hex16(h).take(i as int).push(hex_char(nib as int)));
        i += 1;
    }
    assert(hex16(h).take(16) =~= hex16(h));
    key
}

/// The value of [`content_hash`] for these arguments.
pub open spec fn content_hash_spec(label: &str, instances: Seq<(u8, PoseWords)>, scenes: Seq<Vec<u8>>) -> u64 {
    fnv1a_spec(key_content(label.spec_bytes(), instances, scenes.map_values(|v: Vec<u8>| v@)), FNV_OFFSET)
}

proof fn lemma_hex_char_injective(n: int, m: int)
    requires
        0 <= n < 16,
        0 <= m < 16,
        hex_char(n) == hex_char(m),
    ensures
        n == m,
{
    assert(hex_char(n) as int == if n < 10 { 48 + n } else { 87 + n });
    assert(hex_char(m) as int == if m < 10 { 48 + m } else { 87 + m });
}

proof fn lemma_nibbles_determine_word(a: u64, b: u64)
    requires
        forall|i: int| 0 <= i < 16 ==> #[trigger] ((a >> ((60 - 4 * i) as u64)) & 0xf) == ((b >> ((60 - 4 * i) as u64)) & 0xf),
    ensures
        a == b,
{
    assert(((a >> 60u64) & 0xf) == ((b >> 60u64) & 0xf)) by { assert(((a >> ((60 - 4 * 0int) as u64)) & 0xf) == ((b >> ((60 - 4 * 0int) as u64)) & 0xf)); }
    assert(((a >> 56u64) & 0xf) == ((b >> 56u64) & 0xf)) by { assert(((a >> ((60 - 4 * 1int) as u64)) & 0xf) == ((b >> ((60 - 4 * 1int) as u64)) & 0xf)); }
    assert(((a >> 52u64) & 0xf) == ((b >> 52u64) & 0xf)) by { assert(((a >> ((60 - 4 * 2int) as u64)) & 0xf) == ((b >> ((60 - 4 * 2int) as u64)) & 0xf)); }
    assert(((a >> 48u64) & 0xf) == ((b >> 48u64) & 0xf)) by { assert(((a >> ((60 - 4 * 3int) as u64)) & 0xf) == ((b >> ((60 - 4 * 3int) as u64)) & 0xf)); }
    assert(((a >> 44u64) & 0xf) == ((b >> 44u64) & 0xf)) by { assert(((a >> ((60 - 4 * 4int) as u64)) & 0xf) == ((b >> ((60 - 4 * 4int) as u64)) & 0xf)); }
    assert(((a >> 40u64) & 0xf) == ((b >> 40u64) & 0xf)) by { assert(((a >> ((60 - 4 * 5int) as u64)) & 0xf) == ((b >> ((60 - 4 * 5int) as u64)) & 0xf)); }
    assert(((a >> 36u64) & 0xf) == ((b >> 36u64) & 0xf)) by { assert(((a >> ((60 - 4 * 6int) as u64)) & 0xf) == ((b >> ((60 - 4 * 6int) as u64)) & 0xf)); }
    assert(((a >> 32u64) & 0xf) == ((b >> 32u64) & 0xf)) by { assert(((a >> ((60 - 4 * 7int) as u64)) & 0xf) == ((b >> ((60 - 4 * 7int) as u64)) & 0xf)); }
    assert(((a >> 28u64) & 0xf) == ((b >> 28u64) & 0xf)) by { assert(((a >> ((60 - 4 * 8int) as u64)) & 0xf) == ((b >> ((60 - 4 * 8int) as u64)) & 0xf)); }
    assert(((a >> 24u64) & 0xf) == ((b >> 24u64) & 0xf)) by { assert(((a >> ((60 - 4 * 9int) as u64)) & 0xf) == ((b >> ((60 - 4 * 9int) as u64)) & 0xf)); }
    assert(((a >> 20u64) & 0xf) == ((b >> 20u64) & 0xf)) by { assert(((a >> ((60 - 4 * 10int) as u64)) & 0xf) == ((b >> ((60 - 4 * 10int) as u64)) & 0xf)); }
    assert(((a >> 16u64) & 0xf) == ((b >> 16u64) & 0xf)) by { assert(((a >> ((60 - 4 * 11int) as u64)) & 0xf) == ((b >> ((60 - 4 * 11int) as u64)) & 0xf)); }
    assert(((a >> 12u64) & 0xf) == ((b >> 12u64) & 0xf)) by { assert(((a >> ((60 - 4 * 12int) as u64)) & 0xf) == ((b >> ((60 - 4 * 12int) as u64)) & 0xf)); }
    assert(((a >> 8u64) & 0xf) == ((b >> 8u64) & 0xf)) by { assert(((a >> ((60 - 4 * 13int) as u64)) & 0xf) == ((b >> ((60 - 4 * 13int) as u64)) & 0xf)); }
    assert(((a >> 4u64) & 0xf) == ((b >> 4u64) & 0xf)) by { assert(((a >> ((60 - 4 * 14int) as u64)) & 0xf) == ((b >> ((60 - 4 * 14int) as u64)) & 0xf)); }
    assert(((a >> 0u64) & 0xf) == ((b >> 0u64) & 0xf)) by { assert(((a >> ((60 - 4 * 15int) as u64)) & 0xf) == ((b >> ((60 - 4 * 15int) as u64)) & 0xf)); }
    assert(a == b) by (bit_vector)
        requires
            ((a >> 60u64) & 0xf) == ((b >> 60u64) & 0xf),
            ((a >> 56u64) & 0xf) == ((b >> 56u64) & 0xf),
            ((a >> 52u64) & 0xf) == ((b >> 52u64) & 0xf),
            ((a >> 48u64) & 0xf) == ((b >> 48u64) & 0xf),
            ((a >> 44u64) & 0xf) == ((b >> 44u64) & 0xf),
            ((a >> 40u64) & 0xf) == ((b >> 40u64) & 0xf),
            ((a >> 36u64) & 0xf) == ((b >> 36u64) & 0xf),
            ((a >> 32u64) & 0xf) == ((b >> 32u64) & 0xf),
            ((a >> 28u64) & 0xf) == ((b >> 28u64) & 0xf),
            ((a >> 24u64) & 0xf) == ((b >> 24u64) & 0xf),
            ((a >> 20u64) & 0xf) == ((b >> 20u64) & 0xf),
            ((a >> 16u64) & 0xf) == ((b >> 16u64) & 0xf),
            ((a >> 12u64) & 0xf) == ((b >> 12u64) & 0xf),
            ((a >> 8u64) & 0xf) == ((b >> 8u64) & 0xf),
            ((a >> 4u64) & 0xf) == ((b >> 4u64) & 0xf),
            ((a >> 0u64) & 0xf) == ((b >> 0u64) & 0xf),
    ;
}

/// A cache key determines the label and the content hash it was made of:
/// batches with different labels, or whose contents hash differently, never
/// share a key.
pub proof fn lemma_key_determines_label_and_hash(l1: Seq<char>, h1: u64, l2: Seq<char>, h2: u64)
    requires
        l1 + seq![':'] + hex16(h1) == l2 + seq![':'] + hex16(h2),
    ensures
        l1 == l2,
        h1 == h2,
{
    let k1 = l1 + seq![':'] + hex16(h1);
    let k2 = l2 + seq![':'] + hex16(h2);
    assert(k1.len() == l1.len() + 17);
    assert(k2.len() == l2.len() + 17);
    assert(l1 =~= k1.subrange(0, l1.len() as int));
    assert(l2 =~= k2.subrange(0, l2.len() as int));
    assert(hex16(h1) =~= k1.subrange(l1.len() as int + 1, k1.len() as int));
    assert(hex16(h2) =~= k2.subrange(l2.len() as int + 1, k2.len() as int));
    assert forall|i: int| 0 <= i < 16 implies #[trigger] ((h1 >> ((60 - 4 * i) as u64)) & 0xf)
        == ((h2 >> ((60 - 4 * i) as u64)) & 0xf) by {
        let sh: u64 = (60 - 4 * i) as u64;
        let x = (h1 >> sh) & 0xf;
        let y = (h2 >> sh) & 0xf;
        assert(x < 16 && y < 16) by (bit_vector)
            requires x == (h1 >> sh) & 0xf, y == (h2 >> sh) & 0xf;
        assert(hex16(h1)[i] == hex16(h2)[i]);
        lemma_hex_char_injective(x as int, y as int);
    }
    lemma_nibbles_determine_word(h1, h2);
}

// ─── Per-frame handling of a pending merge ─────────────────────────────────

/// What happens to a pending merged-static plan this frame.
#[derive(Debug, Clone, Copy, PartialEq, Eq, Structural)]
pub enum MergeStep {
    /// The plan belongs to a stage no longer requested: drop it, spawn nothing.
    DiscardStale,
    /// A batch with the plan's key is cached: spawn it again.
    ReuseCached,
    /// The meshes are not all loaded yet: try again next frame.
    Wait,
    /// Loading timed out: spawn the instances one by one.
    FallbackIndividual,
    /// Everything is loaded: merge the instances.
    Merge,
}

/// Whether every scene that some instance uses has harvested at least one mesh.
pub open spec fn scenes_ready_spec(instance_kinds: Seq<u8>, harvested: Seq<usize>) -> bool {
    forall|i: int| 0 <= i < instance_kinds.len() ==> harvested[#[trigger] instance_kinds[i] as int] > 0
}

/// Whether every scene that some instance uses has harvested at least one mesh
/// (`harvested[k]` is the number of meshes found under the probe of scene `k`).
pub fn scenes_ready(instance_kinds: &[u8], harvested: &[usize]) -> (b: bool)
    requires
        forall|i: int| 0 <= i < instance_kinds@.len() ==> (#[trigger] instance_kinds@[i] as int) < harvested@.len(),
    ensures
        b == scenes_ready_spec(instance_kinds@, harvested@),
{
    let mut i: usize = 0;
    while i < instance_kinds.len()
        invariant
            i <= instance_kinds@.len(),
            forall|j: int| 0 <= j < instance_kinds@.len() ==> (#[trigger] instance_kinds@[j] as int) < harvested@.len(),
            forall|j: int| 0 <= j < i ==> harvested@[#[trigger] instance_kinds@[j] as int] > 0,
        decreases instance_kinds@.len() - i,
    {
        let k = instance_kinds[i] as usize;
        if harvested[k] == 0 {
            return false;
        }
        i += 1;
    }
    true
}

/// The decision for a pending plan of stage `plan_stage` while `current_stage`
/// is requested, with or without a cached batch for its key, with its meshes
/// loaded or not, and past the loading timeout or not.
pub open spec fn merge_decision(
    plan_stage: Seq<char>,
    current_stage: Seq<char>,
    cache_hit: bool,
    assets_ready: bool,
    timed_out: bool,
) -> MergeStep {
    if plan_stage != current_stage {
        MergeStep::DiscardStale
    } else if cache_hit {
        MergeStep::ReuseCached
    } else if !assets_ready {
        if timed_out {
            MergeStep::FallbackIndividual
        } else {
            MergeStep::Wait
        }
    } else {
        MergeStep::Merge
    }
}

/// Decides this frame's handling of a pending merged-static plan (see
/// [`merge_decision`]): a stale plan is always dropped first, and a cached
/// batch is reused before any mesh is looked at.
pub fn merged_static_step(
    plan_stage: &str,
    current_stage: &str,
    cache_hit: bool,
    assets_ready: bool,
    timed_out: bool,
) -> (s: MergeStep)
    ensures
        s == merge_decision(plan_stage@, current_stage@, cache_hit, assets_ready, timed_out),
{
    let plan = plan_stage.to_owned();
    let current = current_stage.to_owned();
    if plan != current {
        return MergeStep::DiscardStale;
    }
    if cache_hit {
        return MergeStep::ReuseCached;
    }
    if !assets_ready {
        if timed_out {
            return MergeStep::FallbackIndividual;
        }
        return MergeStep::Wait;
    }
    MergeStep::Merge
}

/// The guards of a pending merge, by what they depend on: a plan of another
/// stage is always dropped; a current plan with a cached batch is always
/// reused; a current plan without one is merged as soon as its meshes are
/// loaded, however long it waited; the timeout only decides, while meshes are
/// missing, between waiting and spawning the instances one by one.
pub proof fn lemma_merge_step_rules(
    plan_stage: Seq<char>,
    current_stage: Seq<char>,
    cache_hit: bool,
    assets_ready: bool,
    timed_out: bool,
)
    ensures
        plan_stage != current_stage
            ==> merge_decision(plan_stage, current_stage, cache_hit, assets_ready, timed_out) == MergeStep::DiscardStale,
        plan_stage == current_stage && cache_hit
            ==> merge_decision(plan_stage, current_stage, cache_hit, assets_ready, timed_out) == MergeStep::ReuseCached,
        plan_stage == current_stage && !cache_hit && assets_ready
            ==> merge_decision(plan_stage, current_stage, cache_hit, assets_ready, timed_out) == MergeStep::Merge,
        plan_stage == current_stage && !cache_hit && !assets_ready
            ==> merge_decision(plan_stage, current_stage, cache_hit, assets_ready, timed_out)
                == (if timed_out { MergeStep::FallbackIndividual } else { MergeStep::Wait }),
        assets_ready ==> merge_decision(plan_stage, current_stage, cache_hit, assets_ready, timed_out)
            == merge_decision(plan_stage, current_stage, cache_hit, assets_ready, !timed_out),
        merge_decision(plan_stage, current_stage, cache_hit, assets_ready, timed_out) == MergeStep::Merge
            ==> assets_ready,
{
}

/// Scene lists whose paths pair up by length and whose concatenations agree
/// are the same list.
proof fn lemma_flatten_same_shape(s1: Seq<Seq<u8>>, s2: Seq<Seq<u8>>)
    requires
        s1.len() == s2.len(),
        forall|i: int| 0 <= i < s1.len() ==> #[trigger] s1[i].len() == s2[i].len(),
        s1.flatten() == s2.flatten(),
    ensures
        s1 == s2,
    decreases s1.len(),
{
    if s1.len() > 0 {
        let a1 = s1.first();
        let a2 = s2.first();
        let r1 = s1.drop_first();
        let r2 = s2.drop_first();
        assert(s1.flatten() == a1 + r1.flatten());
        assert(s2.flatten() == a2 + r2.flatten());
        assert(a1.len() == a2.len());
        assert(a1 =~= (a1 + r1.flatten()).subrange(0, a1.len() as int));
        assert(a2 =~= (a2 + r2.flatten()).subrange(0, a2.len() as int));
        assert(r1.flatten() =~= (a1 + r1.flatten()).subrange(a1.len() as int, (a1 + r1.flatten()).len() as int));
        assert(r2.flatten() =~= (a2 + r2.flatten()).subrange(a2.len() as int, (a2 + r2.flatten()).len() as int));
        assert forall|i: int| 0 <= i < r1.len() implies #[trigger] r1[i].len() == r2[i].len() by {
            assert(r1[i] == s1[i + 1] && r2[i] == s2[i + 1]);
        }
        lemma_flatten_same_shape(r1, r2);
        assert(s1 =~= s2) by {
            assert forall|i: int| 0 <= i < s1.len() implies s1[i] == s2[i] by {
                if i > 0 {
                    assert(s1[i] == r1[i - 1] && s2[i] == r2[i - 1]);
                }
            }
        }
    } else {
        assert(s1 =~= s2);
    }
}

/// Every source scene counts in the cache key: two batches with the same
/// label and instances whose scene paths pair up by length but differ in any
/// one of them (another kit) hash different content.
pub proof fn lemma_key_content_sees_every_scene(
    label: Seq<u8>,
    instances: Seq<(u8, PoseWords)>,
    s1: Seq<Seq<u8>>,
    s2: Seq<Seq<u8>>,
    k: int,
)
    requires
        s1.len() == s2.len(),
        forall|i: int| 0 <= i < s1.len() ==> #[trigger] s1[i].len() == s2[i].len(),
        0 <= k < s1.len(),
        s1[k] != s2[k],
    ensures
        key_content(label, instances, s1) != key_content(label, instances, s2),
{
    let ib = instances.map_values(|i: (u8, PoseWords)| instance_bytes(i)).flatten();
    let c1 = key_content(label, instances, s1);
    let c2 = key_content(label, instances, s2);
    if c1 == c2 {
        let f1 = s1.flatten();
        let f2 = s2.flatten();
        assert(c1 == label + f1 + ib);
        assert(c2 == label + f2 + ib);
        assert(c1.len() == c2.len());
        assert(f1.len() == f2.len());
        assert(f1 =~= c1.subrange(label.len() as int, (label.len() + f1.len()) as int));
        assert(f2 =~= c2.subrange(label.len() as int, (label.len() + f2.len()) as int));
        lemma_flatten_same_shape(s1, s2);
        assert(false);
    }
}

/// The label counts in the cache key: batches of the same scenes and
/// instances under two different labels of one length hash different content
/// (the floor's batch never shares the walls' key).
pub proof fn lemma_key_content_sees_the_label(
    l1: Seq<u8>,
    l2: Seq<u8>,
    instances: Seq<(u8, PoseWords)>,
    scenes: Seq<Seq<u8>>,
)
    requires
        l1.len() == l2.len(),
        l1 != l2,
    ensures
        key_content(l1, instances, scenes) != key_content(l2, instances, scenes),
{
    let c1 = key_content(l1, instances, scenes);
    let c2 = key_content(l2, instances, scenes);
    if c1 == c2 {
        assert(l1 =~= c1.subrange(0, l1.len() as int));
        assert(l2 =~= c2.subrange(0, l2.len() as int));
        assert(false);
    }
}

} // verus!
