//! Compact storage of an unloaded chunk: the quantized SDF samples are laid
//! out as little-endian `i16` bytes and compressed with zstd; reading the
//! cache decompresses and decodes them again.

use vstd::prelude::*;

verus! {

/// zstd compression level used for cached chunks.
pub const CACHE_ZSTD_LEVEL: i32 = 3;

// ─── zstd ───────────────────────────────────────────────────────────────────

/// What `zstd::bulk::decompress(frame, capacity)` returns: the decompressed
/// bytes, or `None` when it reports an error.
pub uninterp spec fn zstd_decompressed(frame: Seq<u8>, capacity: usize) -> Option<Seq<u8>>;

/// What `zstd::bulk::compress(data, level)` returns: the frame, or `None` when
/// it reports an error. (Single-threaded compression at a given level is a
/// function of the input bytes alone.)
pub uninterp spec fn zstd_compressed(data: Seq<u8>, level: i32) -> Option<Seq<u8>>;

/// Calls `zstd::bulk::compress`. Trusted: its result is `zstd_compressed` of
/// the input and level, and when it succeeds, the frame decompresses, with a
/// capacity of the input's length, to exactly the input (zstd is lossless).
/// Nothing is claimed of when it fails.
#[verifier::external_body]
fn zstd_compress(data: &[u8], level: i32) -> (r: Option<Vec<u8>>)
    requires
        data@.len() <= isize::MAX / 2,
    ensures
        match r {
            Some(frame) => zstd_compressed(data@, level) == Some(frame@),
            None => zstd_compressed(data@, level) is None,
        },
        r matches Some(frame) ==> zstd_decompressed(frame@, data@.len() as usize) == Some(data@),
{
    zstd::bulk::compress(data, level).ok()
}

/// Calls `zstd::bulk::decompress`. Trusted: its result (the bytes, or an
/// error mapped to `None`) depends on the frame and the capacity alone.
#[verifier::external_body]
fn zstd_decompress(frame: &[u8], capacity: usize) -> (r: Option<Vec<u8>>)
    requires
        capacity <= isize::MAX,
    ensures
        match r {
            Some(v) => zstd_decompressed(frame@, capacity) == Some(v@),
            None => zstd_decompressed(frame@, capacity) is None,
        },
{
    zstd::bulk::decompress(frame, capacity).ok()
}

// ─── Little-endian layout of i16 samples ───────────────────────────────────

/// Low byte of a sample.
pub open spec fn low_byte(v: i16) -> u8 {
    ((v as u16) & 0xff) as u8
}

/// High byte of a sample.
pub open spec fn high_byte(v: i16) -> u8 {
    ((v as u16) >> 8u16) as u8
}

/// The sample whose little-endian bytes are `lo`, `hi`.
pub open spec fn sample_from_le(lo: u8, hi: u8) -> i16 {
    ((lo as u16) | ((hi as u16) << 8u16)) as i16
}

/// The samples laid out as little-endian bytes, two per sample.
pub open spec fn le_bytes(s: Seq<i16>) -> Seq<u8> {
    Seq::new(2 * s.len(), |k: int| if k % 2 == 0 { low_byte(s[k / 2]) } else { high_byte(s[k / 2]) })
}

/// The samples read back from little-endian bytes; an odd last byte is ignored.
pub open spec fn decode_le(b: Seq<u8>) -> Seq<i16> {
    Seq::new(b.len() / 2, |k: int| sample_from_le(b[2 * k], b[2 * k + 1]))
}

proof fn lemma_sample_le_round_trip(v: i16)
    ensures
        sample_from_le(low_byte(v), high_byte(v)) == v,
{
    assert((((((v as u16) & 0xff) as u8) as u16) | (((((v as u16) >> 8u16) as u8) as u16) << 8u16)) as i16 == v)
        by (bit_vector);
}

/// Decoding the little-endian layout of samples gives the samples back.
pub proof fn lemma_decode_le_bytes(s: Seq<i16>)
    ensures
        decode_le(le_bytes(s)) == s,
{
    let b = le_bytes(s);
    assert forall|k: int| 0 <= k < s.len() implies #[trigger] decode_le(b)[k] == s[k] by {
        assert((2 * k) % 2 == 0 && (2 * k) / 2 == k);
        assert((2 * k + 1) % 2 == 1 && (2 * k + 1) / 2 == k);
        lemma_sample_le_round_trip(s[k]);
    }
    assert(decode_le(b) =~= s);
}

/// Lays the samples out as little-endian bytes.
pub fn encode_le(values: &[i16]) -> (out: Vec<u8>)
    requires
        values@.len() <= isize::MAX / 2,
    ensures
        out@ == le_bytes(values@),
{
    let mut out: Vec<u8> = Vec::with_capacity(values.len() * 2);
    let mut i: usize = 0;
    while i < values.len()
        invariant
            i <= values@.len() <= isize::MAX / 2,
            out@.len() == 2 * i,
            forall|k: int| 0 <= k < 2 * i ==> #[trigger] out@[k] == le_bytes(values@)[k],
        decreases values@.len() - i,
    {
        let u: u16 = values[i] as u16;
        out.push((u & 0xff) as u8);
        out.push((u >> 8) as u8);
        proof {
            assert forall|k: int| 0 <= k < 2 * (i + 1) implies #[trigger] out@[k] == le_bytes(values@)[k] by {
                if k == 2 * i {
                    assert(k % 2 == 0 && k / 2 == i);
                } else if k == 2 * i + 1 {
                    assert(k % 2 == 1 && k / 2 == i);
                }
            }
        }
        i += 1;
    }
    assert(out@ =~= le_bytes(values@));
    out
}

/// Reads samples back from the first `max_bytes` bytes (or all of them when
/// there are fewer), two bytes per sample; an odd last byte is ignored.
pub fn decode_le_prefix(bytes: &[u8], max_bytes: usize) -> (out: Vec<i16>)
    ensures
        out@ == decode_le(bytes@.take(if bytes@.len() <= max_bytes { bytes@.len() as int } else { max_bytes as int })),
{
    let valid: usize = if bytes.len() <= max_bytes { bytes.len() } else { max_bytes };
    let ghost b = bytes@.take(valid as int);
    let n: usize = valid / 2;
    let mut out: Vec<i16> = Vec::with_capacity(n);
    let mut i: usize = 0;
    while i < n
        invariant
            n == valid / 2,
            valid <= bytes@.len(),
            b == bytes@.take(valid as int),
            i <= n,
            out@.len() == i,
            forall|k: int| 0 <= k < i ==> #[trigger] out@[k] == decode_le(b)[k],
        decreases n - i,
    {
        let lo: u16 = bytes[2 * i] as u16;
        let hi: u16 = bytes[2 * i + 1] as u16;
        out.push((lo | (hi << 8)) as i16);
        i += 1;
    }
    assert(out@ =~= decode_le(b));
    out
}

// ─── The cached chunk ───────────────────────────────────────────────────────

/// An unloaded chunk kept in memory: its quantized SDF samples, compressed
/// (or laid out raw when compression failed), and its column biome ids.
pub struct CachedChunkData {
    sdf_compressed: Vec<u8>,
    original_i16_count: usize,
    pub biome_ids: Vec<u8>,
}

impl CachedChunkData {
    /// The bytes kept for the SDF samples.
    pub closed spec fn stored_bytes(&self) -> Seq<u8> {
        self.sdf_compressed@
    }

    /// The biome ids kept with the samples.
    pub closed spec fn kept_biome_ids(&self) -> Seq<u8> {
        self.biome_ids@
    }

    /// How many SDF samples were cached.
    pub closed spec fn sample_count(&self) -> nat {
        self.original_i16_count as nat
    }

    /// The byte length of the samples' layout fits the address space.
    pub open spec fn wf(&self) -> bool {
        2 * self.sample_count() <= isize::MAX
    }

    /// The capacity handed to the decompressor: the byte length of the layout.
    pub open spec fn byte_capacity(&self) -> usize {
        (2 * self.sample_count()) as usize
    }

    /// The samples that reading the cache gives: the decompressed bytes, cut
    /// to the layout's length, decoded; none when decompression fails.
    pub open spec fn decoded_spec(&self) -> Seq<i16> {
        match zstd_decompressed(self.stored_bytes(), self.byte_capacity()) {
            Some(b) => decode_le(b.take(if b.len() <= self.byte_capacity() { b.len() as int } else { self.byte_capacity() as int })),
            None => Seq::empty(),
        }
    }

    /// Keeps `compressed` when compression succeeded, else the raw layout.
    pub fn from_encoded(count: usize, raw: Vec<u8>, compressed: Option<Vec<u8>>, biome_ids: Vec<u8>) -> (c: Self)
        requires
            2 * count <= isize::MAX,
        ensures
            c.wf(),
            c.sample_count() == count,
            c.kept_biome_ids() == biome_ids@,
            c.stored_bytes() == match compressed {
                Some(f) => f@,
                None => raw@,
            },
    {
        let sdf_compressed = match compressed {
            Some(f) => f,
            None => raw,
        };
        CachedChunkData { sdf_compressed, original_i16_count: count, biome_ids }
    }

    /// Caches quantized SDF samples: their little-endian layout, compressed at
    /// [`CACHE_ZSTD_LEVEL`] (kept raw if compression fails).
    pub fn from_quantized(sdf: &[i16], biome_ids: Vec<u8>) -> (c: Self)
        requires
            sdf@.len() <= isize::MAX / 4,
        ensures
            c.wf(),
            c.sample_count() == sdf@.len(),
            c.kept_biome_ids() == biome_ids@,
            c.stored_bytes() == match zstd_compressed(le_bytes(sdf@), CACHE_ZSTD_LEVEL) {
                Some(frame) => frame,
                None => le_bytes(sdf@),
            },
            zstd_compressed(le_bytes(sdf@), CACHE_ZSTD_LEVEL) is Some ==> c.decoded_spec() == sdf@,
    {
        let raw = encode_le(sdf);
        let compressed = zstd_compress(raw.as_slice(), CACHE_ZSTD_LEVEL);
        let c = Self::from_encoded(sdf.len(), raw, compressed, biome_ids);
        proof {
            if compressed is Some {
                lemma_cached_sdf_round_trip(c, sdf@);
            }
        }
        c
    }

    /// Reads the cached samples back (decompressed, then decoded).
    pub fn decoded_sdf(&self) -> (v: Vec<i16>)
        requires
            self.wf(),
        ensures
            v@ == self.decoded_spec(),
    {
        let capacity: usize = self.original_i16_count * 2;
        match zstd_decompress(self.sdf_compressed.as_slice(), capacity) {
            Some(bytes) => decode_le_prefix(bytes.as_slice(), capacity),
            None => Vec::new(),
        }
    }

    /// How many SDF samples were cached.
    pub fn sdf_count(&self) -> (n: usize)
        ensures
            n == self.sample_count(),
    {
        self.original_i16_count
    }

    /// Bytes held by the cache entry. (Two in-memory buffers hold at most
    /// `isize::MAX` bytes each, so their sum always fits; the addition
    /// saturates rather than assume it.)
    pub fn byte_size(&self) -> (n: usize)
        ensures
            self.stored_bytes().len() + self.kept_biome_ids().len() <= usize::MAX
                ==> n == self.stored_bytes().len() + self.kept_biome_ids().len(),
            self.stored_bytes().len() + self.kept_biome_ids().len() > usize::MAX ==> n == usize::MAX,
    {
        self.sdf_compressed.len().saturating_add(self.biome_ids.len())
    }
}

/// A cached chunk whose stored bytes are a zstd frame of the samples' layout
/// (what caching stores whenever compression succeeds) reads back exactly
/// those samples.
pub proof fn lemma_cached_sdf_round_trip(c: CachedChunkData, q: Seq<i16>)
    requires
        c.wf(),
        c.sample_count() == q.len(),
        zstd_decompressed(c.stored_bytes(), c.byte_capacity()) == Some(le_bytes(q)),
    ensures
        c.decoded_spec() == q,
{
    let b = le_bytes(q);
    assert(b.take(b.len() as int) =~= b);
    lemma_decode_le_bytes(q);
}

} // verus!
