use forgia::chunk::{COLUMNS, PADDED_TOTAL};
use forgia::sdf_cache::{decode_le_prefix, encode_le, CachedChunkData};

#[test]
fn samples_are_laid_out_little_endian() {
    assert_eq!(encode_le(&[1, -2, 0x1234]), vec![0x01, 0x00, 0xFE, 0xFF, 0x34, 0x12]);
    assert_eq!(encode_le(&[]), Vec::<u8>::new());
}

#[test]
fn decoding_stops_at_the_limit_and_ignores_an_odd_byte() {
    let bytes = [0x01, 0x00, 0xFE, 0xFF, 0x34];
    assert_eq!(decode_le_prefix(&bytes, 100), vec![1, -2]);
    assert_eq!(decode_le_prefix(&bytes, 3), vec![1]);
    assert_eq!(decode_le_prefix(&bytes, 0), Vec::<i16>::new());
}

#[test]
fn cached_samples_read_back_exactly() {
    let q: Vec<i16> = vec![150, -200, 0, 18000, -18000, 0, -0, i16::MIN, i16::MAX, 73, -73];
    let c = CachedChunkData::from_quantized(&q, vec![3, 1, 4]);
    assert_eq!(c.sdf_count(), q.len());
    assert_eq!(c.decoded_sdf(), q);
    assert_eq!(c.biome_ids, vec![3, 1, 4]);
}

#[test]
fn cache_bytes_is_far_smaller_than_f32_equivalent() {
    // An all-air chunk: every sample is 1.0, quantized to 100 (centimetres).
    let q = vec![100i16; PADDED_TOTAL];
    let c = CachedChunkData::from_quantized(&q, vec![0u8; COLUMNS]);
    let stored = c.byte_size();
    let f32_equiv = PADDED_TOTAL * std::mem::size_of::<f32>() + COLUMNS * std::mem::size_of::<u8>();
    assert!(stored < f32_equiv, "cache {stored} B must be smaller than f32 equivalent {f32_equiv} B");
    let raw_i16 = PADDED_TOTAL * std::mem::size_of::<i16>();
    assert!(stored < raw_i16 / 4, "all-air chunk should compress well");
    assert_eq!(c.decoded_sdf(), q);
}

#[test]
fn a_varied_chunk_reads_back() {
    let q: Vec<i16> = (0..PADDED_TOTAL).map(|i| ((i as i64 * 7919) % 65536 - 32768) as i16).collect();
    let c = CachedChunkData::from_quantized(&q, vec![7u8; COLUMNS]);
    assert_eq!(c.decoded_sdf(), q);
}

#[test]
fn raw_bytes_are_kept_when_there_is_no_frame() {
    let raw = encode_le(&[5, 6]);
    let c = CachedChunkData::from_encoded(2, raw.clone(), None, vec![]);
    assert_eq!(c.byte_size(), raw.len());
    let c = CachedChunkData::from_encoded(2, raw, Some(vec![1, 2, 3]), vec![9]);
    assert_eq!(c.byte_size(), 4);
}
