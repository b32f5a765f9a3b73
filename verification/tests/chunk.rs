use forgia::chunk::{index, initial_chunk_coords, ChunkCache, ChunkCoord, ChunkLod, CHUNK_CACHE_SIZE, PADDED_TOTAL, PAD_X, PAD_Y, PAD_Z};

#[test]
fn chunk_coord_distance_is_manhattan() {
    let a = ChunkCoord::new(1, 2);
    let b = ChunkCoord::new(4, -2);
    assert_eq!(a.distance(&b), 3 + 4);
}

#[test]
fn chunk_data_index_layout_round_trips() {
    let idx = index(1, 2, 3);
    let expected = 1 + PAD_X * (2 + PAD_Y * 3);
    assert_eq!(idx as u32, expected);
    assert_eq!(index(PAD_X - 1, PAD_Y - 1, PAD_Z - 1), PADDED_TOTAL - 1);
}

#[test]
fn chunk_manager_cache_skips_modified_chunks() {
    let mut cache: ChunkCache<Vec<u8>> = ChunkCache::new();
    let coord = ChunkCoord::new(0, 0);
    let mut compressed = false;
    cache.cache_unloaded(coord, true, || {
        compressed = true;
        vec![1]
    });
    assert!(!compressed, "a modified chunk is not even compressed");
    assert!(!cache.contains(coord));
    assert_eq!(cache.restore(coord), None);
    assert_eq!(cache.len(), 0);
}

#[test]
fn chunk_manager_cache_restores_non_modified() {
    let mut cache: ChunkCache<Vec<u8>> = ChunkCache::new();
    let coord = ChunkCoord::new(1, 2);
    cache.cache_unloaded(coord, false, || vec![7, 8]);
    assert!(cache.contains(coord));
    assert_eq!(cache.restore(coord), Some(vec![7, 8]));
    assert!(!cache.contains(coord));
    assert_eq!(cache.restore(coord), None);
}

#[test]
fn cache_never_holds_more_than_its_capacity() {
    let mut cache: ChunkCache<u32> = ChunkCache::new();
    for i in 0..(CHUNK_CACHE_SIZE as i32 + 20) {
        cache.cache(ChunkCoord::new(i, -i), i as u32);
    }
    assert_eq!(cache.len(), CHUNK_CACHE_SIZE);
    assert!(!cache.contains(ChunkCoord::new(0, 0)), "the oldest chunk was evicted");
    assert_eq!(cache.restore(ChunkCoord::new(147, -147)), Some(147));
}

#[test]
fn cache_keys_tell_negative_coordinates_apart() {
    assert_ne!(ChunkCoord::new(-1, 0).key(), ChunkCoord::new(0, -1).key());
    assert_ne!(ChunkCoord::new(-1, -1).key(), ChunkCoord::new(1, 1).key());
}

#[test]
fn lod_default_is_the_most_detailed() {
    assert_eq!(ChunkLod::default(), ChunkLod::Lod0);
}

#[test]
fn initial_chunks_fill_the_disc_row_by_row() {
    let c = ChunkCoord::new(10, -4);
    let v = initial_chunk_coords(c, 2);
    let expected: Vec<(i32, i32)> = vec![
        (10, -6),
        (9, -5), (10, -5), (11, -5),
        (8, -4), (9, -4), (10, -4), (11, -4), (12, -4),
        (9, -3), (10, -3), (11, -3),
        (10, -2),
    ];
    assert_eq!(v.iter().map(|k| (k.x, k.z)).collect::<Vec<_>>(), expected);
}

#[test]
fn initial_chunks_radius_is_capped_at_twelve() {
    let v = initial_chunk_coords(ChunkCoord::new(0, 0), 40);
    let mut n = 0;
    for dz in -12i32..=12 {
        for dx in -12i32..=12 {
            if dx * dx + dz * dz <= 144 {
                n += 1;
            }
        }
    }
    assert_eq!(v.len(), n);
    assert!(v.iter().all(|k| k.x.abs() <= 12 && k.z.abs() <= 12));
    assert!(initial_chunk_coords(ChunkCoord::new(0, 0), -3).is_empty());
    assert_eq!(initial_chunk_coords(ChunkCoord::new(5, 5), 0), vec![ChunkCoord::new(5, 5)]);
}
