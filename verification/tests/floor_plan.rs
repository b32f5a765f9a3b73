use forgia::floor_plan::{
    content_cache_key, content_hash, merged_static_step, scenes_ready, tile_variant_kind, tile_yaw_quarter, MergeStep,
    PoseWords,
};

/// Pose words of a transform: translation, rotation (quaternion), scale.
fn words(t: [f32; 3], r: [f32; 4], s: [f32; 3]) -> PoseWords {
    [
        t[0].to_bits(), t[1].to_bits(), t[2].to_bits(),
        r[0].to_bits(), r[1].to_bits(), r[2].to_bits(), r[3].to_bits(),
        s[0].to_bits(), s[1].to_bits(), s[2].to_bits(),
    ]
}

const IDENTITY: [f32; 4] = [0.0, 0.0, 0.0, 1.0];

fn pose(x: f32, z: f32) -> (u8, PoseWords) {
    (0, words([x, 0.0, z], IDENTITY, [1.0; 3]))
}

fn reference_fnv(bytes: &[u8], mut h: u64) -> u64 {
    for b in bytes {
        h ^= u64::from(*b);
        h = h.wrapping_mul(0x0000_0100_0000_01B3);
    }
    h
}

#[test]
fn two_different_layouts_never_share_a_key() {
    let a = content_cache_key("rooms", &[pose(0.0, 0.0), pose(4.0, 0.0)], &[]);
    let b = content_cache_key("rooms", &[pose(0.0, 0.0), pose(8.0, 0.0)], &[]);
    assert_ne!(a, b);
}

#[test]
fn the_same_layout_still_hits_the_cache() {
    let plan = [pose(0.0, 0.0), pose(4.0, 0.0), pose(8.0, 0.0)];
    assert_eq!(content_cache_key("floor", &plan, &[]), content_cache_key("floor", &plan, &[]));
}

#[test]
fn a_different_count_of_walls_changes_the_key() {
    let short = [pose(0.0, 0.0), pose(4.0, 0.0)];
    let long = [pose(0.0, 0.0), pose(4.0, 0.0), pose(8.0, 0.0)];
    assert_ne!(content_cache_key("rooms", &short, &[]), content_cache_key("rooms", &long, &[]));
}

#[test]
fn rotation_alone_changes_the_key() {
    let half = std::f32::consts::FRAC_PI_4;
    let flat = [(0u8, words([0.0; 3], IDENTITY, [1.0; 3]))];
    let turned = [(0u8, words([0.0; 3], [0.0, half.sin(), 0.0, half.cos()], [1.0; 3]))];
    assert_ne!(content_cache_key("rooms", &flat, &[]), content_cache_key("rooms", &turned, &[]));
}

#[test]
fn the_tile_kind_changes_the_key() {
    let clean = [(0u8, words([0.0; 3], IDENTITY, [1.0; 3]))];
    let rocks = [(2u8, words([0.0; 3], IDENTITY, [1.0; 3]))];
    assert_ne!(content_cache_key("floor", &clean, &[]), content_cache_key("floor", &rocks, &[]));
}

#[test]
fn two_labels_with_identical_poses_stay_separate() {
    let plan = [pose(1.0, 2.0)];
    assert_ne!(content_cache_key("floor", &plan, &[]), content_cache_key("rooms", &plan, &[]));
}

#[test]
fn an_empty_plan_has_a_key_of_its_own() {
    assert_ne!(content_cache_key("rooms", &[], &[]), content_cache_key("rooms", &[pose(0.0, 0.0)], &[]));
}

#[test]
fn the_key_is_stable_across_calls_within_a_process() {
    let plan = [pose(3.0, 7.0)];
    let first = content_cache_key("walls", &plan, &[]);
    for _ in 0..5 {
        assert_eq!(content_cache_key("walls", &plan, &[]), first);
    }
    assert!(first.starts_with("walls:"), "label lisible en log : {first}");
}

#[test]
fn the_key_is_the_label_and_sixteen_hex_digits_of_the_hash() {
    let h = reference_fnv(b"rooms", 0xCBF2_9CE4_8422_2325);
    assert_eq!(content_hash("rooms", &[], &[]), h);
    assert_eq!(content_cache_key("rooms", &[], &[]), format!("rooms:{h:016x}"));

    let plan = [pose(1.5, -2.0)];
    let scenes = vec![b"models/wall.glb".to_vec()];
    let mut bytes = b"walls".to_vec();
    bytes.extend_from_slice(b"models/wall.glb");
    bytes.push(0);
    for w in plan[0].1 {
        bytes.extend_from_slice(&w.to_le_bytes());
    }
    let h = reference_fnv(&bytes, 0xCBF2_9CE4_8422_2325);
    assert_eq!(content_cache_key("walls", &plan, &scenes), format!("walls:{h:016x}"));
}

#[test]
fn source_scenes_change_the_key() {
    let plan = [pose(0.0, 0.0)];
    let a = content_cache_key("walls", &plan, &[b"kit_a.glb".to_vec()]);
    let b = content_cache_key("walls", &plan, &[b"kit_b.glb".to_vec()]);
    assert_ne!(a, b);
}

#[test]
fn yaw_is_quarter_turns() {
    // Every tile of a 40 m arena tiled by 4 m.
    for tx in -10..=10 {
        for tz in -10..=10 {
            let q = tile_yaw_quarter(tx, tz);
            assert!((0..4).contains(&q), "yaw non quantifié: {}", q);
            assert_eq!(q, (tx.wrapping_mul(7) ^ tz.wrapping_mul(13)).rem_euclid(4));
        }
    }
    assert_eq!(tile_yaw_quarter(i32::MIN, i32::MAX), (i32::MIN.wrapping_mul(7) ^ i32::MAX.wrapping_mul(13)).rem_euclid(4));
}

#[test]
fn variants_split_on_bit_sixteen() {
    assert_eq!(tile_variant_kind(0), 1);
    assert_eq!(tile_variant_kind(0x0001_0000), 2);
    assert_eq!(tile_variant_kind(0xFFFE_FFFF), 1);
    assert_eq!(tile_variant_kind(u32::MAX), 2);
}

#[test]
fn merged_static_step_orders_its_guards() {
    assert_eq!(merged_static_step("crypts", "forge", true, true, true), MergeStep::DiscardStale);
    assert_eq!(merged_static_step("crypts", "", false, false, false), MergeStep::DiscardStale);
    assert_eq!(merged_static_step("crypts", "crypts", true, false, true), MergeStep::ReuseCached);
    assert_eq!(merged_static_step("crypts", "crypts", false, false, false), MergeStep::Wait);
    assert_eq!(merged_static_step("crypts", "crypts", false, false, true), MergeStep::FallbackIndividual);
    assert_eq!(merged_static_step("crypts", "crypts", false, true, true), MergeStep::Merge);
}

#[test]
fn scenes_ready_needs_a_mesh_for_every_used_scene() {
    assert!(scenes_ready(&[0, 2, 2], &[1, 0, 3]), "scene 1 is unused");
    assert!(!scenes_ready(&[0, 1], &[1, 0, 3]));
    assert!(scenes_ready(&[], &[]));
}
