use forgia::stage::{
    pick_poi_weighted, ramparts_wall_glb, role_places_anchor, splitmix64, stage_arena_step, stage_next_step, stage_severity,
    StageState, StageStep,
};

#[test]
fn state_as_str_round_trip() {
    assert_eq!(StageState::Idle.as_str(), "idle");
    assert_eq!(StageState::Loading.as_str(), "loading");
    assert_eq!(StageState::Ready.as_str(), "ready");
    assert_eq!(StageState::Error.as_str(), "error");
    assert_eq!(StageState::default(), StageState::Idle);
}

#[test]
fn splitmix64_deterministic() {
    let mut a = 42u64;
    let mut b = 42u64;
    assert_eq!(splitmix64(&mut a), splitmix64(&mut b));
    assert_eq!(a, b);
}

#[test]
fn pick_poi_weighted_empty_or_zero_is_none() {
    let mut s = 9u64;
    assert_eq!(pick_poi_weighted(&[], &mut s), None);
    assert_eq!(pick_poi_weighted(&[0, 0], &mut s), None);
    assert_eq!(s, 9);
}

#[test]
fn pick_poi_weighted_never_picks_a_zero_weight() {
    let mut s = 1234u64;
    for _ in 0..500 {
        let i = pick_poi_weighted(&[0, 3, 0, 5], &mut s).unwrap();
        assert!(i == 1 || i == 3);
    }
}

#[test]
fn pick_poi_weighted_follows_the_cumulated_weights() {
    let mut s = 0u64;
    let mut probe = 0u64;
    let r = (splitmix64(&mut probe) % 10) as u32;
    let expected = if r < 2 { 0 } else if r < 5 { 1 } else { 2 };
    assert_eq!(pick_poi_weighted(&[2, 3, 5], &mut s), Some(expected));
    assert_eq!(s, probe);
}

/// The default threshold, in seconds, after which a load is overdue.
const LOADING_WARN_SEC: f64 = 5.0;

fn overdue(elapsed: f64) -> bool {
    elapsed > LOADING_WARN_SEC
}

#[test]
fn severity_idle_is_info() {
    assert_eq!(stage_severity(StageState::Idle, overdue(0.0)), "info");
}

#[test]
fn severity_loading_short_is_info() {
    assert_eq!(stage_severity(StageState::Loading, overdue(2.0)), "info");
}

#[test]
fn severity_loading_sustained_is_warn() {
    assert_eq!(stage_severity(StageState::Loading, overdue(6.0)), "warn");
}

#[test]
fn severity_ready_is_ok() {
    assert_eq!(stage_severity(StageState::Ready, overdue(0.0)), "ok");
}

#[test]
fn severity_error_is_critical() {
    assert_eq!(stage_severity(StageState::Error, overdue(0.0)), "critical");
}

#[test]
fn next_step_idle_points_to_request_action() {
    let s = stage_next_step(StageState::Idle, overdue(0.0));
    assert!(s.contains("StageLoadRequest"));
}

#[test]
fn next_step_loading_sustained_points_to_prefab_sensor() {
    let s = stage_next_step(StageState::Loading, overdue(7.0));
    assert!(s.contains("forgia_prefab.json"));
    assert!(s.contains("roguelite_stages.toml"));
}

#[test]
fn next_step_error_points_to_error_message() {
    let s = stage_next_step(StageState::Error, overdue(0.0));
    assert!(s.contains("error_message"));
}

#[test]
fn ramparts_kits_map_to_their_wall_model() {
    assert_eq!(ramparts_wall_glb("kaykit_dungeon"), "models/kaykit/dungeon/wall.glb");
    assert_eq!(ramparts_wall_glb("medieval_hexagon"), "models/kaykit/medieval_hexagon/walls/wall_straight.gltf");
    assert_eq!(ramparts_wall_glb("unknown_kit"), "models/kaykit/dungeon/wall.glb");
    assert_eq!(ramparts_wall_glb("Medieval_Hexagon"), "models/kaykit/dungeon/wall.glb");
}

#[test]
fn decor_and_empty_roles_place_no_anchor() {
    assert!(!role_places_anchor("decor"));
    assert!(!role_places_anchor(""));
    assert!(role_places_anchor("inconnu"));
    assert!(role_places_anchor("boss_pad"));
    assert!(role_places_anchor("Decor"));
}

#[test]
fn stage_request_empty_is_ignored() {
    let mut last = String::from("crypts");
    assert_eq!(stage_arena_step(&mut last, StageState::Loading, "", true, true, true), (StageStep::Ignore, StageState::Loading));
    assert_eq!(last, "crypts");
}

#[test]
fn stage_request_spawns_once_then_is_idempotent() {
    let mut last = String::new();
    assert_eq!(stage_arena_step(&mut last, StageState::Idle, "crypts", false, true, true), (StageStep::Spawn, StageState::Ready));
    assert_eq!(last, "crypts");
    assert_eq!(stage_arena_step(&mut last, StageState::Ready, "crypts", true, true, true), (StageStep::Ignore, StageState::Ready));
    assert_eq!(last, "crypts");
}

#[test]
fn stage_request_waits_for_genomes_then_fails_on_unknown_stage() {
    let mut last = String::new();
    assert_eq!(stage_arena_step(&mut last, StageState::Idle, "nowhere", false, false, false), (StageStep::WaitForGenomes, StageState::Loading));
    assert_eq!(stage_arena_step(&mut last, StageState::Loading, "nowhere", false, true, false), (StageStep::Fail, StageState::Error));
    assert!(last.is_empty());
}

#[test]
fn stage_transition_despawns_previous_then_spawns_next() {
    let mut last = String::from("crypts");
    assert_eq!(stage_arena_step(&mut last, StageState::Ready, "forge", true, true, true), (StageStep::DespawnPrevious, StageState::Idle));
    assert!(last.is_empty());
    assert_eq!(stage_arena_step(&mut last, StageState::Idle, "forge", false, true, true), (StageStep::Spawn, StageState::Ready));
    assert_eq!(last, "forge");
}

#[test]
fn stage_same_id_not_ready_is_loaded_again() {
    let mut last = String::from("crypts");
    assert_eq!(stage_arena_step(&mut last, StageState::Error, "crypts", true, true, true), (StageStep::Spawn, StageState::Ready));
}
