use forgia::layout_verdict::{
    geometry_issue, next_step_for_layout, severity_for_geometry, severity_for_layout, GeometryFacts, GeometryIssue,
    LayoutFacts,
};

/// The layout facts of a measured layout: sight line over 40 m is too long,
/// over 35 m near the limit; a finite cover spacing under 3 m is too tight.
fn facts(
    longest_sightline_m: f32,
    min_cover_spacing_m: f32,
    cover_low_count: u32,
    palette_expects_cover_low: bool,
    instances_skipped: u32,
    modules_placed: usize,
) -> LayoutFacts {
    LayoutFacts {
        sightline_over_max: longest_sightline_m > 40.0,
        sightline_near_max: longest_sightline_m > 35.0,
        cover_spacing_too_tight: min_cover_spacing_m.is_finite() && min_cover_spacing_m < 3.0,
        cover_low_count,
        palette_expects_cover_low,
        instances_skipped,
        modules_placed,
    }
}

#[test]
fn severity_empty_layout_is_info() {
    assert_eq!(severity_for_layout(&facts(0.0, f32::INFINITY, 0, false, 0, 0)), "info");
}

#[test]
fn severity_healthy_layout_is_ok() {
    assert_eq!(severity_for_layout(&facts(25.0, 4.5, 6, true, 0, 9)), "ok");
}

#[test]
fn severity_sightline_over_40_is_error() {
    assert_eq!(severity_for_layout(&facts(42.0, 4.0, 6, true, 0, 9)), "error");
}

#[test]
fn severity_sightline_35_to_40_is_warn() {
    assert_eq!(severity_for_layout(&facts(37.5, 4.0, 6, true, 0, 9)), "warn");
}

#[test]
fn severity_cover_spacing_under_3_is_error() {
    assert_eq!(severity_for_layout(&facts(25.0, 2.5, 6, true, 0, 9)), "error");
}

#[test]
fn severity_palette_expects_cover_low_but_zero_is_error() {
    assert_eq!(severity_for_layout(&facts(25.0, f32::INFINITY, 0, true, 2, 5)), "error");
}

#[test]
fn severity_instances_skipped_is_warn() {
    assert_eq!(severity_for_layout(&facts(25.0, 4.0, 6, true, 3, 9)), "warn");
}

#[test]
fn next_step_sightline_over_40_mentions_toml() {
    let s = next_step_for_layout(&facts(42.0, 4.0, 6, true, 0, 9));
    assert!(s.contains("roguelite_stages.toml"));
    assert!(s.contains("cover_high"));
}

#[test]
fn next_step_spacing_violation_mentions_count_or_extent() {
    let s = next_step_for_layout(&facts(25.0, 2.5, 6, true, 0, 9));
    assert!(s.contains("count") || s.contains("extent"));
}

#[test]
fn next_step_empty_layout_mentions_stage_sensor() {
    let s = next_step_for_layout(&facts(0.0, f32::INFINITY, 0, false, 0, 0));
    assert!(s.contains("forgia2_stage.json") || s.contains("palette"));
}

fn healthy_geometry() -> GeometryFacts {
    GeometryFacts {
        solids: 12,
        authored_pending: 0,
        open_radius_over_max: false,
        under_covered: false,
        covers_too_close: false,
        sightline_over_max: false,
        mostly_beyond_falloff: false,
    }
}

#[test]
fn a_healthy_arena_is_ok() {
    assert_eq!(severity_for_geometry(&healthy_geometry()), "ok");
    assert_eq!(geometry_issue(&healthy_geometry()), GeometryIssue::Healthy);
}

#[test]
fn zero_solids_is_blind_never_ok() {
    let g = GeometryFacts { solids: 0, under_covered: true, ..healthy_geometry() };
    assert_eq!(severity_for_geometry(&g), "info");
    assert_eq!(geometry_issue(&g), GeometryIssue::Blind);
}

#[test]
fn a_partially_loaded_arena_refuses_to_conclude() {
    let g = GeometryFacts { authored_pending: 3, covers_too_close: true, ..healthy_geometry() };
    assert_eq!(severity_for_geometry(&g), "info");
    assert_eq!(geometry_issue(&g), GeometryIssue::SampleIncomplete);
}

#[test]
fn geometry_errors_come_before_warnings() {
    let g = GeometryFacts { open_radius_over_max: true, sightline_over_max: true, ..healthy_geometry() };
    assert_eq!(severity_for_geometry(&g), "error");
    assert_eq!(geometry_issue(&g), GeometryIssue::ShootingGallery);
    let g = GeometryFacts { under_covered: true, ..healthy_geometry() };
    assert_eq!(geometry_issue(&g), GeometryIssue::UnderCovered);
    let g = GeometryFacts { covers_too_close: true, ..healthy_geometry() };
    assert_eq!(severity_for_geometry(&g), "error");
    let g = GeometryFacts { sightline_over_max: true, ..healthy_geometry() };
    assert_eq!(severity_for_geometry(&g), "warn");
    let g = GeometryFacts { mostly_beyond_falloff: true, ..healthy_geometry() };
    assert_eq!(severity_for_geometry(&g), "warn");
    assert_eq!(geometry_issue(&g), GeometryIssue::BeyondFalloff);
}
