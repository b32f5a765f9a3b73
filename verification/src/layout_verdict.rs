//! Verdicts of the arena-layout sensor: the module-placement diagnosis and
//! the verdict on the geometry actually placed, each from the sensor's
//! observations with every measured length already compared to its limit.

use vstd::prelude::*;

verus! {

/// What the module-placement sensor observed.
#[derive(Debug, Clone, Copy)]
pub struct LayoutFacts {
    /// The spawn-to-boss sight line exceeds 40 m.
    pub sightline_over_max: bool,
    /// The sight line exceeds 35 m (close to the limit).
    pub sightline_near_max: bool,
    /// The smallest spacing between covers is measured and under 3 m.
    pub cover_spacing_too_tight: bool,
    pub cover_low_count: u32,
    pub palette_expects_cover_low: bool,
    pub instances_skipped: u32,
    pub modules_placed: usize,
}

/// The first problem of a module layout, in order of precedence.
#[derive(Debug, Clone, Copy, PartialEq, Eq, Structural)]
pub enum LayoutIssue {
    NothingPlaced,
    SightlineTooLong,
    CoversTooClose,
    MissingCoverLow,
    SightlineNearLimit,
    InstancesSkipped,
    Healthy,
}

pub open spec fn layout_issue_spec(f: LayoutFacts) -> LayoutIssue {
    if f.modules_placed == 0 {
        LayoutIssue::NothingPlaced
    } else if f.sightline_over_max {
        LayoutIssue::SightlineTooLong
    } else if f.cover_spacing_too_tight {
        LayoutIssue::CoversTooClose
    } else if f.palette_expects_cover_low && f.cover_low_count == 0 {
        LayoutIssue::MissingCoverLow
    } else if f.sightline_near_max {
        LayoutIssue::SightlineNearLimit
    } else if f.instances_skipped > 0 {
        LayoutIssue::InstancesSkipped
    } else {
        LayoutIssue::Healthy
    }
}

/// The first problem of a module layout: nothing placed, then the errors
/// (sight line, cover spacing, missing low cover), then the warnings.
pub fn layout_issue(f: &LayoutFacts) -> (i: LayoutIssue)
    ensures
        i == layout_issue_spec(*f),
{
    if f.modules_placed == 0 {
        LayoutIssue::NothingPlaced
    } else if f.sightline_over_max {
        LayoutIssue::SightlineTooLong
    } else if f.cover_spacing_too_tight {
        LayoutIssue::CoversTooClose
    } else if f.palette_expects_cover_low && f.cover_low_count == 0 {
        LayoutIssue::MissingCoverLow
    } else if f.sightline_near_max {
        LayoutIssue::SightlineNearLimit
    } else if f.instances_skipped > 0 {
        LayoutIssue::InstancesSkipped
    } else {
        LayoutIssue::Healthy
    }
}

pub open spec fn layout_severity_text(i: LayoutIssue) -> Seq<char> {
    match i {
        LayoutIssue::NothingPlaced => "info"@,
        LayoutIssue::SightlineTooLong | LayoutIssue::CoversTooClose | LayoutIssue::MissingCoverLow => "error"@,
        LayoutIssue::SightlineNearLimit | LayoutIssue::InstancesSkipped => "warn"@,
        LayoutIssue::Healthy => "ok"@,
    }
}

/// Severity of the module layout.
pub fn severity_for_layout(f: &LayoutFacts) -> (s: &'static str)
    ensures
        s@ == layout_severity_text(layout_issue_spec(*f)),
{
    match layout_issue(f) {
        LayoutIssue::NothingPlaced => "info",
        LayoutIssue::SightlineTooLong | LayoutIssue::CoversTooClose | LayoutIssue::MissingCoverLow => "error",
        LayoutIssue::SightlineNearLimit | LayoutIssue::InstancesSkipped => "warn",
        LayoutIssue::Healthy => "ok",
    }
}

pub open spec fn layout_next_step_text(i: LayoutIssue) -> Seq<char> {
    match i {
        LayoutIssue::NothingPlaced => "No modules placed yet. If stage Ready and palette non-empty, check `forgia2_stage.json` state — palette may be empty in `roguelite_stages.toml`."@,
        LayoutIssue::SightlineTooLong => "Sight-line PlayerSpawn↔BossPad exceeds 40m (COD WW2 engagement comfort). Increase `cover_high_wall.count` in current stage palette in `assets/genomes/roguelite_stages.toml`."@,
        LayoutIssue::CoversTooClose => "Cover spacing violated (< 3.0m, Level Design Book rule). Reduce `cover_low_cluster.count` or increase `arena_extent_m` in stage def."@,
        LayoutIssue::MissingCoverLow => "Palette expected cover_low but 0 placed. Check `forgia2_stage_layout.json instances_skipped` — palette may be too dense for extent."@,
        LayoutIssue::SightlineNearLimit => "Sight-line approaching 40m limit. Consider adding 1 CoverHigh between PlayerSpawn and BossPad — edit `assets/genomes/roguelite_stages.toml`."@,
        LayoutIssue::InstancesSkipped => "Some module instances failed placement (dart-throw exhausted). Reduce `count` or increase `arena_extent_m`."@,
        LayoutIssue::Healthy => "Layout healthy. Stage spatial identity active."@,
    }
}

/// Actionable next step for the module layout.
pub fn next_step_for_layout(f: &LayoutFacts) -> (s: &'static str)
    ensures
        s@ == layout_next_step_text(layout_issue_spec(*f)),
{
    match layout_issue(f) {
        LayoutIssue::NothingPlaced => "No modules placed yet. If stage Ready and palette non-empty, check `forgia2_stage.json` state — palette may be empty in `roguelite_stages.toml`.",
        LayoutIssue::SightlineTooLong => "Sight-line PlayerSpawn↔BossPad exceeds 40m (COD WW2 engagement comfort). Increase `cover_high_wall.count` in current stage palette in `assets/genomes/roguelite_stages.toml`.",
        LayoutIssue::CoversTooClose => "Cover spacing violated (< 3.0m, Level Design Book rule). Reduce `cover_low_cluster.count` or increase `arena_extent_m` in stage def.",
        LayoutIssue::MissingCoverLow => "Palette expected cover_low but 0 placed. Check `forgia2_stage_layout.json instances_skipped` — palette may be too dense for extent.",
        LayoutIssue::SightlineNearLimit => "Sight-line approaching 40m limit. Consider adding 1 CoverHigh between PlayerSpawn and BossPad — edit `assets/genomes/roguelite_stages.toml`.",
        LayoutIssue::InstancesSkipped => "Some module instances failed placement (dart-throw exhausted). Reduce `count` or increase `arena_extent_m`.",
        LayoutIssue::Healthy => "Layout healthy. Stage spatial identity active.",
    }
}

/// What the sensor measured on the geometry actually placed.
#[derive(Debug, Clone, Copy)]
pub struct GeometryFacts {
    /// Solids measured; zero means the sensor saw nothing.
    pub solids: usize,
    /// Authored pieces whose model has not arrived yet.
    pub authored_pending: u32,
    /// No cover lies within the widest sourced spacing (10 m) of the spawn.
    pub open_radius_over_max: bool,
    /// Fewer than half the expected covers.
    pub under_covered: bool,
    /// Two covers are measured closer than the sourced minimum (3 m).
    pub covers_too_close: bool,
    /// The longest sight line exceeds 40 m.
    pub sightline_over_max: bool,
    /// More than half of the sight lines exceed the weapons' full-damage range.
    pub mostly_beyond_falloff: bool,
}

/// The verdict on the placed geometry, in order of gravity.
#[derive(Debug, Clone, Copy, PartialEq, Eq, Structural)]
pub enum GeometryIssue {
    Blind,
    SampleIncomplete,
    ShootingGallery,
    UnderCovered,
    CoversTooClose,
    LongSightline,
    BeyondFalloff,
    Healthy,
}

pub open spec fn geometry_issue_spec(f: GeometryFacts) -> GeometryIssue {
    if f.solids == 0 {
        GeometryIssue::Blind
    } else if f.authored_pending > 0 {
        GeometryIssue::SampleIncomplete
    } else if f.open_radius_over_max {
        GeometryIssue::ShootingGallery
    } else if f.under_covered {
        GeometryIssue::UnderCovered
    } else if f.covers_too_close {
        GeometryIssue::CoversTooClose
    } else if f.sightline_over_max {
        GeometryIssue::LongSightline
    } else if f.mostly_beyond_falloff {
        GeometryIssue::BeyondFalloff
    } else {
        GeometryIssue::Healthy
    }
}

/// The verdict on the placed geometry: nothing is concluded from an empty or
/// incomplete sample; then the errors, then the warnings.
pub fn geometry_issue(f: &GeometryFacts) -> (i: GeometryIssue)
    ensures
        i == geometry_issue_spec(*f),
{
    if f.solids == 0 {
        GeometryIssue::Blind
    } else if f.authored_pending > 0 {
        GeometryIssue::SampleIncomplete
    } else if f.open_radius_over_max {
        GeometryIssue::ShootingGallery
    } else if f.under_covered {
        GeometryIssue::UnderCovered
    } else if f.covers_too_close {
        GeometryIssue::CoversTooClose
    } else if f.sightline_over_max {
        GeometryIssue::LongSightline
    } else if f.mostly_beyond_falloff {
        GeometryIssue::BeyondFalloff
    } else {
        GeometryIssue::Healthy
    }
}

pub open spec fn geometry_severity_text(i: GeometryIssue) -> Seq<char> {
    match i {
        GeometryIssue::Blind | GeometryIssue::SampleIncomplete => "info"@,
        GeometryIssue::ShootingGallery | GeometryIssue::UnderCovered | GeometryIssue::CoversTooClose => "error"@,
        GeometryIssue::LongSightline | GeometryIssue::BeyondFalloff => "warn"@,
        GeometryIssue::Healthy => "ok"@,
    }
}

/// Severity of the placed geometry.
pub fn severity_for_geometry(f: &GeometryFacts) -> (s: &'static str)
    ensures
        s@ == geometry_severity_text(geometry_issue_spec(*f)),
{
    match geometry_issue(f) {
        GeometryIssue::Blind | GeometryIssue::SampleIncomplete => "info",
        GeometryIssue::ShootingGallery | GeometryIssue::UnderCovered | GeometryIssue::CoversTooClose => "error",
        GeometryIssue::LongSightline | GeometryIssue::BeyondFalloff => "warn",
        GeometryIssue::Healthy => "ok",
    }
}

/// The sensor never turns green without having seen something: with no solid
/// measured, or authored pieces still loading, the severity is `info`.
pub proof fn lemma_blind_sensor_is_never_ok(f: GeometryFacts)
    requires
        f.solids == 0 || f.authored_pending > 0,
    ensures
        geometry_severity_text(geometry_issue_spec(f)) == "info"@,
{
}

/// The layout severity, from the facts: `info` exactly when nothing is
/// placed; otherwise `error` exactly when the sight line is over 40 m, covers
/// are too close, or a palette that expects low cover got none; otherwise
/// `warn` exactly when the sight line nears the limit or instances were
/// skipped; otherwise `ok`. In particular, low cover is only ever required of
/// a palette that asks for it.
pub proof fn lemma_layout_severity_rules(f: LayoutFacts)
    ensures
        layout_severity_text(layout_issue_spec(f)) == "info"@ <==> f.modules_placed == 0,
        layout_severity_text(layout_issue_spec(f)) == "error"@ <==> f.modules_placed > 0 && (f.sightline_over_max
            || f.cover_spacing_too_tight || (f.palette_expects_cover_low && f.cover_low_count == 0)),
        layout_severity_text(layout_issue_spec(f)) == "warn"@ <==> f.modules_placed > 0 && !f.sightline_over_max
            && !f.cover_spacing_too_tight && !(f.palette_expects_cover_low && f.cover_low_count == 0)
            && (f.sightline_near_max || f.instances_skipped > 0),
        layout_severity_text(layout_issue_spec(f)) == "ok"@ <==> f.modules_placed > 0 && !f.sightline_over_max
            && !f.cover_spacing_too_tight && !(f.palette_expects_cover_low && f.cover_low_count == 0)
            && !f.sightline_near_max && f.instances_skipped == 0,
        layout_issue_spec(f) == LayoutIssue::MissingCoverLow ==> f.palette_expects_cover_low && f.cover_low_count == 0,
        layout_issue_spec(f) == LayoutIssue::Healthy <==> layout_severity_text(layout_issue_spec(f)) == "ok"@,
{
    reveal_strlit("info");
    reveal_strlit("error");
    reveal_strlit("warn");
    reveal_strlit("ok");
    assert("info"@.len() == 4 && "error"@.len() == 5 && "warn"@.len() == 4 && "ok"@.len() == 2);
    assert("info"@[0] != "warn"@[0]);
}

/// The geometry severity, from the facts: `info` exactly when nothing was
/// measured or authored pieces are still loading; otherwise `error` exactly
/// when the spawn is open, covers are too few or too close; otherwise `warn`
/// exactly when a sight line is too long or most are beyond fall-off;
/// otherwise `ok`.
pub proof fn lemma_geometry_severity_rules(f: GeometryFacts)
    ensures
        geometry_severity_text(geometry_issue_spec(f)) == "info"@ <==> f.solids == 0 || f.authored_pending > 0,
        geometry_severity_text(geometry_issue_spec(f)) == "error"@ <==> f.solids > 0 && f.authored_pending == 0
            && (f.open_radius_over_max || f.under_covered || f.covers_too_close),
        geometry_severity_text(geometry_issue_spec(f)) == "warn"@ <==> f.solids > 0 && f.authored_pending == 0
            && !f.open_radius_over_max && !f.under_covered && !f.covers_too_close
            && (f.sightline_over_max || f.mostly_beyond_falloff),
        geometry_severity_text(geometry_issue_spec(f)) == "ok"@ <==> f.solids > 0 && f.authored_pending == 0
            && !f.open_radius_over_max && !f.under_covered && !f.covers_too_close
            && !f.sightline_over_max && !f.mostly_beyond_falloff,
        geometry_issue_spec(f) == GeometryIssue::Healthy <==> geometry_severity_text(geometry_issue_spec(f)) == "ok"@,
{
    reveal_strlit("info");
    reveal_strlit("error");
    reveal_strlit("warn");
    reveal_strlit("ok");
    assert("info"@.len() == 4 && "error"@.len() == 5 && "warn"@.len() == 4 && "ok"@.len() == 2);
    assert("info"@[0] != "warn"@[0]);
}

} // verus!
