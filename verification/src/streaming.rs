//! Streaming bookkeeping: eviction counters over the sensor window, the
//! bounded log of recent evictions, foliage coverage, and the shape checks of
//! an authored cell manifest.

use vstd::prelude::*;
use std::collections::VecDeque;

verus! {

/// Why a chunk was evicted.
#[derive(Debug, Clone, Copy, PartialEq, Eq, Structural)]
pub enum EvictionReason {
    Distance,
    Budget,
    LodDemotion,
    Manual,
}

/// Evictions counted per reason over the current sensor window.
#[derive(Debug, Clone, Copy)]
pub struct EvictionCounters {
    pub distance: u32,
    pub budget: u32,
    pub lod_demotion: u32,
    pub manual: u32,
}

impl Default for EvictionCounters {
    fn default() -> (c: Self)
        ensures
            c.distance == 0 && c.budget == 0 && c.lod_demotion == 0 && c.manual == 0,
    {
        EvictionCounters { distance: 0, budget: 0, lod_demotion: 0, manual: 0 }
    }
}

/// Sum of the four counters.
pub open spec fn counters_total(c: EvictionCounters) -> int {
    c.distance + c.budget + c.lod_demotion + c.manual
}

/// The counter that `reason` increments.
pub open spec fn counter_of(c: EvictionCounters, reason: EvictionReason) -> u32 {
    match reason {
        EvictionReason::Distance => c.distance,
        EvictionReason::Budget => c.budget,
        EvictionReason::LodDemotion => c.lod_demotion,
        EvictionReason::Manual => c.manual,
    }
}

impl EvictionCounters {
    /// Counts one eviction for `reason`; the other counters are unchanged.
    pub fn record(&mut self, reason: EvictionReason)
        requires
            counter_of(*old(self), reason) < u32::MAX,
        ensures
            counter_of(*final(self), reason) == counter_of(*old(self), reason) + 1,
            forall|r: EvictionReason| r != reason ==> counter_of(*final(self), r) == counter_of(*old(self), r),
            counters_total(*final(self)) == counters_total(*old(self)) + 1,
    {
        match reason {
            EvictionReason::Distance => self.distance += 1,
            EvictionReason::Budget => self.budget += 1,
            EvictionReason::LodDemotion => self.lod_demotion += 1,
            EvictionReason::Manual => self.manual += 1,
        }
    }

    /// Total evictions over the window.
    pub fn total(&self) -> (t: u32)
        requires
            counters_total(*self) <= u32::MAX,
        ensures
            t == counters_total(*self),
    {
        self.distance + self.budget + self.lod_demotion + self.manual
    }
}

/// Capacity of the log of recent evictions.
pub const RECENT_EVICTIONS_CAP: usize = 32;

/// The log after pushing `ev`: the oldest entry leaves when the log is full.
pub open spec fn pushed_log<T>(log: Seq<T>, ev: T) -> Seq<T> {
    if log.len() >= RECENT_EVICTIONS_CAP {
        log.drop_first().push(ev)
    } else {
        log.push(ev)
    }
}

/// Per-reason counters and the most recent evictions (newest last).
pub struct EvictionLog<T> {
    pub counters: EvictionCounters,
    pub recent: VecDeque<T>,
}

impl<T> EvictionLog<T> {
    /// An empty log.
    pub fn new() -> (l: Self)
        ensures
            counters_total(l.counters) == 0,
            l.recent@.len() == 0,
    {
        EvictionLog { counters: EvictionCounters::default(), recent: VecDeque::new() }
    }

    /// Records an eviction: its reason is counted and the event is appended to
    /// the recent log, dropping the oldest event when the log holds 32.
    pub fn record_eviction(&mut self, reason: EvictionReason, ev: T)
        requires
            counter_of(old(self).counters, reason) < u32::MAX,
        ensures
            counter_of(final(self).counters, reason) == counter_of(old(self).counters, reason) + 1,
            forall|r: EvictionReason| r != reason ==> counter_of(final(self).counters, r)
                == counter_of(old(self).counters, r),
            final(self).recent@ == pushed_log(old(self).recent@, ev),
            old(self).recent@.len() <= RECENT_EVICTIONS_CAP ==> final(self).recent@.len() <= RECENT_EVICTIONS_CAP,
    {
        self.counters.record(reason);
        if self.recent.len() >= RECENT_EVICTIONS_CAP {
            self.recent.pop_front();
        }
        self.recent.push_back(ev);
    }
}

/// Chunks loaded versus chunks whose vegetation was placed.
#[derive(Debug, Clone, Copy)]
pub struct FoliageCoverageReport {
    pub chunks_loaded: u32,
    pub chunks_with_veg: u32,
}

impl Default for FoliageCoverageReport {
    fn default() -> (r: Self)
        ensures
            r.chunks_loaded == 0 && r.chunks_with_veg == 0,
    {
        FoliageCoverageReport { chunks_loaded: 0, chunks_with_veg: 0 }
    }
}

impl FoliageCoverageReport {
    /// Loaded chunks still without vegetation (0 when the report is ahead).
    pub fn without_veg(&self) -> (n: u32)
        ensures
            n == if self.chunks_loaded >= self.chunks_with_veg {
                (self.chunks_loaded - self.chunks_with_veg) as u32
            } else {
                0
            },
    {
        self.chunks_loaded.saturating_sub(self.chunks_with_veg)
    }
}

/// The only cell-manifest schema version this reader understands.
pub const SCHEMA_VERSION: u32 = 1;

/// What is wrong with the shape of a cell manifest.
#[derive(Debug, Clone, Copy, PartialEq, Eq, Structural)]
pub enum ManifestShapeError {
    /// Unknown schema version (found, expected).
    Version { trouvee: u32, attendue: u32 },
    /// No cell at all: the map would be invisible.
    Vide,
}

/// Accepts a manifest of the known schema version with at least one cell;
/// the version is checked first.
pub fn check_manifest_shape(schema_version: u32, cell_count: usize) -> (r: Result<(), ManifestShapeError>)
    ensures
        schema_version != SCHEMA_VERSION ==> r == Err::<(), ManifestShapeError>(
            ManifestShapeError::Version { trouvee: schema_version, attendue: SCHEMA_VERSION }),
        schema_version == SCHEMA_VERSION && cell_count == 0 ==> r == Err::<(), ManifestShapeError>(ManifestShapeError::Vide),
        r is Ok <==> schema_version == SCHEMA_VERSION && cell_count > 0,
{
    if schema_version != SCHEMA_VERSION {
        return Err(ManifestShapeError::Version { trouvee: schema_version, attendue: SCHEMA_VERSION });
    }
    if cell_count == 0 {
        return Err(ManifestShapeError::Vide);
    }
    Ok(())
}

// ─── Generation-time histogram ──────────────────────────────────────────────

/// Number of log2 buckets of the chunk generation-time histogram.
pub const GEN_MS_BUCKET_COUNT: usize = 16;

/// Samples counted in the first `n` buckets.
pub open spec fn prefix_total(b: Seq<u32>, n: nat) -> int
    decreases n,
{
    if n == 0 {
        0
    } else {
        prefix_total(b, (n - 1) as nat) + b[n - 1]
    }
}

/// Samples counted in buckets `0..=i`.
pub open spec fn total_through(b: Seq<u32>, i: nat) -> int {
    prefix_total(b, i + 1)
}

/// The first bucket at or after `from` whose cumulative count reaches
/// `target`; `b.len()` when none does.
pub open spec fn first_reaching(b: Seq<u32>, target: int, from: nat) -> nat
    decreases b.len() - from,
{
    if from >= b.len() {
        b.len()
    } else if total_through(b, from) >= target {
        from
    } else {
        first_reaching(b, target, from + 1)
    }
}

proof fn lemma_prefix_total_monotone(b: Seq<u32>, m: nat, n: nat)
    requires
        m <= n <= b.len(),
    ensures
        0 <= prefix_total(b, m) <= prefix_total(b, n) <= n * (u32::MAX as int),
    decreases n,
{
    if n > 0 {
        if m < n {
            lemma_prefix_total_monotone(b, m, (n - 1) as nat);
        } else {
            lemma_prefix_total_monotone(b, (n - 1) as nat, (n - 1) as nat);
        }
    }
}

proof fn lemma_first_reaching(b: Seq<u32>, target: int, from: nat)
    requires
        from <= b.len(),
    ensures
        from <= first_reaching(b, target, from) <= b.len(),
        first_reaching(b, target, from) < b.len() ==> total_through(b, first_reaching(b, target, from)) >= target,
        forall|j: nat| from <= j < first_reaching(b, target, from) ==> #[trigger] total_through(b, j) < target,
    decreases b.len() - from,
{
    if from < b.len() && total_through(b, from) < target {
        lemma_first_reaching(b, target, from + 1);
    }
}

/// Counts of chunk generation times: bucket 0 holds samples under 1 ms,
/// bucket `i` those in `[2^i, 2^(i+1))` ms, the last one everything longer.
#[derive(Debug, Clone, Copy)]
pub struct GenMsBuckets {
    pub buckets: [u32; 16],
    pub sample_count: u64,
}

impl Default for GenMsBuckets {
    fn default() -> (h: Self)
        ensures
            h.buckets@ == Seq::new(16, |i: int| 0u32),
            h.sample_count == 0,
    {
        let h = GenMsBuckets { buckets: [0u32; 16], sample_count: 0 };
        assert(h.buckets@ =~= Seq::new(16, |i: int| 0u32));
        h
    }
}

impl GenMsBuckets {
    /// Counts one sample in `bucket`; counts saturate instead of wrapping.
    pub fn record_bucket(&mut self, bucket: usize)
        requires
            bucket < GEN_MS_BUCKET_COUNT,
        ensures
            final(self).buckets@ == old(self).buckets@.update(bucket as int, old(self).buckets@[bucket as int].saturating_add(1)),
            final(self).sample_count == old(self).sample_count.saturating_add(1),
    {
        let c = self.buckets[bucket];
        self.buckets[bucket] = c.saturating_add(1);
        self.sample_count = self.sample_count.saturating_add(1);
    }

    /// The first bucket whose cumulative count reaches `target`, `None` when
    /// even all samples together stay below it.
    pub fn bucket_reaching(&self, target: u64) -> (r: Option<usize>)
        ensures
            match r {
                Some(i) => i == first_reaching(self.buckets@, target as int, 0) && i < GEN_MS_BUCKET_COUNT,
                None => first_reaching(self.buckets@, target as int, 0) == GEN_MS_BUCKET_COUNT,
            },
    {
        let ghost b = self.buckets@;
        proof {
            lemma_first_reaching(b, target as int, 0);
        }
        let mut cumul: u64 = 0;
        let mut i: usize = 0;
        while i < GEN_MS_BUCKET_COUNT
            invariant
                b == self.buckets@,
                b.len() == GEN_MS_BUCKET_COUNT,
                i <= GEN_MS_BUCKET_COUNT,
                cumul == prefix_total(b, i as nat),
                forall|j: nat| j < i ==> #[trigger] total_through(b, j) < target,
                first_reaching(b, target as int, 0) <= b.len(),
                forall|j: nat| j < first_reaching(b, target as int, 0) ==> #[trigger] total_through(b, j) < target,
                first_reaching(b, target as int, 0) < b.len() ==> total_through(b, first_reaching(b, target as int, 0)) >= target,
            decreases GEN_MS_BUCKET_COUNT - i,
        {
            proof {
                lemma_prefix_total_monotone(b, (i + 1) as nat, (i + 1) as nat);
                assert(prefix_total(b, (i + 1) as nat) == prefix_total(b, i as nat) + b[i as int]);
            }
            cumul = cumul + self.buckets[i] as u64;
            if cumul >= target {
                proof {
                    let f = first_reaching(b, target as int, 0);
                    assert(total_through(b, i as nat) == cumul);
                    if f < i {
                        assert(total_through(b, f) < target);
                    }
                    assert(!(f > i));
                }
                return Some(i);
            }
            i += 1;
        }
        None
    }
}

/// The bucket reached by a larger target is never an earlier one: the
/// percentiles read from the histogram grow with the percentile asked for.
pub proof fn lemma_bucket_reaching_monotone(b: Seq<u32>, t1: int, t2: int)
    requires
        t1 <= t2,
    ensures
        first_reaching(b, t1, 0) <= first_reaching(b, t2, 0),
{
    lemma_first_reaching(b, t1, 0);
    lemma_first_reaching(b, t2, 0);
    let f2 = first_reaching(b, t2, 0);
    if f2 < first_reaching(b, t1, 0) {
        assert(total_through(b, f2) < t1);
    }
}

// ─── Streaming health verdicts ──────────────────────────────────────────────

/// What the streaming sensor observed; each comparison of measured seconds or
/// megabytes with its threshold is already made.
#[derive(Debug, Clone, Copy)]
pub struct StreamHealthFacts {
    pub pause_active: bool,
    pub pending_load_count: u32,
    /// The estimated memory of loaded chunks exceeds the budget.
    pub over_memory_budget: bool,
    pub async_queue_depth: u32,
    pub max_queue_depth: u32,
    /// The 99th percentile of chunk generation time exceeds 50 ms.
    pub slow_generation: bool,
    pub gen_sample_count: u64,
    pub coverage: FoliageCoverageReport,
    pub coverage_warn_threshold: u32,
    /// The coverage gap has lasted at least the configured time.
    pub coverage_gap_sustained: bool,
}

/// The first problem the sensor reports, in order of precedence.
#[derive(Debug, Clone, Copy, PartialEq, Eq, Structural)]
pub enum StreamDiagnosis {
    PausedWithPending,
    OverMemoryBudget,
    QueueSaturated,
    SlowGeneration,
    FoliageCoverageGap,
    Healthy,
}

/// Loaded chunks without vegetation, as [`FoliageCoverageReport::without_veg`].
pub open spec fn without_veg_spec(c: FoliageCoverageReport) -> int {
    if c.chunks_loaded >= c.chunks_with_veg { c.chunks_loaded - c.chunks_with_veg } else { 0 }
}

/// A lasting gap between loaded chunks and chunks with vegetation.
pub open spec fn coverage_gap(f: StreamHealthFacts) -> bool {
    without_veg_spec(f.coverage) > f.coverage_warn_threshold && f.coverage_gap_sustained
}

/// Severity of the streaming sensor.
pub open spec fn stream_severity_text(f: StreamHealthFacts) -> Seq<char> {
    if f.pause_active && f.pending_load_count > 0 {
        "info"@
    } else if f.over_memory_budget {
        "warning"@
    } else if f.async_queue_depth >= f.max_queue_depth {
        "warning"@
    } else if f.slow_generation && f.gen_sample_count > 10 {
        "warning"@
    } else if coverage_gap(f) {
        "warning"@
    } else {
        "ok"@
    }
}

/// What the health report explains.
pub open spec fn stream_diagnosis_spec(f: StreamHealthFacts) -> StreamDiagnosis {
    if f.pause_active && f.pending_load_count > 0 {
        StreamDiagnosis::PausedWithPending
    } else if f.over_memory_budget {
        StreamDiagnosis::OverMemoryBudget
    } else if f.async_queue_depth >= f.max_queue_depth {
        StreamDiagnosis::QueueSaturated
    } else if f.slow_generation {
        StreamDiagnosis::SlowGeneration
    } else if coverage_gap(f) {
        StreamDiagnosis::FoliageCoverageGap
    } else {
        StreamDiagnosis::Healthy
    }
}

/// Severity of the streaming sensor: `info` while paused with loads pending,
/// `warning` for a memory overrun, a saturated generation queue, slow
/// generation over more than 10 samples or a lasting vegetation gap, else `ok`.
pub fn stream_severity(f: &StreamHealthFacts) -> (s: &'static str)
    ensures
        s@ == stream_severity_text(*f),
{
    if f.pause_active && f.pending_load_count > 0 {
        return "info";
    }
    if f.over_memory_budget {
        return "warning";
    }
    if f.async_queue_depth >= f.max_queue_depth {
        return "warning";
    }
    if f.slow_generation && f.gen_sample_count > 10 {
        return "warning";
    }
    if f.coverage.without_veg() > f.coverage_warn_threshold && f.coverage_gap_sustained {
        return "warning";
    }
    "ok"
}

/// The problem the health report explains, first match in the same order as
/// [`stream_severity`] (slow generation is reported whatever the sample count).
pub fn stream_diagnosis(f: &StreamHealthFacts) -> (d: StreamDiagnosis)
    ensures
        d == stream_diagnosis_spec(*f),
{
    if f.pause_active && f.pending_load_count > 0 {
        return StreamDiagnosis::PausedWithPending;
    }
    if f.over_memory_budget {
        return StreamDiagnosis::OverMemoryBudget;
    }
    if f.async_queue_depth >= f.max_queue_depth {
        return StreamDiagnosis::QueueSaturated;
    }
    if f.slow_generation {
        return StreamDiagnosis::SlowGeneration;
    }
    if f.coverage.without_veg() > f.coverage_warn_threshold && f.coverage_gap_sustained {
        return StreamDiagnosis::FoliageCoverageGap;
    }
    StreamDiagnosis::Healthy
}

/// The severity and the health report agree: a healthy report goes with an
/// `ok` severity, and an `ok` severity with a healthy report unless slow
/// generation was seen over 10 samples or fewer.
pub proof fn lemma_severity_matches_diagnosis(f: StreamHealthFacts)
    ensures
        stream_diagnosis_spec(f) == StreamDiagnosis::Healthy ==> stream_severity_text(f) == "ok"@,
        stream_severity_text(f) == "ok"@ ==> stream_diagnosis_spec(f) == StreamDiagnosis::Healthy
            || (stream_diagnosis_spec(f) == StreamDiagnosis::SlowGeneration && f.gen_sample_count <= 10),
        stream_diagnosis_spec(f) == StreamDiagnosis::PausedWithPending <==> stream_severity_text(f) == "info"@,
{
    reveal_strlit("ok");
    reveal_strlit("info");
    reveal_strlit("warning");
    assert("ok"@.len() == 2 && "info"@.len() == 4 && "warning"@.len() == 7);
}

// ─── Streaming genome validation ────────────────────────────────────────────

/// Schema version of the streaming genome that this reader accepts.
pub const STREAMING_GENOME_SCHEMA_VERSION: u32 = 1;

/// What validation looks at in a streaming genome, with each comparison of
/// radii, seconds and megabytes already made.
#[derive(Debug, Clone, Copy)]
pub struct GenomeFacts {
    pub schema_version: u32,
    /// The simulation, view and unload radii are all positive.
    pub radii_positive: bool,
    /// The simulation radius does not exceed the view radius.
    pub simulation_within_view: bool,
    /// The view radius does not exceed the unload radius.
    pub view_within_unload: bool,
    /// The minimum residence time is not negative.
    pub residence_non_negative: bool,
    /// The memory budget is positive.
    pub memory_budget_positive: bool,
    pub max_chunks: u32,
}

/// Why a streaming genome is refused.
#[derive(Debug, Clone, Copy, PartialEq, Eq, Structural)]
pub enum GenomeProblem {
    /// Unknown schema version (found, expected).
    SchemaVersion { found: u32, expected: u32 },
    RadiiNotPositive,
    SimulationBeyondView,
    ViewBeyondUnload,
    NegativeResidence,
    EmptyBudget,
}

pub open spec fn genome_check_spec(f: GenomeFacts) -> Result<(), GenomeProblem> {
    if f.schema_version != STREAMING_GENOME_SCHEMA_VERSION {
        Err(GenomeProblem::SchemaVersion { found: f.schema_version, expected: STREAMING_GENOME_SCHEMA_VERSION })
    } else if !f.radii_positive {
        Err(GenomeProblem::RadiiNotPositive)
    } else if !f.simulation_within_view {
        Err(GenomeProblem::SimulationBeyondView)
    } else if !f.view_within_unload {
        Err(GenomeProblem::ViewBeyondUnload)
    } else if !f.residence_non_negative {
        Err(GenomeProblem::NegativeResidence)
    } else if !f.memory_budget_positive || f.max_chunks == 0 {
        Err(GenomeProblem::EmptyBudget)
    } else {
        Ok(())
    }
}

/// Validates a streaming genome: the schema version first, then the radii
/// (positive, simulation ≤ view ≤ unload, so that unloading lags loading),
/// the residence time and the budget. The first problem found is reported.
pub fn check_streaming_genome(f: &GenomeFacts) -> (r: Result<(), GenomeProblem>)
    ensures
        r == genome_check_spec(*f),
        r is Ok <==> f.schema_version == STREAMING_GENOME_SCHEMA_VERSION && f.radii_positive
            && f.simulation_within_view && f.view_within_unload && f.residence_non_negative
            && f.memory_budget_positive && f.max_chunks > 0,
{
    if f.schema_version != STREAMING_GENOME_SCHEMA_VERSION {
        return Err(GenomeProblem::SchemaVersion { found: f.schema_version, expected: STREAMING_GENOME_SCHEMA_VERSION });
    }
    if !f.radii_positive {
        return Err(GenomeProblem::RadiiNotPositive);
    }
    if !f.simulation_within_view {
        return Err(GenomeProblem::SimulationBeyondView);
    }
    if !f.view_within_unload {
        return Err(GenomeProblem::ViewBeyondUnload);
    }
    if !f.residence_non_negative {
        return Err(GenomeProblem::NegativeResidence);
    }
    if !f.memory_budget_positive || f.max_chunks == 0 {
        return Err(GenomeProblem::EmptyBudget);
    }
    Ok(())
}

// ─── Authored stream cells ──────────────────────────────────────────────────

/// What to do with an authored stream cell now.
#[derive(Debug, Clone, Copy, PartialEq, Eq, Structural)]
pub enum CellAction {
    /// Absent and within the load radius: load it.
    Charger,
    /// Present and beyond the unload radius: remove it.
    Decharger,
    /// Nothing to do.
    Garder,
}

pub open spec fn cell_action_spec(loaded: bool, within_load: bool, beyond_unload: bool) -> CellAction {
    if loaded {
        if beyond_unload { CellAction::Decharger } else { CellAction::Garder }
    } else if within_load {
        CellAction::Charger
    } else {
        CellAction::Garder
    }
}

/// The decision for one cell: a loaded cell leaves only beyond the unload
/// radius, an absent one comes only within the load radius. Between the two
/// radii nothing happens, which is what keeps a cell from flickering.
pub fn decide_cell(loaded: bool, within_load: bool, beyond_unload: bool) -> (a: CellAction)
    ensures
        a == cell_action_spec(loaded, within_load, beyond_unload),
        loaded ==> a != CellAction::Charger,
        !loaded ==> a != CellAction::Decharger,
{
    if loaded {
        if beyond_unload {
            CellAction::Decharger
        } else {
            CellAction::Garder
        }
    } else if within_load {
        CellAction::Charger
    } else {
        CellAction::Garder
    }
}

/// Whether the cell is loaded after `a`.
pub open spec fn loaded_after(loaded: bool, a: CellAction) -> bool {
    match a {
        CellAction::Charger => true,
        CellAction::Decharger => false,
        CellAction::Garder => loaded,
    }
}

/// Loads and unloads performed over successive observations
/// `(within_load, beyond_unload)`, starting from `loaded`.
pub open spec fn transitions_over(obs: Seq<(bool, bool)>, loaded: bool) -> nat
    decreases obs.len(),
{
    if obs.len() == 0 {
        0
    } else {
        let a = cell_action_spec(loaded, obs[0].0, obs[0].1);
        (if a == CellAction::Garder { 0nat } else { 1nat }) + transitions_over(obs.drop_first(), loaded_after(loaded, a))
    }
}

/// Unloads performed over successive observations, starting from `loaded`.
pub open spec fn unloads_over(obs: Seq<(bool, bool)>, loaded: bool) -> nat
    decreases obs.len(),
{
    if obs.len() == 0 {
        0
    } else {
        let a = cell_action_spec(loaded, obs[0].0, obs[0].1);
        (if a == CellAction::Decharger { 1nat } else { 0nat }) + unloads_over(obs.drop_first(), loaded_after(loaded, a))
    }
}

/// No flapping: while the player stays within the unload radius, however
/// often the load radius is crossed back and forth, a cell is loaded at most
/// once and never unloaded (once loaded, never again).
pub proof fn lemma_no_flapping_within_unload_radius(obs: Seq<(bool, bool)>, loaded: bool)
    requires
        forall|i: int| 0 <= i < obs.len() ==> !(#[trigger] obs[i]).1,
    ensures
        transitions_over(obs, loaded) <= if loaded { 0nat } else { 1nat },
        unloads_over(obs, loaded) == 0,
    decreases obs.len(),
{
    if obs.len() > 0 {
        let rest = obs.drop_first();
        assert forall|i: int| 0 <= i < rest.len() implies !(#[trigger] rest[i]).1 by {
            assert(rest[i] == obs[i + 1]);
        }
        assert(!obs[0].1);
        let a = cell_action_spec(loaded, obs[0].0, obs[0].1);
        lemma_no_flapping_within_unload_radius(rest, loaded_after(loaded, a));
    }
}

} // verus!
