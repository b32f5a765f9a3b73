//! Stage-arena lifecycle and the weighted draw of points of interest.

use vstd::prelude::*;
use crate::run_graph::{splitmix_next_state, splitmix_output};
use crate::biomes::same_text;

pub use crate::run_graph::splitmix64;

verus! {

/// Lifecycle of a stage load: `Idle → Loading → Ready`, or `Loading → Error`.
#[derive(Debug, Clone, Copy, PartialEq, Eq, Structural)]
pub enum StageState {
    Idle,
    Loading,
    Ready,
    Error,
}

impl Default for StageState {
    fn default() -> (s: Self)
        ensures
            s == StageState::Idle,
    {
        StageState::Idle
    }
}

impl StageState {
    /// Identifier written by the stage sensor.
    pub fn as_str(self) -> (s: &'static str)
        ensures
            self == StageState::Idle ==> s@ == "idle"@,
            self == StageState::Loading ==> s@ == "loading"@,
            self == StageState::Ready ==> s@ == "ready"@,
            self == StageState::Error ==> s@ == "error"@,
    {
        match self {
            StageState::Idle => "idle",
            StageState::Loading => "loading",
            StageState::Ready => "ready",
            StageState::Error => "error",
        }
    }
}

/// Sum of the first `k` weights.
pub open spec fn weight_sum(w: Seq<u32>, k: int) -> int
    decreases k,
{
    if k <= 0 {
        0
    } else {
        weight_sum(w, k - 1) + w[k - 1]
    }
}

proof fn lemma_weight_sum_monotone(w: Seq<u32>, j: int, k: int)
    requires
        0 <= j <= k <= w.len(),
    ensures
        weight_sum(w, j) <= weight_sum(w, k),
    decreases k - j,
{
    if j < k {
        lemma_weight_sum_monotone(w, j, k - 1);
    }
}

/// Draws an index of `weights` with probability proportional to its weight
/// (one SplitMix64 step, reduced modulo the total). `None`, with the state
/// untouched, when the pool is empty or every weight is zero.
pub fn pick_poi_weighted(weights: &[u32], rng_state: &mut u64) -> (r: Option<usize>)
    requires
        weight_sum(weights@, weights@.len() as int) <= u32::MAX,
    ensures
        weights@.len() == 0 || weight_sum(weights@, weights@.len() as int) == 0 ==> {
            &&& r is None
            &&& *final(rng_state) == *old(rng_state)
        },
        weights@.len() > 0 && weight_sum(weights@, weights@.len() as int) > 0 ==> {
            let total = weight_sum(weights@, weights@.len() as int);
            let roll = (splitmix_output(*old(rng_state)) as int) % total;
            &&& *final(rng_state) == splitmix_next_state(*old(rng_state))
            &&& r matches Some(i) && i < weights@.len()
                && weight_sum(weights@, i as int) <= roll < weight_sum(weights@, i as int + 1)
                && weights@[i as int] > 0
        },
{
    if weights.len() == 0 {
        return None;
    }
    let mut total: u32 = 0;
    let mut k: usize = 0;
    while k < weights.len()
        invariant
            k <= weights@.len(),
            weight_sum(weights@, weights@.len() as int) <= u32::MAX,
            total as int == weight_sum(weights@, k as int),
        decreases weights@.len() - k,
    {
        proof {
            lemma_weight_sum_monotone(weights@, k as int + 1, weights@.len() as int);
        }
        total += weights[k];
        k += 1;
    }
    if total == 0 {
        return None;
    }
    let r = (splitmix64(rng_state) % (total as u64)) as u32;
    let mut acc: u32 = 0;
    let mut i: usize = 0;
    while i < weights.len()
        invariant
            i <= weights@.len(),
            total as int == weight_sum(weights@, weights@.len() as int),
            total > 0,
            (r as int) == (splitmix_output(*old(rng_state)) as int) % (total as int),
            r < total,
            *rng_state == splitmix_next_state(*old(rng_state)),
            acc as int == weight_sum(weights@, i as int),
            acc <= r,
        decreases weights@.len() - i,
    {
        proof {
            lemma_weight_sum_monotone(weights@, i as int + 1, weights@.len() as int);
        }
        acc += weights[i];
        if r < acc {
            return Some(i);
        }
        i += 1;
    }
    proof {
        assert(acc as int == weight_sum(weights@, weights@.len() as int));
        assert(false);
    }
    Some(weights.len() - 1)
}

// ─── Stage-arena requests ───────────────────────────────────────────────────

/// What the arena system does with the pending stage request this frame.
#[derive(Debug, Clone, Copy, PartialEq, Eq, Structural)]
pub enum StageStep {
    /// Nothing: no stage requested, or the requested stage is already Ready.
    Ignore,
    /// Despawn the previous stage's entities; the new one spawns a frame later.
    DespawnPrevious,
    /// The genomes are still loading: wait.
    WaitForGenomes,
    /// The requested stage is not in the stages genome.
    Fail,
    /// Spawn the requested stage.
    Spawn,
}

/// The decision for one frame: the step, the load state after it, and the
/// id of the last processed stage after it. `last` is that id before the
/// frame, `requested` the requested stage, `has_arena` whether arena entities
/// exist, `genomes_ready` whether every genome is loaded and `stage_known`
/// whether the stages genome holds the requested stage.
pub open spec fn stage_arena_decision(
    last: Seq<char>,
    state: StageState,
    requested: Seq<char>,
    has_arena: bool,
    genomes_ready: bool,
    stage_known: bool,
) -> (StageStep, StageState, Seq<char>) {
    if requested.len() == 0 {
        (StageStep::Ignore, state, last)
    } else if last == requested && state == StageState::Ready {
        (StageStep::Ignore, state, last)
    } else if last.len() != 0 && last != requested && has_arena {
        (StageStep::DespawnPrevious, StageState::Idle, Seq::empty())
    } else if !genomes_ready {
        (StageStep::WaitForGenomes, StageState::Loading, last)
    } else if !stage_known {
        (StageStep::Fail, StageState::Error, last)
    } else {
        (StageStep::Spawn, StageState::Ready, requested)
    }
}

/// Decides what to do with a stage request this frame (see
/// [`stage_arena_decision`]). A despawn resets the load result, so the state
/// goes back to Idle and the last processed id is cleared; a spawn records the
/// requested id as the last processed one.
pub fn stage_arena_step(
    last_processed: &mut String,
    state: StageState,
    requested: &str,
    has_arena: bool,
    genomes_ready: bool,
    stage_known: bool,
) -> (r: (StageStep, StageState))
    ensures
        ({
            let d = stage_arena_decision(old(last_processed)@, state, requested@, has_arena, genomes_ready, stage_known);
            &&& r == (d.0, d.1)
            &&& final(last_processed)@ == d.2
        }),
{
    if requested.is_empty() {
        return (StageStep::Ignore, state);
    }
    let req = requested.to_owned();
    let same = *last_processed == req;
    if same && state == StageState::Ready {
        return (StageStep::Ignore, state);
    }
    if !last_processed.as_str().is_empty() && !same && has_arena {
        *last_processed = String::new();
        return (StageStep::DespawnPrevious, StageState::Idle);
    }
    if !genomes_ready {
        return (StageStep::WaitForGenomes, StageState::Loading);
    }
    if !stage_known {
        return (StageStep::Fail, StageState::Error);
    }
    *last_processed = req;
    (StageStep::Spawn, StageState::Ready)
}

/// A stage request is idempotent: once a frame has spawned the requested
/// stage, every later frame with the same request does nothing and changes
/// nothing, whatever else holds.
pub proof fn lemma_stage_spawn_is_idempotent(
    last: Seq<char>,
    state: StageState,
    requested: Seq<char>,
    has_arena: bool,
    genomes_ready: bool,
    stage_known: bool,
    has_arena2: bool,
    genomes_ready2: bool,
    stage_known2: bool,
)
    requires
        stage_arena_decision(last, state, requested, has_arena, genomes_ready, stage_known).0 == StageStep::Spawn,
    ensures
        ({
            let d = stage_arena_decision(last, state, requested, has_arena, genomes_ready, stage_known);
            stage_arena_decision(d.2, d.1, requested, has_arena2, genomes_ready2, stage_known2)
                == (StageStep::Ignore, d.1, d.2)
        }),
{
}

/// A change of stage despawns the previous arena at most once: the frame
/// after a despawn never despawns again, and goes on to wait, fail or spawn
/// the requested stage.
pub proof fn lemma_stage_despawn_then_load(
    last: Seq<char>,
    state: StageState,
    requested: Seq<char>,
    has_arena: bool,
    genomes_ready: bool,
    stage_known: bool,
    has_arena2: bool,
)
    requires
        stage_arena_decision(last, state, requested, has_arena, genomes_ready, stage_known).0
            == StageStep::DespawnPrevious,
    ensures
        ({
            let d = stage_arena_decision(last, state, requested, has_arena, genomes_ready, stage_known);
            let next = stage_arena_decision(d.2, d.1, requested, has_arena2, genomes_ready, stage_known);
            &&& next.0 != StageStep::DespawnPrevious
            &&& next.0 != StageStep::Ignore
        }),
{
}

// ─── Stage sensor verdicts ──────────────────────────────────────────────────

/// Severity of the stage sensor. `loading_overdue` tells whether the current
/// load has lasted longer than the warning threshold.
pub open spec fn stage_severity_text(state: StageState, loading_overdue: bool) -> Seq<char> {
    match state {
        StageState::Idle => "info"@,
        StageState::Loading => if loading_overdue { "warn"@ } else { "info"@ },
        StageState::Ready => "ok"@,
        StageState::Error => "critical"@,
    }
}

/// Severity of the stage sensor: `info` while idle or loading, `warn` once a
/// load is overdue, `ok` when ready, `critical` after a failed load.
pub fn stage_severity(state: StageState, loading_overdue: bool) -> (s: &'static str)
    ensures
        s@ == stage_severity_text(state, loading_overdue),
{
    match state {
        StageState::Idle => "info",
        StageState::Loading => if loading_overdue { "warn" } else { "info" },
        StageState::Ready => "ok",
        StageState::Error => "critical",
    }
}

/// Actionable next step written by the stage sensor.
pub open spec fn stage_next_step_text(state: StageState, loading_overdue: bool) -> Seq<char> {
    match state {
        StageState::Idle => "No stage requested. Caller (forgia-mode-roguelite) must insert StageLoadRequest at run start."@,
        StageState::Loading => if loading_overdue {
            "Stage stuck Loading > threshold. Read forgia_prefab.json + forgia2_anchor.json to identify stalled asset. Verify GLB paths in roguelite_stages.toml exist."@
        } else {
            "Stage loading — assets fetching."@
        },
        StageState::Ready => "Stage ready. Read forgia2_anchor.json for anchor placement details."@,
        StageState::Error => "Stage load failed. Read forgia2_stage.json error_message field + verify assets/genomes/roguelite_stages.toml syntax + GLB paths exist."@,
    }
}

/// Next step of the stage sensor for a state (see [`stage_severity`]).
pub fn stage_next_step(state: StageState, loading_overdue: bool) -> (s: &'static str)
    ensures
        s@ == stage_next_step_text(state, loading_overdue),
{
    match state {
        StageState::Idle => "No stage requested. Caller (forgia-mode-roguelite) must insert StageLoadRequest at run start.",
        StageState::Loading => if loading_overdue {
            "Stage stuck Loading > threshold. Read forgia_prefab.json + forgia2_anchor.json to identify stalled asset. Verify GLB paths in roguelite_stages.toml exist."
        } else {
            "Stage loading — assets fetching."
        },
        StageState::Ready => "Stage ready. Read forgia2_anchor.json for anchor placement details.",
        StageState::Error => "Stage load failed. Read forgia2_stage.json error_message field + verify assets/genomes/roguelite_stages.toml syntax + GLB paths exist.",
    }
}

// ─── Ramparts kit and authored roles ────────────────────────────────────────

/// Wall model of a ramparts kit; unknown kits use the dungeon wall.
pub open spec fn wall_glb_of_kit(kit: Seq<char>) -> Seq<char> {
    if kit == "kaykit_dungeon"@ {
        "models/kaykit/dungeon/wall.glb"@
    } else if kit == "medieval_hexagon"@ {
        "models/kaykit/medieval_hexagon/walls/wall_straight.gltf"@
    } else {
        "models/kaykit/dungeon/wall.glb"@
    }
}

/// Path (under `assets/`) of the wall model of a ramparts kit.
pub fn ramparts_wall_glb(kit: &str) -> (p: &'static str)
    ensures
        p@ == wall_glb_of_kit(kit@),
{
    let k = kit.to_owned();
    if same_text(&k, "kaykit_dungeon") {
        "models/kaykit/dungeon/wall.glb"
    } else if same_text(&k, "medieval_hexagon") {
        "models/kaykit/medieval_hexagon/walls/wall_straight.gltf"
    } else {
        "models/kaykit/dungeon/wall.glb"
    }
}

/// Whether an authored piece's role asks for an anchor: the empty role and
/// `decor` are purely visual.
pub fn role_places_anchor(role: &str) -> (b: bool)
    ensures
        b == !(role@.len() == 0 || role@ == "decor"@),
{
    let r = role.to_owned();
    proof {
        reveal_strlit("");
        assert(r@.len() == 0 ==> r@ =~= ""@);
    }
    !(same_text(&r, "") || same_text(&r, "decor"))
}

} // verus!
