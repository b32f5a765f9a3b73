//! When the arena's navigation mesh is rebuilt: only once the arena geometry
//! has stopped changing for a frame, and never while authored pieces are
//! still loading (their footprints would be missing from the mesh).

use vstd::prelude::*;

verus! {

/// What the rebuild system does this frame.
#[derive(Debug, Clone, Copy, PartialEq, Eq, Structural)]
pub enum NavmeshStep {
    /// Nothing this frame.
    Wait,
    /// Forget the current mesh: the arena was dismantled.
    Forget,
    /// Build the mesh from the arena geometry.
    Build,
}

/// The decision for one frame, as (still dirty afterwards, step). `dirty`
/// tells that the geometry changed since the last build, `changed` that it
/// changed this very frame, `authored_pending` how many authored pieces are
/// still loading, `dismantled` that the playable radius does not exceed the
/// agent's and `built` that a mesh is active.
pub open spec fn navmesh_decision(
    dirty: bool,
    changed: bool,
    authored_pending: u32,
    dismantled: bool,
    built: bool,
) -> (bool, NavmeshStep) {
    if changed {
        (true, NavmeshStep::Wait)
    } else if !dirty {
        (false, NavmeshStep::Wait)
    } else if authored_pending > 0 {
        (true, NavmeshStep::Wait)
    } else if dismantled {
        (false, if built { NavmeshStep::Forget } else { NavmeshStep::Wait })
    } else {
        (false, NavmeshStep::Build)
    }
}

/// Decides this frame's rebuild step (see [`navmesh_decision`]). A build only
/// ever happens on a frame where the geometry did not change, after a change,
/// with no authored piece pending and a playable arena.
pub fn navmesh_rebuild_step(
    dirty: bool,
    changed: bool,
    authored_pending: u32,
    dismantled: bool,
    built: bool,
) -> (r: (bool, NavmeshStep))
    ensures
        r == navmesh_decision(dirty, changed, authored_pending, dismantled, built),
        r.1 == NavmeshStep::Build ==> dirty && !changed && authored_pending == 0 && !dismantled,
        r.1 == NavmeshStep::Forget ==> built && dismantled,
{
    if changed {
        return (true, NavmeshStep::Wait);
    }
    if !dirty {
        return (false, NavmeshStep::Wait);
    }
    if authored_pending > 0 {
        return (true, NavmeshStep::Wait);
    }
    if dismantled {
        let step = if built { NavmeshStep::Forget } else { NavmeshStep::Wait };
        return (false, step);
    }
    (false, NavmeshStep::Build)
}

/// The debounce: a frame that changes the geometry never builds, and the
/// first following frame without a change builds, once nothing authored is
/// pending and the arena is playable.
pub proof fn lemma_navmesh_builds_on_first_stable_frame(
    dirty: bool,
    authored_pending: u32,
    dismantled: bool,
    built: bool,
    built2: bool,
)
    ensures
        navmesh_decision(dirty, true, authored_pending, dismantled, built) == (true, NavmeshStep::Wait),
        navmesh_decision(true, false, 0, false, built2) == (false, NavmeshStep::Build),
{
}

/// A pending authored piece keeps the geometry dirty: while pieces are
/// loading no frame builds, and the build happens once they have all arrived.
pub proof fn lemma_navmesh_waits_for_authored_pieces(
    changed: bool,
    authored_pending: u32,
    dismantled: bool,
    built: bool,
)
    requires
        authored_pending > 0,
    ensures
        navmesh_decision(true, changed, authored_pending, dismantled, built).0,
        navmesh_decision(true, changed, authored_pending, dismantled, built).1 == NavmeshStep::Wait,
{
}

} // verus!
