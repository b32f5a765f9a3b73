use forgia::navmesh_rebuild::{navmesh_rebuild_step, NavmeshStep};

/// Runs frames through the step, feeding back the dirty flag; `built` follows
/// the steps. Each frame gives (changed, authored_pending, dismantled).
fn run(frames: &[(bool, u32, bool)]) -> (bool, bool, Vec<NavmeshStep>) {
    let mut dirty = false;
    let mut built = false;
    let mut steps = Vec::new();
    for &(changed, pending, dismantled) in frames {
        let (d, step) = navmesh_rebuild_step(dirty, changed, pending, dismantled, built);
        dirty = d;
        match step {
            NavmeshStep::Build => built = true,
            NavmeshStep::Forget => built = false,
            NavmeshStep::Wait => {}
        }
        steps.push(step);
    }
    (dirty, built, steps)
}

#[test]
fn nothing_is_built_while_the_geometry_moves() {
    let (dirty, built, steps) = run(&[(true, 0, false)]);
    assert!(dirty);
    assert!(!built);
    assert_eq!(steps, vec![NavmeshStep::Wait]);
}

#[test]
fn the_mesh_is_built_on_the_first_stable_frame() {
    let (dirty, built, steps) = run(&[(true, 0, false), (false, 0, false)]);
    assert!(!dirty);
    assert!(built);
    assert_eq!(steps, vec![NavmeshStep::Wait, NavmeshStep::Build]);
}

#[test]
fn pending_authored_pieces_block_the_build_until_they_arrive() {
    let (dirty, built, _) = run(&[(true, 2, false), (false, 2, false), (false, 2, false)]);
    assert!(dirty, "still dirty while pieces are pending");
    assert!(!built);
    let (_, built, steps) = run(&[(true, 2, false), (false, 2, false), (true, 0, false), (false, 0, false)]);
    assert!(built);
    assert_eq!(steps[3], NavmeshStep::Build);
}

#[test]
fn dismantling_the_arena_forgets_the_mesh() {
    let (_, built, steps) = run(&[(true, 0, false), (false, 0, false), (true, 0, true), (false, 0, true)]);
    assert!(!built);
    assert_eq!(steps[3], NavmeshStep::Forget);
    assert_eq!(navmesh_rebuild_step(true, false, 0, true, false), (false, NavmeshStep::Wait));
}

#[test]
fn a_clean_geometry_does_nothing() {
    assert_eq!(navmesh_rebuild_step(false, false, 0, false, true), (false, NavmeshStep::Wait));
    assert_eq!(navmesh_rebuild_step(false, false, 5, true, true), (false, NavmeshStep::Wait));
}
