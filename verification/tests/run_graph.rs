use forgia::run_graph::{
    forced_kind_for_depth, generate_run_graph, next_step_for_stage_graph, nonboss_entry,
    pick_nonboss_kind_with_constraint, pick_nonboss_kind_with_multi, restricted_kinds_of, roll_range,
    severity_for_stage_graph, splitmix64, RunGraph, StageGraphState, StageKind, NONBOSS_KIND_COUNT,
};
use std::collections::HashSet;

/// Difficulty budget per depth of the shipped run genome (2 credits, ×1.25 per depth).
fn budgets(total: u8) -> Vec<u32> {
    let total = total.max(2);
    (0..total)
        .map(|d| (2.0_f32 * 1.25_f32.powi(i32::from(d))).max(0.0).round() as u32)
        .collect()
}

fn default_graph(seed: u64) -> RunGraph {
    generate_run_graph(5, 2, &budgets(5), seed)
}

#[test]
fn splitmix64_deterministic_per_seed() {
    let mut a = 12345u64;
    let mut b = 12345u64;
    for _ in 0..10 {
        assert_eq!(splitmix64(&mut a), splitmix64(&mut b));
    }
}

#[test]
fn splitmix64_different_seeds_diverge() {
    let mut a = 12345u64;
    let mut b = 12346u64;
    let ra = splitmix64(&mut a);
    let rb = splitmix64(&mut b);
    assert_ne!(ra, rb);
}

#[test]
fn splitmix64_known_first_output_of_zero_state() {
    // Reference value of SplitMix64 seeded with 0.
    let mut s = 0u64;
    assert_eq!(splitmix64(&mut s), 0xE220_A839_7B1D_CDAF);
    assert_eq!(s, 0x9E37_79B9_7F4A_7C15);
}

#[test]
fn roll_range_within_bounds() {
    let mut state = 42u64;
    for _ in 0..1000 {
        let r = roll_range(&mut state, 5);
        assert!(r < 5);
    }
}

#[test]
fn roll_range_zero_max_returns_zero() {
    let mut state = 42u64;
    assert_eq!(roll_range(&mut state, 0), 0);
    assert_eq!(state, 42, "a zero range draws nothing");
}

#[test]
fn roll_range_of_one_is_always_zero_and_advances_once() {
    let mut state = 7u64;
    assert_eq!(roll_range(&mut state, 1), 0);
    assert_eq!(state, 7u64.wrapping_add(0x9E37_79B9_7F4A_7C15));
}

#[test]
fn generation_deterministic_same_seed() {
    let g1 = default_graph(0xDEADBEEF);
    let g2 = default_graph(0xDEADBEEF);
    assert_eq!(g1.stages, g2.stages);
}

#[test]
fn generation_differs_between_seeds() {
    let g1 = default_graph(1);
    let g2 = default_graph(2);
    let differs = (0..g1.stages.len()).any(|d| g1.stages[d] != g2.stages[d]);
    assert!(differs, "Different seeds should produce different graphs");
}

#[test]
fn generation_structure_invariants() {
    let g = default_graph(0x12345);
    assert_eq!(g.stages.len(), 5);
    assert_eq!(g.stages[0].len(), 1);
    let boss_depth = 4usize;
    assert_eq!(g.stages[boss_depth].len(), 1);
    for d in 1..boss_depth {
        assert_eq!(g.stages[d].len(), 2);
    }
}

#[test]
fn generation_branching_depths_have_distinct_kinds() {
    let total = 5u8;
    let boss_depth = (total - 1) as usize;
    for seed in 0..50_u64 {
        let g = default_graph(seed.wrapping_mul(0xDEAD));
        for d in 1..boss_depth as u8 {
            let variants = &g.stages[usize::from(d)];
            if variants.len() <= 1 {
                continue;
            }
            if forced_kind_for_depth(d, total).is_some() {
                continue;
            }
            let kinds: HashSet<_> = variants.iter().map(|n| n.kind).collect();
            assert!(kinds.len() >= 2, "seed={seed} depth={d} : identical variants");
        }
    }
}

#[test]
fn generation_boss_at_last_depth() {
    let g = default_graph(99);
    assert_eq!(g.stages[4][0].kind, StageKind::Boss);
}

#[test]
fn generation_start_is_combat() {
    let g = default_graph(99);
    assert_eq!(g.stages[0][0].kind, StageKind::Combat);
}

#[test]
fn generation_no_boss_before_last() {
    let g = default_graph(99);
    for (d, variants) in g.stages.iter().enumerate() {
        if d == 4 {
            continue;
        }
        for node in variants {
            assert_ne!(node.kind, StageKind::Boss, "Boss appeared at depth {d}");
        }
    }
}

#[test]
fn generation_depth_and_variant_index_correct() {
    let g = default_graph(7);
    for (d, variants) in g.stages.iter().enumerate() {
        for (i, node) in variants.iter().enumerate() {
            assert_eq!(node.depth as usize, d);
            assert_eq!(node.variant_index as usize, i);
        }
    }
}

#[test]
fn generation_min_2_stages_when_config_too_small() {
    let g = generate_run_graph(1, 2, &budgets(1), 1);
    assert!(g.total_stages >= 2);
    assert_eq!(g.stages.len(), 2);
}

#[test]
fn generation_budgets_follow_depth() {
    let b = budgets(5);
    assert_eq!(b, vec![2, 3, 3, 4, 5]);
    let g = default_graph(3);
    for (d, variants) in g.stages.iter().enumerate() {
        for node in variants {
            assert_eq!(node.difficulty_budget, b[d]);
        }
    }
}

#[test]
fn weighted_kind_distribution_combat_majority() {
    let mut state = 0xABCDEFu64;
    let mut combat_count = 0u32;
    for _ in 0..200 {
        if pick_nonboss_kind_with_constraint(&mut state, None) == StageKind::Combat {
            combat_count += 1;
        }
    }
    assert!(
        combat_count > 60 && combat_count < 150,
        "Combat distribution {combat_count} out of expected range (53% target)"
    );
}

#[test]
fn weights_total_100_percent() {
    let total: u32 = (0..NONBOSS_KIND_COUNT).map(|i| nonboss_entry(i).1).sum();
    assert_eq!(total, 100, "StS weights must sum to 100");
}

#[test]
fn pick_with_constraint_excludes_forbidden() {
    let mut state = 0xCAFEu64;
    for _ in 0..500 {
        let k = pick_nonboss_kind_with_constraint(&mut state, Some(StageKind::Elite));
        assert_ne!(k, StageKind::Elite, "Forbidden kind appeared");
    }
}

#[test]
fn pick_with_everything_forbidden_falls_back_to_combat() {
    let all = [StageKind::Combat, StageKind::Event, StageKind::Rest, StageKind::Elite, StageKind::Shop];
    let mut state = 5u64;
    assert_eq!(pick_nonboss_kind_with_multi(&mut state, &all), StageKind::Combat);
    assert_eq!(state, 5, "no draw when nothing is allowed");
}

#[test]
fn pick_with_a_single_allowed_kind_returns_it() {
    let forbid = [StageKind::Combat, StageKind::Event, StageKind::Rest, StageKind::Elite];
    let mut state = 11u64;
    for _ in 0..20 {
        assert_eq!(pick_nonboss_kind_with_multi(&mut state, &forbid), StageKind::Shop);
    }
}

#[test]
fn forced_kind_start_is_combat() {
    assert_eq!(forced_kind_for_depth(0, 5), Some(StageKind::Combat));
}

#[test]
fn forced_kind_last_is_boss() {
    assert_eq!(forced_kind_for_depth(4, 5), Some(StageKind::Boss));
    assert_eq!(forced_kind_for_depth(11, 12), Some(StageKind::Boss));
}

#[test]
fn forced_kind_penultimate_is_rest_when_total_geq_5() {
    assert_eq!(forced_kind_for_depth(3, 5), Some(StageKind::Rest));
    assert_ne!(forced_kind_for_depth(2, 4), Some(StageKind::Rest));
}

#[test]
fn forced_kind_midpoint_treasure_when_total_geq_8() {
    assert_eq!(forced_kind_for_depth(5, 10), Some(StageKind::Treasure));
    assert_ne!(forced_kind_for_depth(2, 5), Some(StageKind::Treasure));
}

#[test]
fn forced_kind_returns_none_for_intermediate() {
    assert_eq!(forced_kind_for_depth(1, 10), None);
    assert_eq!(forced_kind_for_depth(2, 10), None);
    assert_eq!(forced_kind_for_depth(3, 10), None);
}

#[test]
fn is_restricted_consecutive_set() {
    assert!(StageKind::Elite.is_restricted_consecutive());
    assert!(StageKind::Shop.is_restricted_consecutive());
    assert!(StageKind::Rest.is_restricted_consecutive());
    assert!(!StageKind::Combat.is_restricted_consecutive());
    assert!(!StageKind::Event.is_restricted_consecutive());
    assert!(!StageKind::Treasure.is_restricted_consecutive());
    assert!(!StageKind::Boss.is_restricted_consecutive());
}

#[test]
fn generated_has_rest_at_penultimate_when_total_5plus() {
    let g = default_graph(42);
    let penultimate = g.stages[3].iter().any(|n| n.kind == StageKind::Rest);
    assert!(penultimate, "Rest should be forced at penultimate depth");
}

#[test]
fn anti_consecutive_no_elite_after_elite() {
    for seed in 1..50 {
        let g = generate_run_graph(8, 2, &budgets(8), seed);
        for depth in 1..g.stages.len() {
            let prev_has_restricted = g.stages[depth - 1]
                .iter()
                .any(|n| n.kind.is_restricted_consecutive());
            if !prev_has_restricted {
                continue;
            }
            if forced_kind_for_depth(depth as u8, g.total_stages).is_some() {
                continue;
            }
            for variant in &g.stages[depth] {
                let prev_kind = g.stages[depth - 1][0].kind;
                if prev_kind.is_restricted_consecutive() {
                    assert_ne!(variant.kind, prev_kind, "Consecutive {:?} at depth {depth} seed={seed}", prev_kind);
                }
            }
        }
    }
}

#[test]
fn anti_consecutive_holds_for_every_restricted_kind_with_four_branches() {
    let mut saw_two_restricted = false;
    for seed in 0..200 {
        let g = generate_run_graph(8, 4, &budgets(8), seed);
        for depth in 1..g.stages.len() {
            if forced_kind_for_depth(depth as u8, g.total_stages).is_some() {
                continue;
            }
            let prev: Vec<StageKind> = g.stages[depth - 1].iter().map(|n| n.kind).collect();
            if prev.iter().filter(|k| k.is_restricted_consecutive()).count() >= 2 {
                saw_two_restricted = true;
            }
            for variant in &g.stages[depth] {
                for p in &prev {
                    if p.is_restricted_consecutive() {
                        assert_ne!(variant.kind, *p, "restricted {p:?} repeated at depth {depth} seed={seed}");
                    }
                }
            }
        }
    }
    assert!(saw_two_restricted, "the sample holds a depth with two restricted kinds");
}

#[test]
fn restricted_kinds_of_lists_each_restricted_kind_once_in_order() {
    let kinds = vec![
        StageKind::Combat,
        StageKind::Shop,
        StageKind::Elite,
        StageKind::Shop,
        StageKind::Event,
        StageKind::Rest,
    ];
    assert_eq!(restricted_kinds_of(&kinds), vec![StageKind::Shop, StageKind::Elite, StageKind::Rest]);
    assert!(restricted_kinds_of(&vec![StageKind::Combat, StageKind::Treasure]).is_empty());
}

#[test]
fn kind_distribution_total_matches_node_count() {
    let g = default_graph(0x42);
    let dist = g.kind_distribution();
    let total_from_dist: u32 = dist.iter().map(|(_, n)| *n).sum();
    let total_nodes: u32 = g.stages.iter().map(|v| v.len() as u32).sum();
    assert_eq!(total_from_dist, total_nodes);
}

#[test]
fn kind_distribution_lists_the_seven_kinds_in_order() {
    let g = default_graph(0x42);
    let kinds: Vec<StageKind> = g.kind_distribution().iter().map(|(k, _)| *k).collect();
    assert_eq!(
        kinds,
        vec![
            StageKind::Combat,
            StageKind::Elite,
            StageKind::Shop,
            StageKind::Event,
            StageKind::Treasure,
            StageKind::Rest,
            StageKind::Boss
        ]
    );
    let dist = g.kind_distribution();
    assert_eq!(dist[6].1, 1, "exactly one boss");
    assert_eq!(dist[5].1 >= 2, true, "the rest floor has two variants");
}

#[test]
fn boss_depth_matches_total_stages_minus_one() {
    let g = default_graph(0);
    assert_eq!(g.boss_depth(), 4);
}

#[test]
fn severity_warn_when_total_stages_invalid() {
    let s = StageGraphState::default();
    assert_eq!(severity_for_stage_graph(1, &s), "warn");
}

#[test]
fn severity_ok_default() {
    let s = StageGraphState::default();
    assert_eq!(severity_for_stage_graph(5, &s), "ok");
}

#[test]
fn next_step_mentions_caller_when_no_graph_generated() {
    let s = StageGraphState::default();
    let ns = next_step_for_stage_graph(5, &s);
    assert!(ns.contains("forgia-mode-roguelite") || ns.contains("generate"));
}

#[test]
fn next_step_reports_activity_and_invalid_config() {
    let s = StageGraphState { current_run_depth: 1, total_graphs_generated_session: 3 };
    assert_eq!(next_step_for_stage_graph(5, &s), "Stage graph generation active.");
    assert!(next_step_for_stage_graph(1, &s).starts_with("Config invalid"));
}

#[test]
fn stage_kind_as_str_roundtrip_concept() {
    for k in [
        StageKind::Combat,
        StageKind::Elite,
        StageKind::Shop,
        StageKind::Event,
        StageKind::Treasure,
        StageKind::Boss,
    ] {
        assert!(!k.as_str().is_empty());
    }
    assert_eq!(StageKind::Rest.as_str(), "rest");
}
