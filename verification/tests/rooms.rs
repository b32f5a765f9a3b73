use forgia::rooms::{all_edges, interior_walls, mix, normalized_grid, pick_open_edges, snap_corridor_parity, Edge};
use std::collections::{HashMap, HashSet, VecDeque};

/// The loops reopened for a share `loops` of the remaining walls, as the genome asks.
fn open_set(n: u32, seed: u64, loops: f32) -> HashSet<(u32, u32)> {
    pick_open_edges(n, seed, |rest: usize| (rest as f32 * loops).round() as usize)
        .into_iter()
        .map(|e| (e.a.min(e.b), e.a.max(e.b)))
        .collect()
}

#[test]
fn every_room_is_reachable_from_every_other() {
    for n in 2..=6u32 {
        for seed in [0u64, 7, 42, 1337, 99_991] {
            let open = open_set(n, seed, 0.0);
            let mut adj: HashMap<u32, Vec<u32>> = HashMap::new();
            for (a, b) in &open {
                adj.entry(*a).or_default().push(*b);
                adj.entry(*b).or_default().push(*a);
            }
            let mut seen = HashSet::from([0u32]);
            let mut q = VecDeque::from([0u32]);
            while let Some(c) = q.pop_front() {
                for &nb in adj.get(&c).map(|v| v.as_slice()).unwrap_or(&[]) {
                    if seen.insert(nb) {
                        q.push_back(nb);
                    }
                }
            }
            assert_eq!(seen.len(), (n * n) as usize, "grille {n}x{n} graine {seed}");
        }
    }
}

#[test]
fn loops_remove_most_dead_ends() {
    let n = 4u32;
    for seed in [1u64, 2, 3, 4, 5] {
        let count_dead_ends = |loops: f32| {
            let open = open_set(n, seed, loops);
            let mut deg: HashMap<u32, u32> = HashMap::new();
            for (a, b) in &open {
                *deg.entry(*a).or_default() += 1;
                *deg.entry(*b).or_default() += 1;
            }
            (0..n * n).filter(|c| deg.get(c).copied().unwrap_or(0) <= 1).count()
        };
        let without = count_dead_ends(0.0);
        let with = count_dead_ends(0.5);
        assert!(with <= without, "graine {seed} : les boucles ont AJOUTÉ des culs-de-sac ({without} → {with})");
    }
    let open = open_set(n, 42, 1.0);
    let mut deg: HashMap<u32, u32> = HashMap::new();
    for (a, b) in &open {
        *deg.entry(*a).or_default() += 1;
        *deg.entry(*b).or_default() += 1;
    }
    assert_eq!(
        (0..n * n).filter(|c| deg.get(c).copied().unwrap_or(0) <= 1).count(),
        0,
        "à extra_loops = 1, aucune pièce ne doit avoir une seule sortie"
    );
}

#[test]
fn a_spanning_tree_has_one_wall_less_than_rooms() {
    for n in 2..=8u32 {
        let tree = pick_open_edges(n, 99, |_| 0);
        assert_eq!(tree.len() as u32, n * n - 1);
        let all = pick_open_edges(n, 99, |rest| rest);
        assert_eq!(all.len(), all_edges(n).len());
    }
}

#[test]
fn extra_loops_are_capped_by_the_remaining_walls() {
    let n = 3u32;
    let capped = pick_open_edges(n, 5, |_| usize::MAX);
    assert_eq!(capped.len(), all_edges(n).len());
}

#[test]
fn all_edges_lists_the_grid_in_order() {
    let e = all_edges(2);
    assert_eq!(
        e,
        vec![
            Edge { a: 0, b: 1, horizontal: true },
            Edge { a: 0, b: 2, horizontal: false },
            Edge { a: 1, b: 3, horizontal: false },
            Edge { a: 2, b: 3, horizontal: true },
        ]
    );
    assert_eq!(all_edges(3).len(), 12);
    assert_eq!(all_edges(1).len(), 0);
}

#[test]
fn same_seed_opens_the_same_doors() {
    let half = |r: usize| (r as f32 * 0.5).round() as usize;
    assert_eq!(pick_open_edges(3, 4242, half), pick_open_edges(3, 4242, half));
}

#[test]
fn different_seeds_open_different_doors() {
    let a = interior_walls(3, &pick_open_edges(3, 1, |r| (r as f32 * 0.5).round() as usize));
    let b = interior_walls(3, &pick_open_edges(3, 2, |r| (r as f32 * 0.5).round() as usize));
    assert_ne!(a, b, "deux graines, un seul complexe");
    let ea: Vec<Edge> = a.iter().map(|w| w.0).collect();
    let eb: Vec<Edge> = b.iter().map(|w| w.0).collect();
    assert_eq!(ea, eb, "la trame, elle, ne bouge pas");
}

#[test]
fn interior_walls_mark_exactly_the_open_doors() {
    let open = pick_open_edges(4, 77, |_| 0);
    let walls = interior_walls(4, &open);
    assert_eq!(walls.len(), all_edges(4).len());
    let doors = walls.iter().filter(|w| w.1).count();
    assert_eq!(doors, open.len());
}

#[test]
fn normalized_grid_rejects_a_degenerate_request() {
    let (side, door) = normalized_grid(0, 99, 3);
    assert!(side >= 2, "une grille 1x1 n'a ni pièce ni couloir");
    assert!(door <= 4);
    assert_eq!(normalized_grid(50, 0, 3), (8, 1));
}

#[test]
fn normalized_grid_never_widens_a_door() {
    for requested in 1..=4u32 {
        let (_, door) = normalized_grid(3, requested, 3);
        assert!(door <= requested, "porte demandée {requested}, obtenue {door} — élargie en douce");
        assert!(door >= 1, "une porte de 0 module n'est plus une porte");
    }
}

#[test]
fn snap_corridor_parity_matches_the_cell() {
    assert_eq!(snap_corridor_parity(1, 3), 1);
    assert_eq!(snap_corridor_parity(2, 3), 1);
    assert_eq!(snap_corridor_parity(3, 3), 3);
    assert_eq!(snap_corridor_parity(4, 3), 3);
    assert_eq!(snap_corridor_parity(2, 4), 2);
    assert_eq!(snap_corridor_parity(1, 4), 1);
    assert_eq!(snap_corridor_parity(0, 4), 1);
}

#[test]
fn mix_is_splitmix64() {
    let mut a = 3u64;
    let mut b = 3u64;
    assert_eq!(mix(&mut a), forgia::run_graph::splitmix64(&mut b));
    assert_eq!(a, b);
}

#[test]
fn with_half_the_loops_every_room_has_two_doors() {
    for n in 2..=8u32 {
        for seed in 0..40u64 {
            let open = open_set(n, seed, 0.5);
            for c in 0..n * n {
                let doors = open.iter().filter(|(a, b)| *a == c || *b == c).count();
                assert!(doors >= 2, "grid {n}x{n} seed {seed}: room {c} has {doors} door(s)");
            }
        }
    }
}

#[test]
fn any_loop_request_leaves_no_dead_end() {
    let open = open_set(3, 11, 0.2);
    for c in 0..9u32 {
        assert!(open.iter().filter(|(a, b)| *a == c || *b == c).count() >= 2);
    }
    let tree = open_set(3, 11, 0.0);
    assert_eq!(tree.len(), 8, "without loops the tree stays a tree");
}
