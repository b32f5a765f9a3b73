use forgia::damage_arcs::{hit_shows_arc, push_arc};
use std::collections::VecDeque;

#[test]
fn only_hits_on_the_player_from_someone_else_show_an_arc() {
    let player = 7;
    assert!(hit_shows_arc(player, Some(3), player));
    assert!(!hit_shows_arc(4, Some(3), player), "another target");
    assert!(!hit_shows_arc(player, None, player), "no attacker");
    assert!(!hit_shows_arc(player, Some(player), player), "self-damage");
}

#[test]
fn at_most_the_configured_arcs_are_shown_oldest_leaving_first() {
    let mut arcs: VecDeque<u32> = VecDeque::new();
    for i in 0..10 {
        push_arc(&mut arcs, 4, i);
        assert!(arcs.len() <= 4);
    }
    assert_eq!(arcs, VecDeque::from(vec![6, 7, 8, 9]));
}

#[test]
fn a_zero_cap_still_shows_the_latest_arc() {
    let mut arcs: VecDeque<u32> = VecDeque::new();
    push_arc(&mut arcs, 0, 1);
    push_arc(&mut arcs, 0, 2);
    assert_eq!(arcs, VecDeque::from(vec![2]));
}
