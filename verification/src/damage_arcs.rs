//! Decisions of the damage direction indicator: which hits show an arc, and
//! the bounded list of arcs on screen (oldest first).

use vstd::prelude::*;
use std::collections::VecDeque;

verus! {

/// Whether a hit shows an arc: it must hit the player and come from an
/// attacker other than the player (self-damage shows nothing). Entities are
/// given by their ids.
pub fn hit_shows_arc(target: u64, attacker: Option<u64>, player: u64) -> (b: bool)
    ensures
        b == (target == player && attacker is Some && attacker.unwrap() != player),
{
    if target != player {
        return false;
    }
    match attacker {
        Some(a) => a != player,
        None => false,
    }
}

/// The most arcs shown at once for a configured maximum (at least one).
pub open spec fn arc_cap(max_arcs: usize) -> int {
    if max_arcs >= 1 { max_arcs as int } else { 1 }
}

/// The arcs after a new one arrives: when the cap is reached, the oldest
/// leaves first.
pub open spec fn pushed_arcs<T>(arcs: Seq<T>, max_arcs: usize, arc: T) -> Seq<T> {
    if arcs.len() >= arc_cap(max_arcs) {
        arcs.drop_first().push(arc)
    } else {
        arcs.push(arc)
    }
}

/// Adds a new arc, dropping the oldest when `max(max_arcs, 1)` are shown.
pub fn push_arc<T>(arcs: &mut VecDeque<T>, max_arcs: usize, arc: T)
    ensures
        final(arcs)@ == pushed_arcs(old(arcs)@, max_arcs, arc),
        old(arcs)@.len() <= arc_cap(max_arcs) ==> final(arcs)@.len() <= arc_cap(max_arcs),
        final(arcs)@.last() == arc,
{
    let cap: usize = if max_arcs >= 1 { max_arcs } else { 1 };
    if arcs.len() >= cap {
        arcs.pop_front();
    }
    arcs.push_back(arc);
}

} // verus!
