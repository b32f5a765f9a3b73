//! Roguelite run graph: a seeded SplitMix64 stream drives a weighted draw of
//! stage kinds, with fixed floors (start, midpoint treasure, rest before the
//! boss, boss) and anti-repetition rules between consecutive depths.

use vstd::prelude::*;

verus! {

/// Golden-ratio increment of the SplitMix64 state.
pub const SPLITMIX_GAMMA: u64 = 0x9E37_79B9_7F4A_7C15;

/// First multiplier of the SplitMix64 output mixer.
pub const SPLITMIX_M1: u64 = 0xBF58_476D_1CE4_E5B9;

/// Second multiplier of the SplitMix64 output mixer.
pub const SPLITMIX_M2: u64 = 0x94D0_49BB_1331_11EB;

/// The state after one SplitMix64 step.
pub open spec fn splitmix_next_state(s: u64) -> u64 {
    vstd::wrapping::u64_specs::wrapping_add(s, SPLITMIX_GAMMA)
}

/// The SplitMix64 output mixer applied to an (already advanced) state.
#[verifier::opaque]
pub open spec fn splitmix_mix(z0: u64) -> u64 {
    let z1 = vstd::wrapping::u64_specs::wrapping_mul(z0 ^ (z0 >> 30u64), SPLITMIX_M1);
    let z2 = vstd::wrapping::u64_specs::wrapping_mul(z1 ^ (z1 >> 27u64), SPLITMIX_M2);
    z2 ^ (z2 >> 31u64)
}

/// The value drawn from state `s` (the state is advanced first, then mixed).
pub open spec fn splitmix_output(s: u64) -> u64 {
    splitmix_mix(splitmix_next_state(s))
}

/// SplitMix64 (Vigna 2014): advances `state` and returns the mixed value.
pub fn splitmix64(state: &mut u64) -> (r: u64)
    ensures
        *final(state) == splitmix_next_state(*old(state)),
        r == splitmix_output(*old(state)),
{
    reveal(splitmix_mix);
    *state = state.wrapping_add(SPLITMIX_GAMMA);
    let mut z = *state;
    z = (z ^ (z >> 30)).wrapping_mul(SPLITMIX_M1);
    z = (z ^ (z >> 27)).wrapping_mul(SPLITMIX_M2);
    z ^ (z >> 31)
}


/// `x ^ (x >> 30)` loses no information.
proof fn lemma_xorshift30_injective(a: u64, b: u64)
    by (bit_vector)
    requires
        a ^ (a >> 30u64) == b ^ (b >> 30u64),
    ensures
        a == b,
{
}

/// `x ^ (x >> 27)` loses no information.
proof fn lemma_xorshift27_injective(a: u64, b: u64)
    by (bit_vector)
    requires
        a ^ (a >> 27u64) == b ^ (b >> 27u64),
    ensures
        a == b,
{
}

/// `x ^ (x >> 31)` loses no information.
proof fn lemma_xorshift31_injective(a: u64, b: u64)
    by (bit_vector)
    requires
        a ^ (a >> 31u64) == b ^ (b >> 31u64),
    ensures
        a == b,
{
}

/// Multiplying by `c` and then by its inverse modulo 2^64 gives back the operand.
proof fn lemma_wrapping_mul_undo(a: u64, c: u64, cinv: u64, q: int)
    requires
        c as int * cinv as int == 1 + q * 0x1_0000_0000_0000_0000int,
        q >= 0,
    ensures
        vstd::wrapping::u64_specs::wrapping_mul(vstd::wrapping::u64_specs::wrapping_mul(a, c), cinv) == a,
{
    let m: int = 0x1_0000_0000_0000_0000int;
    let ac: int = a as int * c as int;
    assert(vstd::wrapping::u64_specs::wrapping_mul(a, c) as int == ac % m);
    vstd::arithmetic::div_mod::lemma_mul_mod_noop_general(ac, cinv as int, m);
    assert(ac * cinv as int == a as int + m * (a as int * q)) by (nonlinear_arith)
        requires
            ac == a as int * c as int,
            c as int * cinv as int == 1 + q * m,
    ;
    vstd::arithmetic::div_mod::lemma_mod_multiples_vanish(a as int * q, a as int, m);
    vstd::arithmetic::div_mod::lemma_small_mod(a as nat, m as nat);
}

/// Multiplication by an odd constant modulo 2^64 is injective.
proof fn lemma_wrapping_mul_injective(a: u64, b: u64, c: u64, cinv: u64, q: int)
    requires
        c as int * cinv as int == 1 + q * 0x1_0000_0000_0000_0000int,
        q >= 0,
        vstd::wrapping::u64_specs::wrapping_mul(a, c) == vstd::wrapping::u64_specs::wrapping_mul(b, c),
    ensures
        a == b,
{
    lemma_wrapping_mul_undo(a, c, cinv, q);
    lemma_wrapping_mul_undo(b, c, cinv, q);
}

/// The SplitMix64 mixer is a bijection; in particular it is injective.
pub proof fn lemma_splitmix_mix_injective(a: u64, b: u64)
    requires
        splitmix_mix(a) == splitmix_mix(b),
    ensures
        a == b,
{
    reveal(splitmix_mix);
    let a1 = vstd::wrapping::u64_specs::wrapping_mul(a ^ (a >> 30u64), SPLITMIX_M1);
    let b1 = vstd::wrapping::u64_specs::wrapping_mul(b ^ (b >> 30u64), SPLITMIX_M1);
    let a2 = vstd::wrapping::u64_specs::wrapping_mul(a1 ^ (a1 >> 27u64), SPLITMIX_M2);
    let b2 = vstd::wrapping::u64_specs::wrapping_mul(b1 ^ (b1 >> 27u64), SPLITMIX_M2);
    lemma_xorshift31_injective(a2, b2);
    lemma_wrapping_mul_injective(
        a1 ^ (a1 >> 27u64),
        b1 ^ (b1 >> 27u64),
        SPLITMIX_M2,
        0x3196_42B2_D24D_8EC3u64,
        2077064247507883091int,
    );
    lemma_xorshift27_injective(a1, b1);
    lemma_wrapping_mul_injective(
        a ^ (a >> 30u64),
        b ^ (b >> 30u64),
        SPLITMIX_M1,
        0x96DE_1B17_3F11_9089u64,
        8125545580553827436int,
    );
    lemma_xorshift30_injective(a, b);
}


/// The SplitMix64 state after `k` steps from `s0`.
#[verifier::opaque]
pub open spec fn splitmix_nth_state(s0: u64, k: nat) -> u64 {
    ((s0 as int + k * SPLITMIX_GAMMA as int) % 0x1_0000_0000_0000_0000int) as u64
}

/// One step from the `k`-th state is the `k + 1`-th state.
proof fn lemma_nth_state_step(s0: u64, k: nat)
    ensures
        splitmix_next_state(splitmix_nth_state(s0, k)) == splitmix_nth_state(s0, k + 1),
{
    reveal(splitmix_nth_state);
    let m: int = 0x1_0000_0000_0000_0000int;
    let x: int = s0 as int + k * SPLITMIX_GAMMA as int;
    vstd::arithmetic::div_mod::lemma_add_mod_noop(x, SPLITMIX_GAMMA as int, m);
    vstd::arithmetic::div_mod::lemma_small_mod(SPLITMIX_GAMMA as nat, m as nat);
    assert(x + SPLITMIX_GAMMA as int == s0 as int + (k + 1) * SPLITMIX_GAMMA as int) by (nonlinear_arith)
        requires
            x == s0 as int + k * SPLITMIX_GAMMA as int,
    ;
    let cur = splitmix_nth_state(s0, k);
    assert(cur as int == x % m);
    assert(splitmix_next_state(cur) as int == (cur as int + SPLITMIX_GAMMA as int) % m);
}

/// Two different step counts below 2^64 never lead to the same state.
proof fn lemma_nth_state_distinct(s0: u64, j: nat, k: nat)
    requires
        j < k,
        k < 0x1_0000_0000_0000_0000int,
    ensures
        splitmix_nth_state(s0, j) != splitmix_nth_state(s0, k),
{
    reveal(splitmix_nth_state);
    let m: int = 0x1_0000_0000_0000_0000int;
    let g: int = SPLITMIX_GAMMA as int;
    let xj: int = s0 as int + j * g;
    let xk: int = s0 as int + k * g;
    let d: int = k - j;
    if splitmix_nth_state(s0, j) == splitmix_nth_state(s0, k) {
        assert(xj % m == xk % m);
        vstd::arithmetic::div_mod::lemma_sub_mod_noop(xk, xj, m);
        assert(xk - xj == d * g) by (nonlinear_arith)
            requires xk == s0 as int + k * g, xj == s0 as int + j * g, d == k - j;
        assert((d * g) % m == 0);
        // multiply by the inverse of the gamma
        let ginv: int = 0xF1DE_83E1_9937_733Dint;
        let q: int = 10771413168148108919int;
        assert(g * ginv == 1 + q * m);
        vstd::arithmetic::div_mod::lemma_mul_mod_noop_general(d * g, ginv, m);
        assert(((d * g) % m) * ginv == 0);
        assert(0int % m == 0);
        assert((d * g) * ginv == d + m * (d * q)) by (nonlinear_arith)
            requires g * ginv == 1 + q * m;
        vstd::arithmetic::div_mod::lemma_mod_multiples_vanish(d * q, d, m);
        vstd::arithmetic::div_mod::lemma_small_mod(d as nat, m as nat);
        assert(false);
    }
}

/// The rejection threshold of an unbiased draw in `[0, max)`.
pub open spec fn roll_threshold(max: u64) -> u64
    recommends
        max > 0,
{
    (u64::MAX - (u64::MAX % max)) as u64
}

/// Rejection sampling from step `k` on, with `fuel` attempts left: the first
/// output under the threshold is reduced modulo `max`.
/// Returns the drawn value and the final state.
pub open spec fn roll_accept_from(s0: u64, max: u64, k: nat, fuel: nat) -> (u64, u64)
    decreases fuel,
{
    if fuel == 0 {
        (0, s0)
    } else {
        let out = splitmix_output(splitmix_nth_state(s0, k));
        if out < roll_threshold(max) {
            ((out % max) as u64, splitmix_nth_state(s0, k + 1))
        } else {
            roll_accept_from(s0, max, k + 1, (fuel - 1) as nat)
        }
    }
}

/// An unbiased draw in `[0, max)` from state `s0` (value, final state).
/// At most `max` outputs can be rejected, so `max + 1` attempts always suffice.
pub open spec fn roll_range_spec(s0: u64, max: u64) -> (u64, u64) {
    if max == 0 {
        (0, s0)
    } else {
        roll_accept_from(s0, max, 0, (max + 1) as nat)
    }
}

/// The outputs drawn in the first `i` steps from `s0`.
pub open spec fn drawn_before(s0: u64, i: nat, x: int) -> bool {
    exists|j: nat| j < i && x == splitmix_output(splitmix_nth_state(s0, j)) as int
}

/// One more rejected draw: the set of rejected outputs grows by one distinct
/// element and stays inside the rejection region.
proof fn lemma_roll_reject_step(s0: u64, max: u64, i: nat, seen: Set<int>, rejected: Set<int>) -> (seen2: Set<int>)
    requires
        max > 0,
        rejected == vstd::set_lib::set_int_range(roll_threshold(max) as int, u64::MAX as int + 1),
        rejected.finite(),
        rejected.len() == u64::MAX - roll_threshold(max) + 1,
        seen.finite(),
        seen.len() == i,
        seen.subset_of(rejected),
        forall|x: int| #[trigger] seen.contains(x) ==> drawn_before(s0, i, x),
        splitmix_output(splitmix_nth_state(s0, i)) >= roll_threshold(max),
        i <= max,
    ensures
        seen2.finite(),
        seen2.len() == i + 1,
        seen2.subset_of(rejected),
        forall|x: int| #[trigger] seen2.contains(x) ==> drawn_before(s0, i + 1, x),
        i + 1 <= max,
{
    let r = splitmix_output(splitmix_nth_state(s0, i));
    vstd::set_lib::lemma_len_subset(seen, rejected);
    if i + 1 >= 0x1_0000_0000_0000_0000int {
        assert(max == u64::MAX);
        assert(u64::MAX % max == 0) by {
            vstd::arithmetic::div_mod::lemma_mod_self_0(max as int);
        }
        assert(false);
    }
    if seen.contains(r as int) {
        let j = choose|j: nat| j < i && r as int == splitmix_output(splitmix_nth_state(s0, j)) as int;
        lemma_nth_state_step(s0, j);
        lemma_nth_state_step(s0, i);
        lemma_splitmix_mix_injective(splitmix_nth_state(s0, j + 1), splitmix_nth_state(s0, i + 1));
        lemma_nth_state_distinct(s0, j + 1, i + 1);
    }
    let seen2 = seen.insert(r as int);
    assert(seen2.subset_of(rejected));
    vstd::set_lib::lemma_len_subset(seen2, rejected);
    assert(u64::MAX % max < max) by {
        vstd::arithmetic::div_mod::lemma_mod_bound(u64::MAX as int, max as int);
    }
    assert forall|x: int| #[trigger] seen2.contains(x) implies drawn_before(s0, i + 1, x) by {
        if x != r as int {
            assert(seen.contains(x));
            assert(drawn_before(s0, i, x));
            let j = choose|j: nat| j < i && x == splitmix_output(splitmix_nth_state(s0, j)) as int;
            assert(j < i + 1);
        } else {
            assert(x == splitmix_output(splitmix_nth_state(s0, i)) as int);
        }
    }
    seen2
}

/// Draws a value in `[0, max)` without modulo bias (rejection sampling);
/// `max == 0` gives 0 and leaves the state untouched.
pub fn roll_range(state: &mut u64, max: u64) -> (r: u64)
    ensures
        (r, *final(state)) == roll_range_spec(*old(state), max),
        max > 0 ==> r < max,
        max == 0 ==> r == 0,
{
    if max == 0 {
        return 0;
    }
    let threshold = u64::MAX - (u64::MAX % max);
    let ghost s0 = *state;
    let ghost mut seen: Set<int> = Set::empty();
    let ghost mut i: nat = 0;
    let ghost rejected: Set<int> = vstd::set_lib::set_int_range(threshold as int, u64::MAX as int + 1);
    proof {
        vstd::set_lib::lemma_int_range(threshold as int, u64::MAX as int + 1);
        assert(splitmix_nth_state(s0, 0) == s0) by {
            reveal(splitmix_nth_state);
            vstd::arithmetic::div_mod::lemma_small_mod(s0 as nat, 0x1_0000_0000_0000_0000nat);
        }
    }
    loop
        invariant
            max > 0,
            s0 == *old(state),
            threshold == roll_threshold(max),
            rejected == vstd::set_lib::set_int_range(threshold as int, u64::MAX as int + 1),
            rejected.finite(),
            rejected.len() == u64::MAX - threshold + 1,
            *state == splitmix_nth_state(s0, i),
            seen.finite(),
            seen.len() == i,
            seen.subset_of(rejected),
            forall|x: int| #[trigger] seen.contains(x) ==> drawn_before(s0, i, x),
            i <= max,
            roll_range_spec(s0, max) == roll_accept_from(s0, max, i, (max + 1 - i) as nat),
        decreases max - i,
    {
        let r = splitmix64(state);
        proof {
            lemma_nth_state_step(s0, i);
        }
        if r < threshold {
            assert(roll_accept_from(s0, max, i, (max + 1 - i) as nat)
                == ((r % max) as u64, splitmix_nth_state(s0, i + 1)));
            return r % max;
        }
        proof {
            seen = lemma_roll_reject_step(s0, max, i, seen, rejected);
            i = i + 1;
        }
    }
}


// ─── Stage kinds ────────────────────────────────────────────────────────────

/// Kind of a stage in a roguelite run.
#[derive(Debug, Clone, Copy, PartialEq, Eq, Hash, Structural)]
pub enum StageKind {
    Combat,
    Elite,
    Shop,
    Event,
    Treasure,
    /// Rest stage (heal and upgrade).
    Rest,
    Boss,
}

/// Kinds that may not follow themselves at consecutive depths.
pub open spec fn is_restricted_kind(k: StageKind) -> bool {
    k == StageKind::Elite || k == StageKind::Shop || k == StageKind::Rest
}

impl StageKind {
    /// Identifier used in genome files and debug output.
    pub fn as_str(&self) -> (s: &'static str)
        ensures
            *self == StageKind::Combat ==> s@ == "combat"@,
            *self == StageKind::Elite ==> s@ == "elite"@,
            *self == StageKind::Shop ==> s@ == "shop"@,
            *self == StageKind::Event ==> s@ == "event"@,
            *self == StageKind::Treasure ==> s@ == "treasure"@,
            *self == StageKind::Rest ==> s@ == "rest"@,
            *self == StageKind::Boss ==> s@ == "boss"@,
    {
        match self {
            StageKind::Combat => "combat",
            StageKind::Elite => "elite",
            StageKind::Shop => "shop",
            StageKind::Event => "event",
            StageKind::Treasure => "treasure",
            StageKind::Rest => "rest",
            StageKind::Boss => "boss",
        }
    }

    /// Elite, Shop and Rest may not appear at two consecutive depths.
    pub fn is_restricted_consecutive(&self) -> (b: bool)
        ensures
            b == is_restricted_kind(*self),
    {
        match self {
            StageKind::Elite | StageKind::Shop | StageKind::Rest => true,
            _ => false,
        }
    }
}

// ─── Weighted draw of non-boss kinds ────────────────────────────────────────

/// Number of entries in the non-boss weight table.
pub const NONBOSS_KIND_COUNT: usize = 5;

/// Kind of entry `i` of the non-boss weight table (Combat, Event, Rest, Elite, Shop).
pub open spec fn nonboss_kind(i: int) -> StageKind {
    if i == 0 {
        StageKind::Combat
    } else if i == 1 {
        StageKind::Event
    } else if i == 2 {
        StageKind::Rest
    } else if i == 3 {
        StageKind::Elite
    } else {
        StageKind::Shop
    }
}

/// Weight of entry `i` of the non-boss weight table (53, 22, 12, 8, 5: total 100).
pub open spec fn nonboss_weight(i: int) -> u32 {
    if i == 0 {
        53
    } else if i == 1 {
        22
    } else if i == 2 {
        12
    } else if i == 3 {
        8
    } else {
        5
    }
}

/// Entry `i` of the non-boss weight table.
pub fn nonboss_entry(i: usize) -> (e: (StageKind, u32))
    requires
        i < NONBOSS_KIND_COUNT,
    ensures
        e.0 == nonboss_kind(i as int),
        e.1 == nonboss_weight(i as int),
{
    if i == 0 {
        (StageKind::Combat, 53)
    } else if i == 1 {
        (StageKind::Event, 22)
    } else if i == 2 {
        (StageKind::Rest, 12)
    } else if i == 3 {
        (StageKind::Elite, 8)
    } else {
        (StageKind::Shop, 5)
    }
}

/// Sum of the weights of table entries `0..upto` that `forbidden` does not hold.
pub open spec fn allowed_weight(forbidden: Seq<StageKind>, upto: int) -> int
    decreases upto,
{
    if upto <= 0 {
        0
    } else {
        allowed_weight(forbidden, upto - 1) + if forbidden.contains(nonboss_kind(upto - 1)) {
            0int
        } else {
            nonboss_weight(upto - 1) as int
        }
    }
}

/// Walks the table from entry `i` with running sum `accum` and returns the first
/// allowed kind whose cumulated weight exceeds `roll` (Combat past the end).
pub open spec fn kind_for_roll(roll: int, forbidden: Seq<StageKind>, i: int, accum: int) -> StageKind
    decreases 5 - i,
{
    if i >= 5 || i < 0 {
        StageKind::Combat
    } else if forbidden.contains(nonboss_kind(i)) {
        kind_for_roll(roll, forbidden, i + 1, accum)
    } else if roll < accum + nonboss_weight(i) {
        nonboss_kind(i)
    } else {
        kind_for_roll(roll, forbidden, i + 1, accum + nonboss_weight(i))
    }
}

/// The weighted draw of a non-boss kind avoiding `forbidden`, from state `s0`
/// (kind, final state). Combat when every kind is forbidden.
pub open spec fn pick_nonboss_spec(s0: u64, forbidden: Seq<StageKind>) -> (StageKind, u64) {
    let total = allowed_weight(forbidden, 5);
    if total == 0 {
        (StageKind::Combat, s0)
    } else {
        let (r, s1) = roll_range_spec(s0, total as u64);
        (kind_for_roll(r as int, forbidden, 0, 0), s1)
    }
}

/// Whether `s` holds `k`.
pub fn contains_kind(s: &[StageKind], k: StageKind) -> (b: bool)
    ensures
        b == s@.contains(k),
{
    let mut i: usize = 0;
    while i < s.len()
        invariant
            i <= s@.len(),
            forall|j: int| 0 <= j < i ==> s@[j] != k,
        decreases s@.len() - i,
    {
        if s[i] == k {
            assert(s@[i as int] == k);
            return true;
        }
        i += 1;
    }
    false
}

proof fn lemma_allowed_weight_bounds(forbidden: Seq<StageKind>, upto: int)
    requires
        0 <= upto <= 5,
    ensures
        0 <= allowed_weight(forbidden, upto) <= 100,
        upto == 5 ==> allowed_weight(forbidden, upto) <= 100,
    decreases upto,
{
    if upto > 0 {
        lemma_allowed_weight_bounds(forbidden, upto - 1);
    }
    assert(allowed_weight(forbidden, upto) <= if upto == 0 { 0int } else if upto == 1 { 53int }
        else if upto == 2 { 75int } else if upto == 3 { 87int } else if upto == 4 { 95int } else { 100int }) by {
        reveal_with_fuel(allowed_weight, 6);
    }
}

/// A roll below the remaining allowed weight always lands on an allowed kind.
proof fn lemma_kind_for_roll_allowed(roll: int, forbidden: Seq<StageKind>, i: int, accum: int)
    requires
        0 <= i <= 5,
        accum <= roll,
        roll < accum + allowed_weight(forbidden, 5) - allowed_weight(forbidden, i),
    ensures
        !forbidden.contains(kind_for_roll(roll, forbidden, i, accum)),
        kind_for_roll(roll, forbidden, i, accum) != StageKind::Boss,
        kind_for_roll(roll, forbidden, i, accum) != StageKind::Treasure,
    decreases 5 - i,
{
    lemma_allowed_weight_split(forbidden, i);
    if i < 5 {
        if forbidden.contains(nonboss_kind(i)) {
            lemma_kind_for_roll_allowed(roll, forbidden, i + 1, accum);
        } else if roll < accum + nonboss_weight(i) {
        } else {
            lemma_kind_for_roll_allowed(roll, forbidden, i + 1, accum + nonboss_weight(i));
        }
    }
}

/// `allowed_weight` over `0..5` splits at `i` into `0..i` and entry `i` plus the rest.
proof fn lemma_allowed_weight_split(forbidden: Seq<StageKind>, i: int)
    requires
        0 <= i <= 5,
    ensures
        i < 5 ==> allowed_weight(forbidden, i + 1) == allowed_weight(forbidden, i)
            + if forbidden.contains(nonboss_kind(i)) { 0int } else { nonboss_weight(i) as int },
        allowed_weight(forbidden, i) <= allowed_weight(forbidden, 5),
    decreases 5 - i,
{
    if i < 5 {
        lemma_allowed_weight_split(forbidden, i + 1);
    }
}

/// Draws a non-boss kind by the table weights, never one that `forbidden_set`
/// holds; Combat when every kind is forbidden.
pub fn pick_nonboss_kind_with_multi(state: &mut u64, forbidden_set: &[StageKind]) -> (k: StageKind)
    ensures
        (k, *final(state)) == pick_nonboss_spec(*old(state), forbidden_set@),
        allowed_weight(forbidden_set@, 5) > 0 ==> !forbidden_set@.contains(k),
        k != StageKind::Boss,
        k != StageKind::Treasure,
{
    let mut total: u32 = 0;
    let mut i: usize = 0;
    while i < NONBOSS_KIND_COUNT
        invariant
            i <= 5,
            total as int == allowed_weight(forbidden_set@, i as int),
        decreases 5 - i,
    {
        proof {
            lemma_allowed_weight_bounds(forbidden_set@, i as int + 1);
        }
        let (kind, w) = nonboss_entry(i);
        if !contains_kind(forbidden_set, kind) {
            total += w;
        }
        i += 1;
    }
    if total == 0 {
        return StageKind::Combat;
    }
    let ghost s0 = *state;
    let roll64 = roll_range(state, total as u64);
    let roll = roll64 as u32;
    proof {
        lemma_kind_for_roll_allowed(roll as int, forbidden_set@, 0, 0);
        assert(roll as u64 == roll64);
        assert(pick_nonboss_spec(s0, forbidden_set@)
            == (kind_for_roll(roll as int, forbidden_set@, 0, 0), *state));
    }
    let mut accum: u32 = 0;
    let mut j: usize = 0;
    while j < NONBOSS_KIND_COUNT
        invariant
            j <= 5,
            roll < total,
            total as int == allowed_weight(forbidden_set@, 5),
            accum as int == allowed_weight(forbidden_set@, j as int),
            accum <= roll,
            kind_for_roll(roll as int, forbidden_set@, 0, 0)
                == kind_for_roll(roll as int, forbidden_set@, j as int, accum as int),
            pick_nonboss_spec(*old(state), forbidden_set@)
                == (kind_for_roll(roll as int, forbidden_set@, 0, 0), *state),
        decreases 5 - j,
    {
        proof {
            lemma_allowed_weight_split(forbidden_set@, j as int);
            lemma_allowed_weight_bounds(forbidden_set@, 5);
        }
        let (kind, w) = nonboss_entry(j);
        if contains_kind(forbidden_set, kind) {
            j += 1;
            continue;
        }
        accum += w;
        if roll < accum {
            return kind;
        }
        j += 1;
    }
    proof {
        assert(accum as int == allowed_weight(forbidden_set@, 5));
    }
    StageKind::Combat
}

/// As [`pick_nonboss_kind_with_multi`] with at most one forbidden kind.
pub fn pick_nonboss_kind_with_constraint(state: &mut u64, forbidden: Option<StageKind>) -> (k: StageKind)
    ensures
        (k, *final(state)) == pick_nonboss_spec(*old(state), match forbidden {
            Some(f) => seq![f],
            None => Seq::<StageKind>::empty(),
        }),
        forbidden matches Some(f) ==> k != f,
        k != StageKind::Boss,
{
    let mut set: Vec<StageKind> = Vec::new();
    if let Some(f) = forbidden {
        set.push(f);
    }
    proof {
        if let Some(f) = forbidden {
            assert(set@ =~= seq![f]);
            if f == StageKind::Combat {
                assert(!set@.contains(StageKind::Event));
                reveal_with_fuel(allowed_weight, 6);
            } else {
                assert(!set@.contains(StageKind::Combat));
                reveal_with_fuel(allowed_weight, 6);
            }
            assert(allowed_weight(set@, 5) > 0);
        } else {
            assert(set@ =~= Seq::<StageKind>::empty());
        }
    }
    let k = pick_nonboss_kind_with_multi(state, set.as_slice());
    proof {
        if let Some(f) = forbidden {
            assert(set@[0] == f);
        }
    }
    k
}


/// With at most four forbidden kinds, some non-boss kind is still allowed.
pub proof fn lemma_small_forbid_set_leaves_a_kind(forbidden: Seq<StageKind>)
    requires
        forbidden.len() <= 4,
    ensures
        allowed_weight(forbidden, 5) > 0,
{
    broadcast use vstd::set::group_set_axioms, vstd::seq_lib::seq_to_set_is_finite;
    reveal_with_fuel(allowed_weight, 6);
    if allowed_weight(forbidden, 5) <= 0 {
        let all = set![StageKind::Combat, StageKind::Event, StageKind::Rest, StageKind::Elite, StageKind::Shop];
        assert(forbidden.contains(StageKind::Combat));
        assert(forbidden.contains(StageKind::Event));
        assert(forbidden.contains(StageKind::Rest));
        assert(forbidden.contains(StageKind::Elite));
        assert(forbidden.contains(StageKind::Shop));
        assert(all.subset_of(forbidden.to_set()));
        forbidden.lemma_cardinality_of_set();
        vstd::set_lib::lemma_len_subset(all, forbidden.to_set());
        assert(all.len() == 5);
        assert(false);
    }
}

// ─── Fixed floors ───────────────────────────────────────────────────────────

/// The kind imposed at `depth` in a run of `total` stages, if any: Combat at the
/// start, Boss at the last depth, Rest just before the boss (total >= 5) and
/// Treasure at the midpoint (total >= 8).
pub open spec fn forced_kind(depth: u8, total: u8) -> Option<StageKind> {
    let boss_depth: int = if total >= 1 { total - 1 } else { 0 };
    let pre_boss: int = if boss_depth >= 1 { boss_depth - 1 } else { 0 };
    if depth == 0 {
        Some(StageKind::Combat)
    } else if depth == boss_depth {
        Some(StageKind::Boss)
    } else if total >= 5 && depth == pre_boss {
        Some(StageKind::Rest)
    } else if total >= 8 && depth == total / 2 {
        Some(StageKind::Treasure)
    } else {
        None
    }
}

/// Fixed floors: Combat at depth 0, Boss at the last depth, Rest before the boss
/// when `total >= 5`, Treasure at `total / 2` when `total >= 8`.
pub fn forced_kind_for_depth(depth: u8, total: u8) -> (k: Option<StageKind>)
    ensures
        k == forced_kind(depth, total),
{
    let boss_depth = total.saturating_sub(1);
    if depth == 0 {
        Some(StageKind::Combat)
    } else if depth == boss_depth {
        Some(StageKind::Boss)
    } else if total >= 5 && depth == boss_depth.saturating_sub(1) {
        Some(StageKind::Rest)
    } else if total >= 8 && depth == total / 2 {
        Some(StageKind::Treasure)
    } else {
        None
    }
}

// ─── Stage nodes and run graph ──────────────────────────────────────────────

/// A stage: kind, difficulty budget, depth and variant index.
#[derive(Debug, Clone, Copy, PartialEq, Eq, Structural)]
pub struct StageNode {
    pub kind: StageKind,
    pub difficulty_budget: u32,
    pub depth: u8,
    pub variant_index: u8,
}

/// A generated run: `stages[depth][variant]`.
pub struct RunGraph {
    pub seed: u64,
    pub total_stages: u8,
    pub branching: u8,
    pub stages: Vec<Vec<StageNode>>,
}

/// The state from which the kind of variant `v` at `depth` is drawn.
pub open spec fn variant_state(seed: u64, depth: u8, v: u8) -> u64 {
    seed ^ vstd::wrapping::u64_specs::wrapping_mul(depth as u64, SPLITMIX_GAMMA)
        ^ vstd::wrapping::u64_specs::wrapping_mul(v as u64, SPLITMIX_M1)
}

/// The restricted kinds among the first `n` of `kinds`, each once, in the
/// order in which they first appear.
pub open spec fn restricted_kinds_upto(kinds: Seq<StageKind>, n: nat) -> Seq<StageKind>
    decreases n,
{
    if n == 0 {
        Seq::empty()
    } else {
        let r = restricted_kinds_upto(kinds, (n - 1) as nat);
        let k = kinds[n - 1];
        if is_restricted_kind(k) && !r.contains(k) {
            r.push(k)
        } else {
            r
        }
    }
}

/// The restricted kinds (Elite, Shop, Rest) present in `kinds`, each once.
pub open spec fn restricted_kinds(kinds: Seq<StageKind>) -> Seq<StageKind> {
    restricted_kinds_upto(kinds, kinds.len())
}

/// `intra` followed by the first `m` kinds of `carried` that it does not hold yet.
pub open spec fn forbid_with(intra: Seq<StageKind>, carried: Seq<StageKind>, m: nat) -> Seq<StageKind>
    decreases m,
{
    if m == 0 {
        intra
    } else {
        let f = forbid_with(intra, carried, (m - 1) as nat);
        let k = carried[m - 1];
        if f.contains(k) {
            f
        } else {
            f.push(k)
        }
    }
}

/// The kinds forbidden to the next variant: those already drawn at this depth,
/// plus every restricted kind carried over from the previous depth.
pub open spec fn forbid_seq(intra: Seq<StageKind>, carried: Seq<StageKind>) -> Seq<StageKind> {
    forbid_with(intra, carried, carried.len())
}

/// Kinds of the first `count` variants at `depth`.
pub open spec fn depth_kinds(seed: u64, depth: u8, total: u8, count: nat, carried: Seq<StageKind>) -> Seq<StageKind>
    decreases count,
{
    if count == 0 {
        Seq::empty()
    } else {
        let prev = depth_kinds(seed, depth, total, (count - 1) as nat, carried);
        let k = match forced_kind(depth, total) {
            Some(fk) => fk,
            None => pick_nonboss_spec(variant_state(seed, depth, (count - 1) as u8), forbid_seq(prev, carried)).0,
        };
        prev.push(k)
    }
}

/// Number of variants at `depth`: one at the start and at the boss, `branching` elsewhere.
pub open spec fn variant_count(depth: int, total: u8, branching: u8) -> nat {
    if depth == 0 || depth == total - 1 {
        1
    } else {
        branching as nat
    }
}

/// The restricted kinds carried into `depth` from the depth before it.
pub open spec fn carried_kind(prev: Seq<Seq<StageKind>>, depth: u8, total: u8) -> Seq<StageKind> {
    if forced_kind(depth, total) is Some || prev.len() == 0 {
        Seq::empty()
    } else {
        restricted_kinds(prev.last())
    }
}

/// Kinds of the first `upto` depths of the run (normalised `total` and `branching`).
pub open spec fn graph_kinds(seed: u64, total: u8, branching: u8, upto: nat) -> Seq<Seq<StageKind>>
    decreases upto,
{
    if upto == 0 {
        Seq::empty()
    } else {
        let prev = graph_kinds(seed, total, branching, (upto - 1) as nat);
        let d = (upto - 1) as u8;
        prev.push(depth_kinds(seed, d, total, variant_count(d as int, total, branching), carried_kind(prev, d, total)))
    }
}

/// The normalised stage count: at least a start and a boss.
pub open spec fn normal_total(total_stages: u8) -> u8 {
    if total_stages < 2 { 2 } else { total_stages }
}

/// The normalised branching: at least one variant.
pub open spec fn normal_branching(branching: u8) -> u8 {
    if branching < 1 { 1 } else { branching }
}

/// Kinds of the whole run generated from these parameters.
pub open spec fn run_kinds(seed: u64, total_stages: u8, branching: u8) -> Seq<Seq<StageKind>> {
    let t = normal_total(total_stages);
    graph_kinds(seed, t, normal_branching(branching), t as nat)
}

proof fn lemma_graph_kinds_prefix(seed: u64, total: u8, branching: u8, upto: nat, d: int)
    requires
        0 <= d < upto,
    ensures
        graph_kinds(seed, total, branching, upto).len() == upto,
        graph_kinds(seed, total, branching, upto)[d] == graph_kinds(seed, total, branching, (d + 1) as nat)[d],
    decreases upto,
{
    if upto > d + 1 {
        lemma_graph_kinds_prefix(seed, total, branching, (upto - 1) as nat, d);
    }
    lemma_graph_kinds_len(seed, total, branching, upto);
}

proof fn lemma_graph_kinds_len(seed: u64, total: u8, branching: u8, upto: nat)
    ensures
        graph_kinds(seed, total, branching, upto).len() == upto,
    decreases upto,
{
    if upto > 0 {
        lemma_graph_kinds_len(seed, total, branching, (upto - 1) as nat);
    }
}

proof fn lemma_depth_kinds_prefix(seed: u64, depth: u8, total: u8, count: nat, carried: Seq<StageKind>, v: int)
    requires
        0 <= v < count,
    ensures
        depth_kinds(seed, depth, total, count, carried).len() == count,
        depth_kinds(seed, depth, total, count, carried)[v] == depth_kinds(seed, depth, total, (v + 1) as nat, carried)[v],
    decreases count,
{
    lemma_depth_kinds_len(seed, depth, total, count, carried);
    if count > v + 1 {
        lemma_depth_kinds_prefix(seed, depth, total, (count - 1) as nat, carried, v);
    }
}

proof fn lemma_depth_kinds_len(seed: u64, depth: u8, total: u8, count: nat, carried: Seq<StageKind>)
    ensures
        depth_kinds(seed, depth, total, count, carried).len() == count,
    decreases count,
{
    if count > 0 {
        lemma_depth_kinds_len(seed, depth, total, (count - 1) as nat, carried);
    }
}

proof fn lemma_restricted_kinds_upto(kinds: Seq<StageKind>, n: nat)
    requires
        n <= kinds.len(),
    ensures
        restricted_kinds_upto(kinds, n).no_duplicates(),
        forall|j: int| 0 <= j < restricted_kinds_upto(kinds, n).len()
            ==> is_restricted_kind(#[trigger] restricted_kinds_upto(kinds, n)[j]),
        forall|i: int| 0 <= i < n && is_restricted_kind(kinds[i])
            ==> restricted_kinds_upto(kinds, n).contains(#[trigger] kinds[i]),
    decreases n,
{
    if n > 0 {
        let m = (n - 1) as nat;
        lemma_restricted_kinds_upto(kinds, m);
        let r = restricted_kinds_upto(kinds, m);
        let k = kinds[m as int];
        if is_restricted_kind(k) && !r.contains(k) {
            assert(restricted_kinds_upto(kinds, n) == r.push(k));
            assert forall|i: int| 0 <= i < n && is_restricted_kind(kinds[i])
                implies r.push(k).contains(#[trigger] kinds[i]) by {
                if i < m {
                    let w = choose|w: int| 0 <= w < r.len() && r[w] == kinds[i];
                    assert(r.push(k)[w] == kinds[i]);
                } else {
                    assert(r.push(k)[r.len() as int] == k);
                }
            }
        }
    }
}

proof fn lemma_forbid_with(intra: Seq<StageKind>, carried: Seq<StageKind>, m: nat)
    requires
        m <= carried.len(),
    ensures
        forbid_with(intra, carried, m).len() <= intra.len() + m,
        forall|i: int| 0 <= i < intra.len() ==> forbid_with(intra, carried, m).contains(#[trigger] intra[i]),
        forall|j: int| 0 <= j < m ==> forbid_with(intra, carried, m).contains(#[trigger] carried[j]),
    decreases m,
{
    if m > 0 {
        let p = (m - 1) as nat;
        lemma_forbid_with(intra, carried, p);
        let f = forbid_with(intra, carried, p);
        let k = carried[p as int];
        if !f.contains(k) {
            assert(forbid_with(intra, carried, m) == f.push(k));
            assert forall|i: int| 0 <= i < intra.len() implies f.push(k).contains(#[trigger] intra[i]) by {
                let w = choose|w: int| 0 <= w < f.len() && f[w] == intra[i];
                assert(f.push(k)[w] == intra[i]);
            }
            assert forall|j: int| 0 <= j < m implies f.push(k).contains(#[trigger] carried[j]) by {
                if j < p {
                    let w = choose|w: int| 0 <= w < f.len() && f[w] == carried[j];
                    assert(f.push(k)[w] == carried[j]);
                } else {
                    assert(f.push(k)[f.len() as int] == k);
                }
            }
        }
    }
}

/// The restricted kinds present in `kinds`, each once (see [`restricted_kinds`]).
pub fn restricted_kinds_of(kinds: &Vec<StageKind>) -> (r: Vec<StageKind>)
    ensures
        r@ == restricted_kinds(kinds@),
{
    let mut r: Vec<StageKind> = Vec::new();
    let mut i: usize = 0;
    while i < kinds.len()
        invariant
            i <= kinds@.len(),
            r@ == restricted_kinds_upto(kinds@, i as nat),
        decreases kinds@.len() - i,
    {
        let k = kinds[i];
        if k.is_restricted_consecutive() && !contains_kind(r.as_slice(), k) {
            r.push(k);
        }
        i += 1;
    }
    r
}

/// The forbidden set of the next variant (see [`forbid_seq`]).
fn forbid_set_for(intra: &Vec<StageKind>, carried: &Vec<StageKind>) -> (r: Vec<StageKind>)
    ensures
        r@ == forbid_seq(intra@, carried@),
{
    let mut r: Vec<StageKind> = Vec::new();
    let mut i: usize = 0;
    while i < intra.len()
        invariant
            i <= intra@.len(),
            r@ == intra@.subrange(0, i as int),
        decreases intra@.len() - i,
    {
        r.push(intra[i]);
        i += 1;
    }
    assert(r@ =~= intra@);
    let mut m: usize = 0;
    while m < carried.len()
        invariant
            m <= carried@.len(),
            r@ == forbid_with(intra@, carried@, m as nat),
        decreases carried@.len() - m,
    {
        let f = carried[m];
        if !contains_kind(r.as_slice(), f) {
            r.push(f);
        }
        m += 1;
    }
    r
}

/// The node at `(depth, v)` of a run built with these budgets.
pub open spec fn run_node(kinds: Seq<Seq<StageKind>>, budgets: Seq<u32>, d: int, v: int) -> StageNode {
    StageNode {
        kind: kinds[d][v],
        difficulty_budget: budgets[d],
        depth: d as u8,
        variant_index: v as u8,
    }
}

/// Generates the `count` variants at `depth` and returns them with their kinds.
fn generate_depth(seed: u64, depth: u8, total: u8, count: u8, carried: &Vec<StageKind>, budget: u32)
    -> (r: (Vec<StageNode>, Vec<StageKind>))
    ensures
        r.1@ == depth_kinds(seed, depth, total, count as nat, carried@),
        r.0@.len() == count,
        forall|j: int| 0 <= j < count ==> #[trigger] r.0@[j] == (StageNode {
            kind: r.1@[j],
            difficulty_budget: budget,
            depth: depth,
            variant_index: j as u8,
        }),
{
    let forced = forced_kind_for_depth(depth, total);
    let mut variants: Vec<StageNode> = Vec::new();
    let mut intra: Vec<StageKind> = Vec::new();
    let mut v: u8 = 0;
    while v < count
        invariant
            v <= count,
            intra@ == depth_kinds(seed, depth, total, v as nat, carried@),
            intra@.len() == v,
            variants@.len() == v,
            forced == forced_kind(depth, total),
            forall|j: int| 0 <= j < v ==> #[trigger] variants@[j] == (StageNode {
                kind: intra@[j],
                difficulty_budget: budget,
                depth: depth,
                variant_index: j as u8,
            }),
        decreases count - v,
    {
        let mut state: u64 = seed ^ (depth as u64).wrapping_mul(SPLITMIX_GAMMA)
            ^ (v as u64).wrapping_mul(SPLITMIX_M1);
        assert(state == variant_state(seed, depth, v));
        let kind = match forced {
            Some(fk) => fk,
            None => {
                let forbid = forbid_set_for(&intra, carried);
                pick_nonboss_kind_with_multi(&mut state, forbid.as_slice())
            },
        };
        assert(depth_kinds(seed, depth, total, v as nat + 1, carried@) == intra@.push(kind));
        intra.push(kind);
        variants.push(StageNode { kind, difficulty_budget: budget, depth, variant_index: v });
        v += 1;
    }
    (variants, intra)
}

/// Generates the run for `seed`: one start variant, `branching` variants per
/// middle depth, one boss variant. `budgets[depth]` is the difficulty budget of
/// every stage at that depth.
pub fn generate_run_graph(total_stages: u8, branching: u8, budgets: &[u32], seed: u64) -> (g: RunGraph)
    requires
        budgets@.len() >= normal_total(total_stages),
    ensures
        g.seed == seed,
        g.total_stages == normal_total(total_stages),
        g.branching == normal_branching(branching),
        g.stages@.len() == g.total_stages,
        forall|d: int| 0 <= d < g.stages@.len() ==> #[trigger] g.stages@[d]@.len()
            == run_kinds(seed, total_stages, branching)[d].len(),
        forall|d: int, v: int| 0 <= d < g.stages@.len() && 0 <= v < g.stages@[d]@.len()
            ==> #[trigger] g.stages@[d]@[v] == run_node(run_kinds(seed, total_stages, branching), budgets@, d, v),
        is_generated_run(g, total_stages, branching, budgets@, seed),
{
    let total: u8 = if total_stages < 2 { 2 } else { total_stages };
    let boss_depth: u8 = total - 1;
    let br: u8 = if branching < 1 { 1 } else { branching };
    let ghost kinds = run_kinds(seed, total_stages, branching);
    let mut stages: Vec<Vec<StageNode>> = Vec::new();
    let mut prev_kinds: Vec<StageKind> = Vec::new();
    let mut depth: u8 = 0;
    while depth < total
        invariant
            total == normal_total(total_stages),
            br == normal_branching(branching),
            boss_depth == total - 1,
            budgets@.len() >= total,
            kinds == graph_kinds(seed, total, br, total as nat),
            depth <= total,
            stages@.len() == depth,
            depth > 0 ==> prev_kinds@ == graph_kinds(seed, total, br, depth as nat)[depth - 1],
            forall|d: int| 0 <= d < depth ==> #[trigger] stages@[d]@.len()
                == graph_kinds(seed, total, br, (d + 1) as nat)[d].len(),
            forall|d: int, v: int| 0 <= d < depth && 0 <= v < stages@[d]@.len()
                ==> #[trigger] stages@[d]@[v] == run_node(graph_kinds(seed, total, br, (d + 1) as nat), budgets@, d, v),
        decreases total - depth,
    {
        let ghost prev_graph = graph_kinds(seed, total, br, depth as nat);
        proof {
            lemma_graph_kinds_len(seed, total, br, depth as nat);
        }
        let forced = forced_kind_for_depth(depth, total);
        let carried = if forced.is_some() || depth == 0 {
            Vec::new()
        } else {
            restricted_kinds_of(&prev_kinds)
        };
        let count: u8 = if depth == 0 || depth == boss_depth { 1 } else { br };
        let ghost next_graph = graph_kinds(seed, total, br, depth as nat + 1);
        assert(carried@ == carried_kind(prev_graph, depth, total));
        assert(next_graph == prev_graph.push(depth_kinds(seed, depth, total, count as nat, carried@)));
        let (variants, intra) = generate_depth(seed, depth, total, count, &carried, budgets[depth as usize]);
        proof {
            lemma_graph_kinds_len(seed, total, br, depth as nat + 1);
            assert forall|d: int| 0 <= d < depth + 1 implies #[trigger] stages@.push(variants)[d]@.len()
                == graph_kinds(seed, total, br, (d + 1) as nat)[d].len() by {
                if d == depth {
                    lemma_depth_kinds_len(seed, depth, total, count as nat, carried@);
                }
            }
        }
        stages.push(variants);
        prev_kinds = intra;
        depth += 1;
    }
    proof {
        assert forall|d: int| 0 <= d < total implies #[trigger] graph_kinds(seed, total, br, total as nat)[d]
            == graph_kinds(seed, total, br, (d + 1) as nat)[d] by {
            lemma_graph_kinds_prefix(seed, total, br, total as nat, d);
        }
    }
    RunGraph { seed, total_stages: total, branching: br, stages }
}

/// `g` is the run that [`generate_run_graph`] returns for these inputs.
pub open spec fn is_generated_run(g: RunGraph, total_stages: u8, branching: u8, budgets: Seq<u32>, seed: u64) -> bool {
    &&& g.seed == seed
    &&& g.total_stages == normal_total(total_stages)
    &&& g.branching == normal_branching(branching)
    &&& g.stages@.len() == g.total_stages
    &&& forall|d: int| 0 <= d < g.stages@.len() ==> #[trigger] g.stages@[d]@.len()
        == run_kinds(seed, total_stages, branching)[d].len()
    &&& forall|d: int, v: int| 0 <= d < g.stages@.len() && 0 <= v < g.stages@[d]@.len()
        ==> #[trigger] g.stages@[d]@[v] == run_node(run_kinds(seed, total_stages, branching), budgets, d, v)
}

/// Generation is deterministic: two runs generated from the same seed, stage
/// count, branching and budgets are identical, stage by stage.
pub proof fn lemma_generation_deterministic(
    g1: RunGraph,
    g2: RunGraph,
    total_stages: u8,
    branching: u8,
    budgets: Seq<u32>,
    seed: u64,
)
    requires
        is_generated_run(g1, total_stages, branching, budgets, seed),
        is_generated_run(g2, total_stages, branching, budgets, seed),
    ensures
        g1.seed == g2.seed,
        g1.total_stages == g2.total_stages,
        g1.branching == g2.branching,
        g1.stages@.len() == g2.stages@.len(),
        forall|d: int| 0 <= d < g1.stages@.len() ==> #[trigger] g1.stages@[d]@ == g2.stages@[d]@,
{
    assert forall|d: int| 0 <= d < g1.stages@.len() implies #[trigger] g1.stages@[d]@ == g2.stages@[d]@ by {
        assert(g1.stages@[d]@ =~= g2.stages@[d]@);
    }
}


/// The shape of every generated run: `total` (at least 2) depths, one stage
/// at the start and at the boss, `branching` (at least 1) stages at every
/// middle depth, and each stage records its own depth and variant index.
pub proof fn lemma_generated_run_structure(g: RunGraph, total_stages: u8, branching: u8, budgets: Seq<u32>, seed: u64)
    requires
        is_generated_run(g, total_stages, branching, budgets, seed),
    ensures
        g.total_stages >= 2,
        g.branching >= 1,
        g.stages@.len() == g.total_stages,
        g.stages@[0]@.len() == 1,
        g.stages@[g.total_stages - 1]@.len() == 1,
        forall|d: int| 0 < d < g.total_stages - 1 ==> #[trigger] g.stages@[d]@.len() == g.branching,
        forall|d: int, v: int| 0 <= d < g.stages@.len() && 0 <= v < g.stages@[d]@.len() ==>
            #[trigger] g.stages@[d]@[v].depth == d && g.stages@[d]@[v].variant_index == v,
{
    lemma_run_shape(seed, total_stages, branching);
    let t = normal_total(total_stages);
    assert forall|d: int| 0 < d < t - 1 implies #[trigger] g.stages@[d]@.len() == g.branching by {
        assert(run_kinds(seed, total_stages, branching)[d].len() == normal_branching(branching));
    }
    assert forall|d: int, v: int| 0 <= d < g.stages@.len() && 0 <= v < g.stages@[d]@.len() implies
        #[trigger] g.stages@[d]@[v].depth == d && g.stages@[d]@[v].variant_index == v by {
        assert(g.stages@[d]@[v] == run_node(run_kinds(seed, total_stages, branching), budgets, d, v));
        assert(g.stages@[d]@.len() <= 255) by {
            if d == 0 || d == t - 1 {
            } else {
                assert(run_kinds(seed, total_stages, branching)[d].len() == normal_branching(branching));
            }
        }
    }
    assert(g.stages@[0]@.len() == run_kinds(seed, total_stages, branching)[0].len());
    assert(g.stages@[t - 1]@.len() == run_kinds(seed, total_stages, branching)[t - 1].len());
}

/// Every cell of a run draws from its own state: the state of variant `v` at
/// depth `d` changes with the depth for a fixed variant, and with the variant
/// for a fixed depth.
pub proof fn lemma_cell_states_are_distinct(seed: u64, d1: u8, d2: u8, v1: u8, v2: u8)
    ensures
        d1 != d2 ==> variant_state(seed, d1, v1) != variant_state(seed, d2, v1),
        v1 != v2 ==> variant_state(seed, d1, v1) != variant_state(seed, d1, v2),
{
    let ga = vstd::wrapping::u64_specs::wrapping_mul(d1 as u64, SPLITMIX_GAMMA);
    let gb = vstd::wrapping::u64_specs::wrapping_mul(d2 as u64, SPLITMIX_GAMMA);
    let ma = vstd::wrapping::u64_specs::wrapping_mul(v1 as u64, SPLITMIX_M1);
    let mb = vstd::wrapping::u64_specs::wrapping_mul(v2 as u64, SPLITMIX_M1);
    if d1 != d2 && variant_state(seed, d1, v1) == variant_state(seed, d2, v1) {
        assert(seed ^ ga ^ ma == seed ^ gb ^ ma ==> ga == gb) by (bit_vector);
        lemma_wrapping_mul_injective(d1 as u64, d2 as u64, SPLITMIX_GAMMA, 0xF1DE_83E1_9937_733Du64,
            10771413168148108919int);
    }
    if v1 != v2 && variant_state(seed, d1, v1) == variant_state(seed, d1, v2) {
        assert(seed ^ ga ^ ma == seed ^ ga ^ mb ==> ma == mb) by (bit_vector);
        lemma_wrapping_mul_injective(v1 as u64, v2 as u64, SPLITMIX_M1, 0x96DE_1B17_3F11_9089u64,
            8125545580553827436int);
    }
}

/// How each free cell of a run is drawn: the kind of variant `v` at a depth
/// `d` without a fixed floor is the weighted draw from the state
/// `seed ^ d·γ ^ v·m1` (wrapping products) that avoids the kinds of the
/// variants before it at that depth and the restricted kinds of depth `d − 1`.
pub proof fn lemma_free_cell_is_drawn_from_its_state(seed: u64, total_stages: u8, branching: u8, d: int, v: int)
    requires
        0 <= d < normal_total(total_stages),
        forced_kind(d as u8, normal_total(total_stages)) is None,
        0 <= v < run_kinds(seed, total_stages, branching)[d].len(),
    ensures
        d >= 1,
        run_kinds(seed, total_stages, branching)[d][v] == pick_nonboss_spec(
            seed ^ vstd::wrapping::u64_specs::wrapping_mul(d as u64, 0x9E37_79B9_7F4A_7C15u64)
                ^ vstd::wrapping::u64_specs::wrapping_mul(v as u64, 0xBF58_476D_1CE4_E5B9u64),
            forbid_seq(
                run_kinds(seed, total_stages, branching)[d].take(v),
                restricted_kinds(run_kinds(seed, total_stages, branching)[d - 1]),
            ),
        ).0,
{
    let t = normal_total(total_stages);
    let b = normal_branching(branching);
    let rk = run_kinds(seed, total_stages, branching);
    lemma_run_depth(seed, total_stages, branching, d);
    let prev = graph_kinds(seed, t, b, d as nat);
    let c = carried_kind(prev, d as u8, t);
    let n = variant_count(d, t, b);
    lemma_depth_kinds_len(seed, d as u8, t, n, c);
    assert(d != 0);
    assert(c == restricted_kinds(rk[d - 1]));
    lemma_depth_kinds_prefix(seed, d as u8, t, n, c, v);
    let upto = depth_kinds(seed, d as u8, t, v as nat, c);
    lemma_depth_kinds_len(seed, d as u8, t, v as nat, c);
    assert(upto =~= rk[d].take(v)) by {
        assert forall|j: int| 0 <= j < v implies upto[j] == rk[d][j] by {
            lemma_depth_kinds_prefix(seed, d as u8, t, v as nat, c, j);
            lemma_depth_kinds_prefix(seed, d as u8, t, n, c, j);
        }
    }
    assert(n <= 255);
    assert(((v + 1) - 1) as u8 == v as u8);
}

// ─── Laws of a generated run ────────────────────────────────────────────────

/// Within one depth every kind is the forced one, or a drawn kind that is
/// never Boss nor Treasure.
proof fn lemma_depth_kinds_facts(seed: u64, depth: u8, total: u8, count: nat, carried: Seq<StageKind>)
    ensures
        forall|j: int| 0 <= j < count ==> match forced_kind(depth, total) {
            Some(fk) => #[trigger] depth_kinds(seed, depth, total, count, carried)[j] == fk,
            None => depth_kinds(seed, depth, total, count, carried)[j] != StageKind::Boss
                && depth_kinds(seed, depth, total, count, carried)[j] != StageKind::Treasure,
        },
    decreases count,
{
    lemma_depth_kinds_len(seed, depth, total, count, carried);
    if count > 0 {
        let c = (count - 1) as nat;
        lemma_depth_kinds_facts(seed, depth, total, c, carried);
        lemma_depth_kinds_len(seed, depth, total, c, carried);
        let prev = depth_kinds(seed, depth, total, c, carried);
        let cur = depth_kinds(seed, depth, total, count, carried);
        assert(cur == prev.push(cur[c as int]));
        if forced_kind(depth, total) is None {
            lemma_pick_spec_never_boss(variant_state(seed, depth, c as u8), forbid_seq(prev, carried));
        }
    }
}

/// Within a depth without a fixed floor, a drawn kind that is restricted is
/// never one of the carried kinds (a draw with nothing left yields Combat).
proof fn lemma_depth_kinds_avoid_carried(seed: u64, depth: u8, total: u8, count: nat, carried: Seq<StageKind>)
    requires
        forced_kind(depth, total) is None,
    ensures
        forall|j: int, i: int| 0 <= j < count && 0 <= i < carried.len()
            && #[trigger] depth_kinds(seed, depth, total, count, carried)[j] == #[trigger] carried[i]
            ==> !is_restricted_kind(carried[i]),
    decreases count,
{
    lemma_depth_kinds_len(seed, depth, total, count, carried);
    if count > 0 {
        let c = (count - 1) as nat;
        lemma_depth_kinds_avoid_carried(seed, depth, total, c, carried);
        lemma_depth_kinds_len(seed, depth, total, c, carried);
        let prev = depth_kinds(seed, depth, total, c, carried);
        let cur = depth_kinds(seed, depth, total, count, carried);
        let forbid = forbid_seq(prev, carried);
        assert(cur == prev.push(cur[c as int]));
        lemma_forbid_with(prev, carried, carried.len());
        let k = cur[c as int];
        lemma_allowed_weight_bounds(forbid, 5);
        assert(k == pick_nonboss_spec(variant_state(seed, depth, c as u8), forbid).0);
        if allowed_weight(forbid, 5) > 0 {
            lemma_pick_spec_allowed(variant_state(seed, depth, c as u8), forbid);
        } else {
            assert(k == StageKind::Combat);
        }
        assert forall|j: int, i: int| 0 <= j < count && 0 <= i < carried.len()
            && #[trigger] cur[j] == #[trigger] carried[i] implies !is_restricted_kind(carried[i]) by {
            if j < c {
                assert(cur[j] == prev[j]);
            } else {
                assert(forbid.contains(carried[i]));
            }
        }
    }
}

/// Within a depth without a fixed floor where the variants and the carried
/// kinds together number at most five, the drawn kinds are pairwise distinct.
proof fn lemma_depth_kinds_distinct(seed: u64, depth: u8, total: u8, count: nat, carried: Seq<StageKind>)
    requires
        forced_kind(depth, total) is None,
        count + carried.len() <= 5,
    ensures
        forall|a: int, b: int| 0 <= a < b < count ==>
            #[trigger] depth_kinds(seed, depth, total, count, carried)[a]
                != #[trigger] depth_kinds(seed, depth, total, count, carried)[b],
    decreases count,
{
    lemma_depth_kinds_len(seed, depth, total, count, carried);
    if count > 0 {
        let c = (count - 1) as nat;
        lemma_depth_kinds_distinct(seed, depth, total, c, carried);
        lemma_depth_kinds_len(seed, depth, total, c, carried);
        let prev = depth_kinds(seed, depth, total, c, carried);
        let cur = depth_kinds(seed, depth, total, count, carried);
        let forbid = forbid_seq(prev, carried);
        assert(cur == prev.push(cur[c as int]));
        lemma_forbid_with(prev, carried, carried.len());
        lemma_small_forbid_set_leaves_a_kind(forbid);
        lemma_pick_spec_allowed(variant_state(seed, depth, c as u8), forbid);
        let k = cur[c as int];
        assert(!forbid.contains(k));
        assert forall|a: int, b: int| 0 <= a < b < count implies
            #[trigger] cur[a] != #[trigger] cur[b] by {
            if b < c {
                assert(cur[a] == prev[a] && cur[b] == prev[b]);
            } else {
                assert(cur[a] == prev[a]);
                assert(forbid.contains(prev[a]));
            }
        }
    }
}

/// A draw from `[0, max)` lands in `[0, max)`.
pub proof fn lemma_roll_range_spec_bound(s0: u64, max: u64)
    requires
        max > 0,
    ensures
        roll_range_spec(s0, max).0 < max,
{
    lemma_roll_accept_bound(s0, max, 0, (max + 1) as nat);
}

proof fn lemma_roll_accept_bound(s0: u64, max: u64, k: nat, fuel: nat)
    requires
        max > 0,
    ensures
        roll_accept_from(s0, max, k, fuel).0 < max,
    decreases fuel,
{
    if fuel > 0 {
        lemma_roll_accept_bound(s0, max, k + 1, (fuel - 1) as nat);
    }
}

/// When some kind is allowed, the weighted draw yields an allowed kind.
pub proof fn lemma_pick_spec_allowed(s0: u64, forbidden: Seq<StageKind>)
    requires
        allowed_weight(forbidden, 5) > 0,
    ensures
        !forbidden.contains(pick_nonboss_spec(s0, forbidden).0),
{
    let total = allowed_weight(forbidden, 5);
    lemma_allowed_weight_bounds(forbidden, 5);
    lemma_roll_range_spec_bound(s0, total as u64);
    lemma_kind_for_roll_allowed(roll_range_spec(s0, total as u64).0 as int, forbidden, 0, 0);
}

/// The weighted draw never yields Boss nor Treasure.
proof fn lemma_pick_spec_never_boss(s0: u64, forbidden: Seq<StageKind>)
    ensures
        pick_nonboss_spec(s0, forbidden).0 != StageKind::Boss,
        pick_nonboss_spec(s0, forbidden).0 != StageKind::Treasure,
{
    lemma_kind_for_roll_never_boss(pick_nonboss_spec(s0, forbidden).0, roll_range_spec(s0, allowed_weight(forbidden, 5) as u64).0 as int, forbidden, 0, 0);
}

proof fn lemma_kind_for_roll_never_boss(k: StageKind, roll: int, forbidden: Seq<StageKind>, i: int, accum: int)
    ensures
        kind_for_roll(roll, forbidden, i, accum) != StageKind::Boss,
        kind_for_roll(roll, forbidden, i, accum) != StageKind::Treasure,
    decreases 5 - i,
{
    if 0 <= i < 5 {
        lemma_kind_for_roll_never_boss(k, roll, forbidden, i + 1, accum);
        lemma_kind_for_roll_never_boss(k, roll, forbidden, i + 1, accum + nonboss_weight(i));
    }
}

/// Depth `d` of the run, as generated at that depth.
proof fn lemma_run_depth(seed: u64, total_stages: u8, branching: u8, d: int)
    requires
        0 <= d < normal_total(total_stages),
    ensures
        run_kinds(seed, total_stages, branching).len() == normal_total(total_stages),
        ({
            let t = normal_total(total_stages);
            let b = normal_branching(branching);
            let prev = graph_kinds(seed, t, b, d as nat);
            &&& run_kinds(seed, total_stages, branching)[d] == depth_kinds(
                seed, d as u8, t, variant_count(d, t, b), carried_kind(prev, d as u8, t))
            &&& prev.len() == d
            &&& d > 0 ==> prev.last() == run_kinds(seed, total_stages, branching)[d - 1]
        }),
{
    let t = normal_total(total_stages);
    let b = normal_branching(branching);
    lemma_graph_kinds_prefix(seed, t, b, t as nat, d);
    lemma_graph_kinds_len(seed, t, b, d as nat);
    if d > 0 {
        lemma_graph_kinds_prefix(seed, t, b, t as nat, d - 1);
        lemma_graph_kinds_prefix(seed, t, b, d as nat, d - 1);
    }
}

/// Shape of a run: `total` depths (at least 2), one variant at the start and
/// at the boss, `branching` (at least 1) variants at every middle depth.
pub proof fn lemma_run_shape(seed: u64, total_stages: u8, branching: u8)
    ensures
        run_kinds(seed, total_stages, branching).len() == normal_total(total_stages),
        normal_total(total_stages) >= 2,
        run_kinds(seed, total_stages, branching)[0].len() == 1,
        run_kinds(seed, total_stages, branching)[normal_total(total_stages) - 1].len() == 1,
        forall|d: int| 0 < d < normal_total(total_stages) - 1 ==>
            #[trigger] run_kinds(seed, total_stages, branching)[d].len() == normal_branching(branching),
{
    let t = normal_total(total_stages);
    let b = normal_branching(branching);
    lemma_graph_kinds_len(seed, t, b, t as nat);
    assert forall|d: int| 0 <= d < t implies #[trigger] run_kinds(seed, total_stages, branching)[d].len()
        == variant_count(d, t, b) by {
        lemma_run_depth(seed, total_stages, branching, d);
        let prev = graph_kinds(seed, t, b, d as nat);
        lemma_depth_kinds_len(seed, d as u8, t, variant_count(d, t, b), carried_kind(prev, d as u8, t));
    }
    assert(run_kinds(seed, total_stages, branching)[0].len() == variant_count(0, t, b));
    assert(run_kinds(seed, total_stages, branching)[t - 1].len() == variant_count(t - 1, t, b));
}

/// Fixed floors hold in every run: every variant of a depth with a forced kind
/// has that kind (Combat at the start, Boss last, Rest before the boss when
/// `total >= 5`, Treasure at the midpoint when `total >= 8`), and no Boss nor
/// Treasure is ever drawn anywhere else.
pub proof fn lemma_run_floors(seed: u64, total_stages: u8, branching: u8)
    ensures
        forall|d: int, v: int| 0 <= d < normal_total(total_stages)
            && 0 <= v < run_kinds(seed, total_stages, branching)[d].len() ==>
            match forced_kind(d as u8, normal_total(total_stages)) {
                Some(fk) => #[trigger] run_kinds(seed, total_stages, branching)[d][v] == fk,
                None => run_kinds(seed, total_stages, branching)[d][v] != StageKind::Boss
                    && run_kinds(seed, total_stages, branching)[d][v] != StageKind::Treasure,
            },
{
    let t = normal_total(total_stages);
    let b = normal_branching(branching);
    assert forall|d: int, v: int| 0 <= d < t && 0 <= v < run_kinds(seed, total_stages, branching)[d].len()
        implies match forced_kind(d as u8, t) {
            Some(fk) => #[trigger] run_kinds(seed, total_stages, branching)[d][v] == fk,
            None => run_kinds(seed, total_stages, branching)[d][v] != StageKind::Boss
                && run_kinds(seed, total_stages, branching)[d][v] != StageKind::Treasure,
        } by {
        lemma_run_depth(seed, total_stages, branching, d);
        let prev = graph_kinds(seed, t, b, d as nat);
        let c = carried_kind(prev, d as u8, t);
        lemma_depth_kinds_len(seed, d as u8, t, variant_count(d, t, b), c);
        lemma_depth_kinds_facts(seed, d as u8, t, variant_count(d, t, b), c);
    }
}

/// A run starts with Combat, ends with the Boss, and holds no Boss before the end.
pub proof fn lemma_run_start_combat_end_boss(seed: u64, total_stages: u8, branching: u8)
    ensures
        run_kinds(seed, total_stages, branching)[0][0] == StageKind::Combat,
        run_kinds(seed, total_stages, branching)[normal_total(total_stages) - 1][0] == StageKind::Boss,
        forall|d: int, v: int| 0 <= d < normal_total(total_stages) - 1
            && 0 <= v < run_kinds(seed, total_stages, branching)[d].len() ==>
            #[trigger] run_kinds(seed, total_stages, branching)[d][v] != StageKind::Boss,
{
    lemma_run_shape(seed, total_stages, branching);
    lemma_run_floors(seed, total_stages, branching);
    let t = normal_total(total_stages);
    assert(forced_kind(0, t) == Some(StageKind::Combat));
    assert(forced_kind((t - 1) as u8, t) == Some(StageKind::Boss));
    assert(run_kinds(seed, total_stages, branching)[0].len() == 1);
    assert(run_kinds(seed, total_stages, branching)[0][0] == StageKind::Combat);
    assert forall|d: int, v: int| 0 <= d < t - 1 && 0 <= v < run_kinds(seed, total_stages, branching)[d].len()
        implies #[trigger] run_kinds(seed, total_stages, branching)[d][v] != StageKind::Boss by {
        assert(forced_kind(d as u8, t) != Some(StageKind::Boss));
    }
}

/// The variants offered at a depth without a fixed floor all have different
/// kinds whenever they and the restricted kinds of the depth before number at
/// most five together (always so with up to two branches).
pub proof fn lemma_run_branches_distinct(seed: u64, total_stages: u8, branching: u8)
    ensures
        forall|d: int, a: int, b: int| 0 < d < normal_total(total_stages)
            && forced_kind(d as u8, normal_total(total_stages)) is None
            && run_kinds(seed, total_stages, branching)[d].len()
                + restricted_kinds(run_kinds(seed, total_stages, branching)[d - 1]).len() <= 5
            && 0 <= a < b < run_kinds(seed, total_stages, branching)[d].len() ==>
            #[trigger] run_kinds(seed, total_stages, branching)[d][a]
                != #[trigger] run_kinds(seed, total_stages, branching)[d][b],
        normal_branching(branching) <= 2 ==> forall|d: int, a: int, b: int| 0 < d < normal_total(total_stages)
            && forced_kind(d as u8, normal_total(total_stages)) is None
            && 0 <= a < b < run_kinds(seed, total_stages, branching)[d].len() ==>
            #[trigger] run_kinds(seed, total_stages, branching)[d][a]
                != #[trigger] run_kinds(seed, total_stages, branching)[d][b],
{
    let t = normal_total(total_stages);
    let br = normal_branching(branching);
    let rk = run_kinds(seed, total_stages, branching);
    assert forall|d: int, a: int, b: int| 0 < d < t && forced_kind(d as u8, t) is None
        && rk[d].len() + restricted_kinds(rk[d - 1]).len() <= 5
        && 0 <= a < b < rk[d].len() implies #[trigger] rk[d][a] != #[trigger] rk[d][b] by {
        lemma_run_depth(seed, total_stages, branching, d);
        let prev = graph_kinds(seed, t, br, d as nat);
        let c = carried_kind(prev, d as u8, t);
        let n = variant_count(d, t, br);
        lemma_depth_kinds_len(seed, d as u8, t, n, c);
        lemma_depth_kinds_distinct(seed, d as u8, t, n, c);
    }
    if br <= 2 {
        assert forall|d: int| 0 < d < t && forced_kind(d as u8, t) is None implies
            #[trigger] rk[d].len() + restricted_kinds(rk[d - 1]).len() <= 5 by {
            lemma_run_depth(seed, total_stages, branching, d);
            let prev = graph_kinds(seed, t, br, d as nat);
            lemma_depth_kinds_len(seed, d as u8, t, variant_count(d, t, br), carried_kind(prev, d as u8, t));
            lemma_restricted_kinds_at_most_three(rk[d - 1]);
        }
    }
}

/// At most three kinds are restricted, so a depth carries at most three.
pub proof fn lemma_restricted_kinds_at_most_three(kinds: Seq<StageKind>)
    ensures
        restricted_kinds(kinds).len() <= 3,
{
    broadcast use vstd::set::group_set_axioms;
    let r = restricted_kinds(kinds);
    lemma_restricted_kinds_upto(kinds, kinds.len());
    let three = set![StageKind::Rest, StageKind::Elite, StageKind::Shop];
    assert(r.to_set().subset_of(three)) by {
        assert forall|x: StageKind| r.to_set().contains(x) implies three.contains(x) by {
            let j = choose|j: int| 0 <= j < r.len() && r[j] == x;
            assert(is_restricted_kind(r[j]));
        }
    }
    r.unique_seq_to_set();
    vstd::set_lib::lemma_len_subset(r.to_set(), three);
    assert(three.len() == 3);
}

/// No restricted kind (Elite, Shop, Rest) offered at a depth is offered again
/// at the next depth, unless a fixed floor imposes the next depth's kind.
pub proof fn lemma_run_no_consecutive_restricted(seed: u64, total_stages: u8, branching: u8)
    ensures
        forall|d: int, e: int, v: int, p: int| 0 <= e && e + 1 == d && d < normal_total(total_stages)
            && forced_kind(d as u8, normal_total(total_stages)) is None
            && 0 <= v < run_kinds(seed, total_stages, branching)[d].len()
            && 0 <= p < run_kinds(seed, total_stages, branching)[e].len()
            && is_restricted_kind(run_kinds(seed, total_stages, branching)[e][p]) ==>
            #[trigger] run_kinds(seed, total_stages, branching)[d][v]
                != #[trigger] run_kinds(seed, total_stages, branching)[e][p],
{
    let t = normal_total(total_stages);
    let br = normal_branching(branching);
    let rk = run_kinds(seed, total_stages, branching);
    assert forall|d: int, e: int, v: int, p: int| 0 <= e && e + 1 == d && d < t
        && forced_kind(d as u8, t) is None
        && 0 <= v < rk[d].len() && 0 <= p < rk[e].len() && is_restricted_kind(rk[e][p])
        implies #[trigger] rk[d][v] != #[trigger] rk[e][p] by {
        lemma_run_depth(seed, total_stages, branching, d);
        let prev = graph_kinds(seed, t, br, d as nat);
        let c = carried_kind(prev, d as u8, t);
        let n = variant_count(d, t, br);
        lemma_depth_kinds_len(seed, d as u8, t, n, c);
        assert(c == restricted_kinds(rk[e]));
        lemma_restricted_kinds_upto(rk[e], rk[e].len());
        assert(c.contains(rk[e][p]));
        let i = choose|i: int| 0 <= i < c.len() && c[i] == rk[e][p];
        lemma_depth_kinds_avoid_carried(seed, d as u8, t, n, c);
        if rk[d][v] == rk[e][p] {
            assert(depth_kinds(seed, d as u8, t, n, c)[v] == c[i]);
        }
    }
}

// ─── Run-graph queries ──────────────────────────────────────────────────────

/// Kinds of a depth's nodes.
pub open spec fn node_kinds(nodes: Seq<StageNode>) -> Seq<StageKind> {
    nodes.map_values(|n: StageNode| n.kind)
}

/// Kinds of all nodes, depth by depth.
pub open spec fn flat_kinds(stages: Seq<Seq<StageNode>>) -> Seq<StageKind>
    decreases stages.len(),
{
    if stages.len() == 0 {
        Seq::empty()
    } else {
        flat_kinds(stages.drop_last()) + node_kinds(stages.last())
    }
}

/// Number of occurrences of `k` in `s`.
pub open spec fn count_kind(s: Seq<StageKind>, k: StageKind) -> nat
    decreases s.len(),
{
    if s.len() == 0 {
        0
    } else {
        count_kind(s.drop_last(), k) + if s.last() == k { 1nat } else { 0nat }
    }
}

/// Order of the entries returned by [`RunGraph::kind_distribution`].
pub open spec fn distribution_kind(i: int) -> StageKind {
    if i == 0 {
        StageKind::Combat
    } else if i == 1 {
        StageKind::Elite
    } else if i == 2 {
        StageKind::Shop
    } else if i == 3 {
        StageKind::Event
    } else if i == 4 {
        StageKind::Treasure
    } else if i == 5 {
        StageKind::Rest
    } else {
        StageKind::Boss
    }
}

/// Sum of the counts of the seven kinds in `s`.
pub open spec fn count_all_kinds(s: Seq<StageKind>) -> nat {
    count_kind(s, StageKind::Combat) + count_kind(s, StageKind::Elite) + count_kind(s, StageKind::Shop)
        + count_kind(s, StageKind::Event) + count_kind(s, StageKind::Treasure)
        + count_kind(s, StageKind::Rest) + count_kind(s, StageKind::Boss)
}

/// Every node is counted once: the seven counts add up to the number of nodes.
pub proof fn lemma_distribution_total(s: Seq<StageKind>)
    ensures
        count_all_kinds(s) == s.len(),
    decreases s.len(),
{
    if s.len() > 0 {
        lemma_distribution_total(s.drop_last());
    }
}

proof fn lemma_count_kind_bound(s: Seq<StageKind>, k: StageKind)
    ensures
        count_kind(s, k) <= s.len(),
    decreases s.len(),
{
    if s.len() > 0 {
        lemma_count_kind_bound(s.drop_last(), k);
    }
}

proof fn lemma_flat_kinds_prefix_len(stages: Seq<Seq<StageNode>>, d: int, e: int)
    requires
        0 <= d <= e <= stages.len(),
    ensures
        flat_kinds(stages.take(d)).len() <= flat_kinds(stages.take(e)).len(),
    decreases e - d,
{
    if d < e {
        lemma_flat_kinds_prefix_len(stages, d, e - 1);
        assert(stages.take(e).drop_last() =~= stages.take(e - 1));
    }
}

/// Index of `k` in the distribution order.
fn distribution_index(k: StageKind) -> (i: usize)
    ensures
        i < 7,
        distribution_kind(i as int) == k,
{
    match k {
        StageKind::Combat => 0,
        StageKind::Elite => 1,
        StageKind::Shop => 2,
        StageKind::Event => 3,
        StageKind::Treasure => 4,
        StageKind::Rest => 5,
        StageKind::Boss => 6,
    }
}

impl RunGraph {
    /// The stages as a sequence of sequences.
    pub open spec fn stages_view(&self) -> Seq<Seq<StageNode>> {
        self.stages@.map_values(|v: Vec<StageNode>| v@)
    }

    /// Depth of the boss (`total_stages - 1`, or 0 for an empty run).
    pub fn boss_depth(&self) -> (d: u8)
        ensures
            d == if self.total_stages >= 1 { self.total_stages - 1 } else { 0 },
    {
        self.total_stages.saturating_sub(1)
    }

    /// Number of nodes of each kind over all depths, in the order Combat,
    /// Elite, Shop, Event, Treasure, Rest, Boss.
    pub fn kind_distribution(&self) -> (r: Vec<(StageKind, u32)>)
        requires
            flat_kinds(self.stages_view()).len() <= u32::MAX,
        ensures
            r@.len() == 7,
            forall|i: int| 0 <= i < 7 ==> #[trigger] r@[i] == (
                distribution_kind(i),
                count_kind(flat_kinds(self.stages_view()), distribution_kind(i)) as u32,
            ),
    {
        let ghost sv = self.stages_view();
        let mut counts: Vec<u32> = vec![0, 0, 0, 0, 0, 0, 0];
        let mut d: usize = 0;
        assert(sv.take(0) =~= Seq::<Seq<StageNode>>::empty());
        while d < self.stages.len()
            invariant
                sv == self.stages_view(),
                sv.len() == self.stages@.len(),
                d <= sv.len(),
                flat_kinds(sv).len() <= u32::MAX,
                counts@.len() == 7,
                forall|i: int| 0 <= i < 7 ==> #[trigger] counts@[i] as int
                    == count_kind(flat_kinds(sv.take(d as int)), distribution_kind(i)),
            decreases sv.len() - d,
        {
            let nodes = &self.stages[d];
            assert(nodes@ == sv[d as int]);
            let ghost base = flat_kinds(sv.take(d as int));
            proof {
                lemma_flat_kinds_prefix_len(sv, d as int + 1, sv.len() as int);
                assert(sv.take(sv.len() as int) =~= sv);
                assert(sv.take(d as int + 1).drop_last() =~= sv.take(d as int));
                assert(sv.take(d as int + 1).last() == sv[d as int]);
            }
            let mut v: usize = 0;
            assert(node_kinds(nodes@.take(0)) =~= Seq::<StageKind>::empty());
            assert(base + node_kinds(nodes@.take(0)) =~= base);
            while v < nodes.len()
                invariant
                    nodes@ == sv[d as int],
                    v <= nodes@.len(),
                    base.len() + nodes@.len() <= u32::MAX,
                    counts@.len() == 7,
                    forall|i: int| 0 <= i < 7 ==> #[trigger] counts@[i] as int
                        == count_kind(base + node_kinds(nodes@.take(v as int)), distribution_kind(i)),
                decreases nodes@.len() - v,
            {
                let k = nodes[v].kind;
                let idx = distribution_index(k);
                let ghost before = base + node_kinds(nodes@.take(v as int));
                let ghost after = base + node_kinds(nodes@.take(v as int + 1));
                proof {
                    assert(after =~= before.push(k));
                    assert(after.drop_last() =~= before);
                    lemma_count_kind_bound(before, distribution_kind(idx as int));
                }
                let c = counts[idx];
                counts.set(idx, c + 1);
                proof {
                    assert forall|i: int| 0 <= i < 7 implies #[trigger] counts@[i] as int
                        == count_kind(after, distribution_kind(i)) by {
                        if i != idx as int {
                            assert(distribution_kind(i) != k);
                        }
                    }
                }
                v += 1;
            }
            proof {
                assert(nodes@.take(nodes@.len() as int) =~= nodes@);
                assert(flat_kinds(sv.take(d as int + 1)) =~= base + node_kinds(nodes@));
            }
            d += 1;
        }
        proof {
            assert(sv.take(sv.len() as int) =~= sv);
        }
        let mut r: Vec<(StageKind, u32)> = Vec::new();
        let mut i: usize = 0;
        while i < 7
            invariant
                i <= 7,
                counts@.len() == 7,
                r@.len() == i,
                forall|j: int| 0 <= j < 7 ==> #[trigger] counts@[j] as int
                    == count_kind(flat_kinds(sv), distribution_kind(j)),
                sv == self.stages_view(),
                forall|j: int| 0 <= j < i ==> #[trigger] r@[j] == (
                    distribution_kind(j),
                    count_kind(flat_kinds(self.stages_view()), distribution_kind(j)) as u32,
                ),
            decreases 7 - i,
        {
            let k = distribution_kind_at(i);
            r.push((k, counts[i]));
            i += 1;
        }
        r
    }
}

/// Kind at position `i` of the distribution order.
fn distribution_kind_at(i: usize) -> (k: StageKind)
    requires
        i < 7,
    ensures
        k == distribution_kind(i as int),
{
    if i == 0 {
        StageKind::Combat
    } else if i == 1 {
        StageKind::Elite
    } else if i == 2 {
        StageKind::Shop
    } else if i == 3 {
        StageKind::Event
    } else if i == 4 {
        StageKind::Treasure
    } else if i == 5 {
        StageKind::Rest
    } else {
        StageKind::Boss
    }
}

// ─── Runtime tracker and sensor verdicts ────────────────────────────────────

/// Runtime state of the run-graph generator, exposed to the sensor.
pub struct StageGraphState {
    pub current_run_depth: u8,
    pub total_graphs_generated_session: u32,
}

impl Default for StageGraphState {
    fn default() -> (s: Self)
        ensures
            s.current_run_depth == 0,
            s.total_graphs_generated_session == 0,
    {
        StageGraphState { current_run_depth: 0, total_graphs_generated_session: 0 }
    }
}

/// Sensor severity: "warn" when the configured run has fewer than two stages.
pub fn severity_for_stage_graph(total_stages: u8, _state: &StageGraphState) -> (s: &'static str)
    ensures
        total_stages < 2 ==> s@ == "warn"@,
        total_stages >= 2 ==> s@ == "ok"@,
{
    if total_stages < 2 {
        "warn"
    } else {
        "ok"
    }
}

/// Actionable next step for the run-graph sensor.
pub fn next_step_for_stage_graph(total_stages: u8, state: &StageGraphState) -> (s: &'static str)
    ensures
        total_stages < 2 ==> s@
            == "Config invalid: total_stages < 2. Fix roguelite_run.toml gene roguelite_stage_count."@,
        total_stages >= 2 && state.total_graphs_generated_session == 0 ==> s@
            == "Stage graph ready. Caller (forgia-mode-roguelite) must call generate_run_graph at run start."@,
        total_stages >= 2 && state.total_graphs_generated_session != 0 ==> s@
            == "Stage graph generation active."@,
{
    if total_stages < 2 {
        "Config invalid: total_stages < 2. Fix roguelite_run.toml gene roguelite_stage_count."
    } else if state.total_graphs_generated_session == 0 {
        "Stage graph ready. Caller (forgia-mode-roguelite) must call generate_run_graph at run start."
    } else {
        "Stage graph generation active."
    }
}

} // verus!
