//! Per-pair grudge accumulator with lazy decay. A grudge entry is the
//! raw score and the tick it was last bumped; reads decay it linearly
//! since then. The loser of a skirmish bumps harder (0.10 against 0.05)
//! and every score is capped at 0.60.

use crate::arith::{int_bits, int_ok, fits, max_bits, min_bits, mul_bits, mul_ok, ratio_bits, Real};
use std::collections::BTreeMap;
use vstd::prelude::*;

verus! {

broadcast use vstd::laws_cmp::group_laws_cmp;

/// Grudge a skirmish's winner adds against the loser (0.05).
pub open spec fn grudge_bump_winner() -> int {
    ratio_bits(5, 100)
}

/// Grudge a skirmish's loser adds against the winner (0.10).
pub open spec fn grudge_bump_loser() -> int {
    ratio_bits(10, 100)
}

/// Cap on a single grudge score (0.60).
pub open spec fn grudge_ceiling() -> int {
    ratio_bits(60, 100)
}

/// Ticks elapsed since `last`, saturating at zero.
pub open spec fn elapsed_ticks(now: u64, last: u64) -> int {
    if now >= last { now - last } else { 0 }
}

/// The grudge score against `other` at tick `now`: the stored score
/// minus `decay × elapsed ticks`, floored at zero; zero without an
/// entry.
pub open spec fn decayed_grudge_bits(g: Map<u32, (Real, u64)>, other: u32, now: u64, decay: int) -> int {
    if g.dom().contains(other) {
        let (raw, last) = g[other];
        max_bits(raw@ - mul_bits(decay, int_bits(elapsed_ticks(now, last))), 0)
    } else {
        0
    }
}

/// The decay of the entry against `other`, if any, stays in range.
pub open spec fn decay_ok(g: Map<u32, (Real, u64)>, other: u32, now: u64, decay: int) -> bool {
    g.dom().contains(other) ==> {
        let (raw, last) = g[other];
        &&& int_ok(elapsed_ticks(now, last))
        &&& mul_ok(decay, int_bits(elapsed_ticks(now, last)))
        &&& fits(raw@ - mul_bits(decay, int_bits(elapsed_ticks(now, last))))
    }
}

/// The grudge score against `other_id` at `current_tick`, decayed at
/// `decay_per_tick` since its last bump.
pub fn decayed_grudge(
    grudges: &BTreeMap<u32, (Real, u64)>,
    other_id: u32,
    current_tick: u64,
    decay_per_tick: Real,
) -> (r: Real)
    requires
        decay_ok(grudges@, other_id, current_tick, decay_per_tick@),
    ensures
        r@ == decayed_grudge_bits(grudges@, other_id, current_tick, decay_per_tick@),
{
    let (raw, last_tick) = match grudges.get(&other_id) {
        Some(v) => *v,
        None => return Real::zero(),
    };
    let elapsed = current_tick.saturating_sub(last_tick);
    let elapsed_real = Real::from_int(elapsed as i64);
    let decayed = raw.sub(decay_per_tick.mul(elapsed_real));
    decayed.max(Real::zero())
}

/// The entry after a bump: stored score plus `amount`, capped at the
/// ceiling, stamped with `tick`.
pub open spec fn bumped_entry(g: Map<u32, (Real, u64)>, other: u32, amount: int) -> int {
    let prior = if g.dom().contains(other) { g[other].0@ } else { 0 };
    min_bits(prior + amount, grudge_ceiling())
}

/// Raise the grudge against `other` by `amount` (capped at the
/// ceiling), stamping it with `tick`.
pub fn bump_grudge(grudges: &mut BTreeMap<u32, (Real, u64)>, other: u32, amount: Real, tick: u64)
    requires
        old(grudges)@.dom().contains(other) ==> fits(old(grudges)@[other].0@ + amount@),
        !old(grudges)@.dom().contains(other) ==> fits(amount@),
    ensures
        final(grudges)@ == old(grudges)@.insert(
            other,
            (Real { bits: bumped_entry(old(grudges)@, other, amount@) as i64 }, tick),
        ),
{
    let prior = match grudges.get(&other) {
        Some(v) => v.0,
        None => Real::zero(),
    };
    let ceiling = Real::percent(60);
    let next = prior.add(amount).min(ceiling);
    grudges.insert(other, (next, tick));
}

} // verus!
