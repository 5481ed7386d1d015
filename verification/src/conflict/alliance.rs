//! Alliance formation and dissolution. A pair allies when it is at
//! peace, not yet allied, has met, is past the re-alliance cooldown, and
//! lies within 0.4 of each other in both cosmology and religion
//! (Euclidean distance); an alliance dissolves on cosmology drift past
//! 0.6, and its trust erodes with the worldview gap.

use crate::arith::{clamp01_bits, div_bits, fits, int_bits, max_bits, min_bits, mul_bits, mul_ok, ratio_bits, scale, Real};
use crate::cosmology::Cosmology;
use crate::religion::Religion;
use crate::transcendental::{sqrt, sqrt_result};
use std::collections::{BTreeMap, BTreeSet};
use vstd::prelude::*;

verus! {

broadcast use vstd::laws_cmp::group_laws_cmp;

/// Ticks that must pass after a dissolution before the pair may ally
/// again.
pub const ALLIANCE_FORM_COOLDOWN_TICKS: u64 = 200;

/// `d²` of one axis difference, in Q32.32.
pub open spec fn sq_bits(d: int) -> int {
    mul_bits(d, d)
}

/// Sum of squared axis differences over the five cosmology axes.
pub open spec fn cosmo_sq_bits(a: Cosmology, b: Cosmology) -> int {
    sq_bits(a.empirical@ - b.empirical@) + sq_bits(a.communitarian@ - b.communitarian@) + sq_bits(
        a.reformist@ - b.reformist@,
    ) + sq_bits(a.mystical@ - b.mystical@) + sq_bits(a.hierarchical@ - b.hierarchical@)
}

/// Sum of squared axis differences over the three religion axes.
pub open spec fn religion_sq_bits(a: Religion, b: Religion) -> int {
    sq_bits(a.theology@ - b.theology@) + sq_bits(a.ritual@ - b.ritual@) + sq_bits(
        a.sacred_time@ - b.sacred_time@,
    )
}

/// `r` is what `sqrt` returns on `max(s, 0)`.
pub open spec fn sqrt_matches(s: int, r: int) -> bool {
    if s <= 0 {
        r == 0
    } else {
        sqrt_result(s * scale(), r)
    }
}

/// A squared difference of two unit-range values lies in `[0, 4]`.
proof fn lemma_sq_unit(x: int, y: int)
    requires
        -scale() <= x <= scale(),
        -scale() <= y <= scale(),
    ensures
        fits(x - y),
        mul_ok(x - y, x - y),
        0 <= sq_bits(x - y) <= 4 * scale(),
{
    let d = x - y;
    let s = scale();
    assert(0 <= d * d <= 4 * s * s) by (nonlinear_arith) requires -2 * s <= d <= 2 * s, s == 4294967296;
    vstd::arithmetic::div_mod::lemma_div_is_ordered(d * d, 4 * s * s, s);
    assert(4 * s * s == (4 * s) * s) by (nonlinear_arith);
    vstd::arithmetic::div_mod::lemma_div_by_multiple(4 * s, s);
    vstd::arithmetic::div_mod::lemma_div_pos_is_pos(d * d, s);
}

/// `sq_bits(d)` is `d²` rounded down to whole bits.
proof fn lemma_sq_bits_floor(d: int)
    ensures
        scale() * sq_bits(d) <= d * d < scale() * sq_bits(d) + scale(),
{
    vstd::arithmetic::div_mod::lemma_fundamental_div_mod(d * d, scale());
    vstd::arithmetic::div_mod::lemma_mod_bound(d * d, scale());
}

/// A result `r` of the square root on the squared sum `s` (in bits):
/// `(r + 1)² > s·2^32` and `r² ≤ s·2^32 + 1`.
proof fn lemma_sqrt_matches_bounds(s: int, r: int)
    requires
        s >= 0,
        sqrt_matches(s, r),
    ensures
        r >= 0,
        (r + 1) * (r + 1) > s * scale(),
        r * r <= s * scale() + 1,
{
    if s > 0 {
        let t = s * scale();
        if !crate::transcendental::is_isqrt(t, r) {
            assert(crate::transcendental::is_isqrt(t, r - 1) && t + 1 == r * r);
            assert((r + 1) * (r + 1) > r * r) by (nonlinear_arith) requires r >= 1;
        }
    }
}

/// `cosmology_distance` is the Euclidean distance over all five axes: it
/// is at least the gap on every single axis (`(r + 1)² + 1 > gap²`, in
/// bits, allowing for the rounding of the squares and of the root), and
/// its square exceeds the sum of the squared gaps by at most one bit.
/// So two cosmologies two apart on any one axis are two apart.
pub proof fn lemma_cosmology_distance_is_euclidean(a: Cosmology, b: Cosmology, r: int)
    requires
        a.wf(),
        b.wf(),
        sqrt_matches(cosmo_sq_bits(a, b), r),
    ensures
        r >= 0,
        (r + 1) * (r + 1) + scale() > (a.empirical@ - b.empirical@) * (a.empirical@ - b.empirical@),
        (r + 1) * (r + 1) + scale() > (a.communitarian@ - b.communitarian@) * (a.communitarian@ - b.communitarian@),
        (r + 1) * (r + 1) + scale() > (a.reformist@ - b.reformist@) * (a.reformist@ - b.reformist@),
        (r + 1) * (r + 1) + scale() > (a.mystical@ - b.mystical@) * (a.mystical@ - b.mystical@),
        (r + 1) * (r + 1) + scale() > (a.hierarchical@ - b.hierarchical@) * (a.hierarchical@ - b.hierarchical@),
        r * r <= (a.empirical@ - b.empirical@) * (a.empirical@ - b.empirical@) + (a.communitarian@ - b.communitarian@) * (
            a.communitarian@ - b.communitarian@) + (a.reformist@ - b.reformist@) * (a.reformist@ - b.reformist@) + (
            a.mystical@ - b.mystical@) * (a.mystical@ - b.mystical@) + (a.hierarchical@ - b.hierarchical@) * (
            a.hierarchical@ - b.hierarchical@) + 1,
{
    let d1 = a.empirical@ - b.empirical@;
    let d2 = a.communitarian@ - b.communitarian@;
    let d3 = a.reformist@ - b.reformist@;
    let d4 = a.mystical@ - b.mystical@;
    let d5 = a.hierarchical@ - b.hierarchical@;
    lemma_sq_unit(a.empirical@, b.empirical@);
    lemma_sq_unit(a.communitarian@, b.communitarian@);
    lemma_sq_unit(a.reformist@, b.reformist@);
    lemma_sq_unit(a.mystical@, b.mystical@);
    lemma_sq_unit(a.hierarchical@, b.hierarchical@);
    lemma_sq_bits_floor(d1);
    lemma_sq_bits_floor(d2);
    lemma_sq_bits_floor(d3);
    lemma_sq_bits_floor(d4);
    lemma_sq_bits_floor(d5);
    let sum = cosmo_sq_bits(a, b);
    assert(sum >= 0);
    lemma_sqrt_matches_bounds(sum, r);
    let s = scale();
    assert(sum * s == s * sq_bits(d1) + s * sq_bits(d2) + s * sq_bits(d3) + s * sq_bits(d4) + s * sq_bits(d5))
        by (nonlinear_arith)
        requires
            sum == sq_bits(d1) + sq_bits(d2) + sq_bits(d3) + sq_bits(d4) + sq_bits(d5);
}

fn sq(x: Real, y: Real) -> (r: Real)
    requires
        -scale() <= x@ <= scale(),
        -scale() <= y@ <= scale(),
    ensures
        r@ == sq_bits(x@ - y@),
        0 <= r@ <= 4 * scale(),
{
    proof {
        lemma_sq_unit(x@, y@);
    }
    let d = x.sub(y);
    d.mul(d)
}

/// Euclidean distance between two cosmologies over their five axes.
pub fn cosmology_distance(a: &Cosmology, b: &Cosmology) -> (r: Real)
    requires
        a.wf(),
        b.wf(),
    ensures
        sqrt_matches(cosmo_sq_bits(*a, *b), r@),
{
    let sum = sq(a.empirical, b.empirical).add(sq(a.communitarian, b.communitarian)).add(
        sq(a.reformist, b.reformist),
    ).add(sq(a.mystical, b.mystical)).add(sq(a.hierarchical, b.hierarchical));
    sqrt(sum.max(Real::zero()))
}

/// Euclidean distance between two religions over their three axes.
pub fn religion_distance(a: &Religion, b: &Religion) -> (r: Real)
    requires
        a.wf(),
        b.wf(),
    ensures
        sqrt_matches(religion_sq_bits(*a, *b), r@),
{
    let sum = sq(a.theology, b.theology).add(sq(a.ritual, b.ritual)).add(
        sq(a.sacred_time, b.sacred_time),
    );
    sqrt(sum.max(Real::zero()))
}

/// What the alliance logic reads of a civ.
#[derive(Debug, Clone)]
pub struct AllianceParty {
    pub id: u32,
    pub cosmology: Cosmology,
    pub religion: Religion,
    /// Civs this one is allied with.
    pub allied_with: BTreeSet<u32>,
    /// Civs this one has met.
    pub contact_history: BTreeSet<u32>,
    /// Tick of the last dissolved alliance, per partner.
    pub alliance_cooldown: BTreeMap<u32, u64>,
}

impl AllianceParty {
    pub open spec fn wf(&self) -> bool {
        self.cosmology.wf() && self.religion.wf()
    }
}

/// Tick of the most recent dissolution between the pair, if any.
pub open spec fn last_dissolution(a: AllianceParty, b: AllianceParty) -> Option<u64> {
    let pa = a.alliance_cooldown@.dom().contains(b.id);
    let pb = b.alliance_cooldown@.dom().contains(a.id);
    if pa && pb {
        let ta = a.alliance_cooldown@[b.id];
        let tb = b.alliance_cooldown@[a.id];
        Some(if ta > tb { ta } else { tb })
    } else if pa {
        Some(a.alliance_cooldown@[b.id])
    } else if pb {
        Some(b.alliance_cooldown@[a.id])
    } else {
        None
    }
}

/// The formation decision, given the pair's cosmology and religion
/// distances.
pub open spec fn alliance_decision(
    a: AllianceParty,
    b: AllianceParty,
    at_war_now: bool,
    tick: u64,
    cosmo_gap: int,
    religion_gap: int,
) -> bool {
    &&& !at_war_now
    &&& !a.allied_with@.contains(b.id) && !b.allied_with@.contains(a.id)
    &&& a.contact_history@.contains(b.id) && b.contact_history@.contains(a.id)
    &&& match last_dissolution(a, b) {
        Some(t) => elapsed_since(tick, t) >= 200,
        None => true,
    }
    &&& cosmo_gap < ratio_bits(40, 100)
    &&& religion_gap < ratio_bits(40, 100)
}

/// Ticks from `t` to `tick`, saturating at zero.
pub open spec fn elapsed_since(tick: u64, t: u64) -> int {
    if tick >= t { tick - t } else { 0 }
}

/// Whether `a` and `b` form an alliance this check: at peace, not yet
/// allied, in mutual contact, past the cooldown, and within 0.4 in both
/// cosmology and religion distance.
pub fn propose_alliance(a: &AllianceParty, b: &AllianceParty, at_war_now: bool, tick: u64) -> (r: bool)
    requires
        a.wf(),
        b.wf(),
    ensures
        exists|dc: int, dr: int|
            sqrt_matches(cosmo_sq_bits(a.cosmology, b.cosmology), dc) && sqrt_matches(
                religion_sq_bits(a.religion, b.religion),
                dr,
            ) && r == alliance_decision(*a, *b, at_war_now, tick, dc, dr),
{
    let cosmo_gap = cosmology_distance(&a.cosmology, &b.cosmology);
    let religion_gap = religion_distance(&a.religion, &b.religion);
    let decision = alliance_gates(a, b, at_war_now, tick, cosmo_gap, religion_gap);
    assert(sqrt_matches(cosmo_sq_bits(a.cosmology, b.cosmology), cosmo_gap@));
    decision
}

/// Civs only ally when their cosmologies are close on every axis: when
/// `propose_alliance` accepts (its distances `dc` and `dr` pass the
/// gates), the two cosmologies differ by less than one half on each of
/// the five axes.
pub proof fn lemma_allies_are_close_on_every_axis(
    a: AllianceParty,
    b: AllianceParty,
    at_war_now: bool,
    tick: u64,
    dc: int,
    dr: int,
)
    requires
        a.wf(),
        b.wf(),
        sqrt_matches(cosmo_sq_bits(a.cosmology, b.cosmology), dc),
        alliance_decision(a, b, at_war_now, tick, dc, dr),
    ensures
        4 * (a.cosmology.empirical@ - b.cosmology.empirical@) * (a.cosmology.empirical@ - b.cosmology.empirical@) < scale() * scale(),
        4 * (a.cosmology.communitarian@ - b.cosmology.communitarian@) * (a.cosmology.communitarian@ - b.cosmology.communitarian@) < scale() * scale(),
        4 * (a.cosmology.reformist@ - b.cosmology.reformist@) * (a.cosmology.reformist@ - b.cosmology.reformist@) < scale() * scale(),
        4 * (a.cosmology.mystical@ - b.cosmology.mystical@) * (a.cosmology.mystical@ - b.cosmology.mystical@) < scale() * scale(),
        4 * (a.cosmology.hierarchical@ - b.cosmology.hierarchical@) * (a.cosmology.hierarchical@ - b.cosmology.hierarchical@) < scale() * scale(),
{
    lemma_cosmology_distance_is_euclidean(a.cosmology, b.cosmology, dc);
    crate::arith::lemma_ratio_value(40, 100);
    let s = scale();
    assert(ratio_bits(40, 100) == 1717986918) by {
        assert(40 * s == 171798691840);
        assert(171798691840int / 100int == 1717986918);
    }
    let bound = (dc + 1) * (dc + 1) + s;
    assert(4 * bound < s * s) by (nonlinear_arith)
        requires
            0 <= dc < 1717986918,
            s == 4294967296,
            bound == (dc + 1) * (dc + 1) + s;
    let d_empirical = a.cosmology.empirical@ - b.cosmology.empirical@;
    assert(4 * d_empirical * d_empirical < s * s) by (nonlinear_arith)
        requires
            bound > d_empirical * d_empirical,
            4 * bound < s * s;
    let d_communitarian = a.cosmology.communitarian@ - b.cosmology.communitarian@;
    assert(4 * d_communitarian * d_communitarian < s * s) by (nonlinear_arith)
        requires
            bound > d_communitarian * d_communitarian,
            4 * bound < s * s;
    let d_reformist = a.cosmology.reformist@ - b.cosmology.reformist@;
    assert(4 * d_reformist * d_reformist < s * s) by (nonlinear_arith)
        requires
            bound > d_reformist * d_reformist,
            4 * bound < s * s;
    let d_mystical = a.cosmology.mystical@ - b.cosmology.mystical@;
    assert(4 * d_mystical * d_mystical < s * s) by (nonlinear_arith)
        requires
            bound > d_mystical * d_mystical,
            4 * bound < s * s;
    let d_hierarchical = a.cosmology.hierarchical@ - b.cosmology.hierarchical@;
    assert(4 * d_hierarchical * d_hierarchical < s * s) by (nonlinear_arith)
        requires
            bound > d_hierarchical * d_hierarchical,
            4 * bound < s * s;
}

fn alliance_gates(
    a: &AllianceParty,
    b: &AllianceParty,
    at_war_now: bool,
    tick: u64,
    cosmo_gap: Real,
    religion_gap: Real,
) -> (r: bool)
    ensures
        r == alliance_decision(*a, *b, at_war_now, tick, cosmo_gap@, religion_gap@),
{
    if at_war_now {
        return false;
    }
    if a.allied_with.contains(&b.id) || b.allied_with.contains(&a.id) {
        return false;
    }
    if !a.contact_history.contains(&b.id) || !b.contact_history.contains(&a.id) {
        return false;
    }
    let prior_a = match a.alliance_cooldown.get(&b.id) {
        Some(t) => Some(*t),
        None => None,
    };
    let prior_b = match b.alliance_cooldown.get(&a.id) {
        Some(t) => Some(*t),
        None => None,
    };
    let last = match (prior_a, prior_b) {
        (Some(ta), Some(tb)) => Some(if ta > tb { ta } else { tb }),
        (Some(t), None) => Some(t),
        (None, Some(t)) => Some(t),
        (None, None) => None,
    };
    assert(last == last_dissolution(*a, *b));
    match last {
        Some(t_dissolve) => {
            if tick.saturating_sub(t_dissolve) < ALLIANCE_FORM_COOLDOWN_TICKS {
                return false;
            }
        },
        None => {},
    }
    if cosmo_gap.bits >= Real::percent(40).bits {
        return false;
    }
    if religion_gap.bits >= Real::percent(40).bits {
        return false;
    }
    true
}

/// Whether an alliance has drifted apart: cosmology distance at least
/// 0.6.
pub fn alliance_drifted_apart(a: &Cosmology, b: &Cosmology) -> (r: bool)
    requires
        a.wf(),
        b.wf(),
    ensures
        exists|dc: int| sqrt_matches(cosmo_sq_bits(*a, *b), dc) && r == (dc >= ratio_bits(60, 100)),
{
    let d = cosmology_distance(a, b);
    d.bits >= Real::percent(60).bits
}

/// Trust after one check: `prior − clamp01((cosmo + religion)/2) × 0.5`,
/// clamped to `[0, 1]`.
pub open spec fn stepped_trust(prior: int, cosmo_gap: int, religion_gap: int) -> int {
    let avg = clamp01_bits(div_bits(cosmo_gap + religion_gap, int_bits(2)));
    min_bits(max_bits(prior - mul_bits(avg, ratio_bits(50, 100)), 0), scale())
}

/// One check of trust decay on an alliance.
pub fn step_alliance_trust(prior_trust: Real, cosmo_gap: Real, religion_gap: Real) -> (r: Real)
    requires
        fits(cosmo_gap@ + religion_gap@),
        fits(
            prior_trust@ - mul_bits(
                clamp01_bits(div_bits(cosmo_gap@ + religion_gap@, int_bits(2))),
                ratio_bits(50, 100),
            ),
        ),
    ensures
        r@ == stepped_trust(prior_trust@, cosmo_gap@, religion_gap@),
        0 <= r@ <= scale(),
{
    let sum = cosmo_gap.add(religion_gap);
    proof {
        crate::transcendental::lemma_div_int_bound(sum@, 2);
        crate::arith::lemma_ratio_unit(50, 100);
    }
    let avg = sum.div(Real::from_int(2)).clamp01();
    let weight = Real::percent(50);
    proof {
        crate::arith::lemma_mul_unit(avg@, weight@);
    }
    let decayed = prior_trust.sub(avg.mul(weight));
    decayed.max(Real::zero()).min(Real::one())
}

} // verus!
