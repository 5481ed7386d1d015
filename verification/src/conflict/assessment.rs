//! The belligerence model. Overlap is the opportunity for war, not its
//! cause: each side's drive (population pressure 45%, the defender's
//! slack capacity 25%, strength dominance 30%) is damped by the pair's
//! kinship, and the pair goes to war at belligerence 0.25 and makes
//! peace below 0.15.

use crate::arith::{clamp01_bits, div_bits, div_ok, fits, int_bits, lemma_mul_unit, lemma_ratio_unit, max_bits, min_bits, mul_bits, mul_ok, ratio_bits, scale, Real};
use crate::conflict::grudge::{decay_ok, decayed_grudge, decayed_grudge_bits, grudge_ceiling};
use crate::conflict::war::{first_wins, strength, strength_bits, strength_ok, WarParty};
use crate::transcendental::{abs_int, exp, exp_bits, lemma_exp_ok_nonpos};
use vstd::prelude::*;

verus! {

/// Per-pair belligerence assessment of one check.
#[derive(Debug, Clone)]
pub struct PairAssessment {
    pub aggressor_id: u32,
    pub defender_id: u32,
    pub belligerence: Real,
    pub drive: Real,
    pub kinship: Real,
}

/// What the core loop does with an overlapping, in-contact pair.
#[derive(Debug, Clone, Copy, PartialEq, Eq, Structural)]
pub enum WarDecision {
    /// Peaceful until now; war begins and a round is fought.
    DeclareWar,
    /// At war and still belligerent; a round is fought.
    ContinueWar,
    /// At war, but belligerence fell below the end threshold.
    ConcludePeace,
    /// Peaceful and below the declare threshold.
    StayPeaceful,
}

/// The decision under the declare (0.25) and end (0.15) thresholds.
pub open spec fn war_decision(at_war: bool, belligerence: int) -> WarDecision {
    if at_war {
        if belligerence < ratio_bits(15, 100) {
            WarDecision::ConcludePeace
        } else {
            WarDecision::ContinueWar
        }
    } else if belligerence >= ratio_bits(25, 100) {
        WarDecision::DeclareWar
    } else {
        WarDecision::StayPeaceful
    }
}

/// Apply the declare/end thresholds, with hysteresis, to a pair's
/// belligerence.
pub fn decide_war(currently_at_war: bool, belligerence: Real) -> (d: WarDecision)
    ensures
        d == war_decision(currently_at_war, belligerence@),
{
    let declare = Real::percent(25);
    let end = Real::percent(15);
    if currently_at_war {
        if belligerence.bits < end.bits {
            WarDecision::ConcludePeace
        } else {
            WarDecision::ContinueWar
        }
    } else if belligerence.bits >= declare.bits {
        WarDecision::DeclareWar
    } else {
        WarDecision::StayPeaceful
    }
}

/// The slower of the two grudge decay rates (0.0005 per tick).
pub open spec fn kin_decay() -> int {
    min_bits(ratio_bits(5, 10000), ratio_bits(1, 1000))
}

/// Weighted closeness before lineage and grudges: 10% hierarchical
/// axis, 15% the other four cosmology axes (mean gap), 15% literacy,
/// 60% religion (mean gap), each gap clamped to `[0, 1]`.
pub open spec fn kinship_base_bits(a: WarParty, b: WarParty) -> int {
    let ca = a.cosmology;
    let cb = b.cosmology;
    let hier_gap = clamp01_bits(abs_int(ca.hierarchical@ - cb.hierarchical@));
    let cosmo_gap = clamp01_bits(
        div_bits(
            abs_int(ca.empirical@ - cb.empirical@) + abs_int(ca.communitarian@ - cb.communitarian@)
                + abs_int(ca.reformist@ - cb.reformist@) + abs_int(ca.mystical@ - cb.mystical@),
            int_bits(4),
        ),
    );
    let tech_gap = clamp01_bits(abs_int(a.literacy@ - b.literacy@));
    let religion_gap = clamp01_bits(
        div_bits(
            abs_int(a.religion.theology@ - b.religion.theology@) + abs_int(
                a.religion.ritual@ - b.religion.ritual@,
            ) + abs_int(a.religion.sacred_time@ - b.religion.sacred_time@),
            int_bits(3),
        ),
    );
    mul_bits(ratio_bits(10, 100), scale() - hier_gap) + mul_bits(ratio_bits(15, 100), scale() - cosmo_gap)
        + mul_bits(ratio_bits(15, 100), scale() - tech_gap) + mul_bits(
        ratio_bits(60, 100),
        scale() - religion_gap,
    )
}

/// Lineage closeness: `exp(−|depth_a − depth_b| / 8)`.
pub open spec fn generation_factor_bits(a: WarParty, b: WarParty) -> int {
    let d = abs_int(a.lineage_depth - b.lineage_depth);
    exp_bits(-div_bits(int_bits(d), int_bits(8)))
}

/// Kinship in `[0, 1]`: the weighted closeness times lineage closeness,
/// minus the mean of both sides' decayed grudges.
pub open spec fn kinship_bits(a: WarParty, b: WarParty, tick: u64) -> int {
    let ga = decayed_grudge_bits(a.grudges@, b.id, tick, kin_decay());
    let gb = decayed_grudge_bits(b.grudges@, a.id, tick, kin_decay());
    clamp01_bits(
        mul_bits(kinship_base_bits(a, b), generation_factor_bits(a, b)) - div_bits(ga + gb, int_bits(2)),
    )
}

/// Kinship of the pair can be computed: literacy gap representable,
/// lineage gap within the integer bits, grudge decay in range.
pub open spec fn kinship_ok(a: WarParty, b: WarParty, tick: u64) -> bool {
    &&& a.cosmology.wf()
    &&& b.cosmology.wf()
    &&& a.religion.wf()
    &&& b.religion.wf()
    &&& fits(a.literacy@ - b.literacy@)
    &&& fits(b.literacy@ - a.literacy@)
    &&& abs_int(a.lineage_depth - b.lineage_depth) < 0x8000_0000
    &&& decay_ok(a.grudges@, b.id, tick, kin_decay())
    &&& decay_ok(b.grudges@, a.id, tick, kin_decay())
    &&& forall|k: u32| #[trigger] a.grudges@.contains_key(k) ==> 0 <= a.grudges@[k].0@ <= grudge_ceiling()
    &&& forall|k: u32| #[trigger] b.grudges@.contains_key(k) ==> 0 <= b.grudges@[k].0@ <= grudge_ceiling()
}

/// A weight applied to a closeness in `[0, 1]` gives at most the weight.
proof fn lemma_weighted_closeness(w: int, g: int)
    requires
        0 <= w,
        0 <= g <= scale(),
    ensures
        0 <= mul_bits(w, g) <= w,
        mul_bits(w, scale()) == w,
        mul_bits(w, 0) == 0,
{
    let s = scale();
    assert(0 <= w * g <= w * s) by (nonlinear_arith) requires 0 <= w, 0 <= g <= s;
    vstd::arithmetic::div_mod::lemma_div_is_ordered(w * g, w * s, s);
    vstd::arithmetic::div_mod::lemma_div_pos_is_pos(w * g, s);
    vstd::arithmetic::div_mod::lemma_div_multiples_vanish(w, s);
    assert(w * s == s * w) by (nonlinear_arith);
}

/// Literacy carries 15% of kinship: with everything else equal (the
/// same worldviews, the same lineage depth, no grudge either way), a pair
/// whose literacy differs by one or more reads exactly the 15% literacy
/// weight less kin than a pair of equal literacy.
pub proof fn lemma_literacy_gap_costs_kinship(a: WarParty, a2: WarParty, b: WarParty, tick: u64)
    requires
        a2 == (WarParty { literacy: a2.literacy, ..a }),
        a.literacy == b.literacy,
        abs_int(a2.literacy@ - b.literacy@) >= scale(),
        a.lineage_depth == b.lineage_depth,
        !a.grudges@.contains_key(b.id),
        !b.grudges@.contains_key(a.id),
    ensures
        kinship_bits(a, b, tick) == kinship_bits(a2, b, tick) + ratio_bits(15, 100),
{
    let s = scale();
    crate::arith::lemma_ratio_value(10, 100);
    crate::arith::lemma_ratio_value(15, 100);
    crate::arith::lemma_ratio_value(60, 100);
    let w10 = ratio_bits(10, 100);
    let w15 = ratio_bits(15, 100);
    let w60 = ratio_bits(60, 100);
    assert(w10 == 429496729 && w15 == 644245094 && w60 == 2576980377) by {
        assert(10 * s == 42949672960 && 15 * s == 64424509440 && 60 * s == 257698037760);
        assert(42949672960int / 100int == 429496729);
        assert(64424509440int / 100int == 644245094);
        assert(257698037760int / 100int == 2576980377);
    }
    let ca = a.cosmology;
    let cb = b.cosmology;
    let hier_gap = clamp01_bits(abs_int(ca.hierarchical@ - cb.hierarchical@));
    let cosmo_gap = clamp01_bits(
        div_bits(
            abs_int(ca.empirical@ - cb.empirical@) + abs_int(ca.communitarian@ - cb.communitarian@)
                + abs_int(ca.reformist@ - cb.reformist@) + abs_int(ca.mystical@ - cb.mystical@),
            int_bits(4),
        ),
    );
    let religion_gap = clamp01_bits(
        div_bits(
            abs_int(a.religion.theology@ - b.religion.theology@) + abs_int(
                a.religion.ritual@ - b.religion.ritual@,
            ) + abs_int(a.religion.sacred_time@ - b.religion.sacred_time@),
            int_bits(3),
        ),
    );
    lemma_weighted_closeness(w10, s - hier_gap);
    lemma_weighted_closeness(w15, s - cosmo_gap);
    lemma_weighted_closeness(w60, s - religion_gap);
    lemma_weighted_closeness(w15, 0);
    let rest = mul_bits(w10, s - hier_gap) + mul_bits(w15, s - cosmo_gap) + mul_bits(w60, s - religion_gap);
    assert(clamp01_bits(abs_int(a.literacy@ - b.literacy@)) == 0);
    assert(clamp01_bits(abs_int(a2.literacy@ - b.literacy@)) == s);
    assert(kinship_base_bits(a, b) == rest + w15);
    assert(kinship_base_bits(a2, b) == rest);
    assert(0 <= rest && rest + w15 <= s);
    // Same lineage: the lineage factor is one.
    crate::transcendental::lemma_exp_zero();
    assert(div_bits(int_bits(0), int_bits(8)) == 0);
    assert(generation_factor_bits(a, b) == s);
    assert(generation_factor_bits(a2, b) == s);
    // No grudges either way.
    assert(decayed_grudge_bits(a.grudges@, b.id, tick, kin_decay()) == 0);
    assert(decayed_grudge_bits(a2.grudges@, b.id, tick, kin_decay()) == 0);
    assert(decayed_grudge_bits(b.grudges@, a.id, tick, kin_decay()) == 0);
    assert(div_bits(0, int_bits(2)) == 0);
    lemma_weighted_closeness(rest, s);
    lemma_weighted_closeness(rest + w15, s);
    assert(mul_bits(rest, s) == rest) by {
        vstd::arithmetic::div_mod::lemma_div_multiples_vanish(rest, s);
        assert(rest * s == s * rest) by (nonlinear_arith);
    }
    assert(mul_bits(rest + w15, s) == rest + w15) by {
        vstd::arithmetic::div_mod::lemma_div_multiples_vanish(rest + w15, s);
        assert((rest + w15) * s == s * (rest + w15)) by (nonlinear_arith);
    }
}

fn abs_gap(x: Real, y: Real) -> (r: Real)
    requires
        fits(x@ - y@),
        fits(y@ - x@),
    ensures
        r@ == abs_int(x@ - y@),
{
    let d = x.sub(y);
    if d.bits < 0 {
        d.neg()
    } else {
        d
    }
}

fn closeness(w_pct: i64, gap: Real) -> (r: Real)
    requires
        0 <= w_pct <= 100,
        0 <= gap@ <= scale(),
    ensures
        r@ == mul_bits(ratio_bits(w_pct as int, 100), scale() - gap@),
        0 <= r@ <= ratio_bits(w_pct as int, 100),
{
    proof {
        lemma_ratio_unit(w_pct as int, 100);
        lemma_mul_unit(ratio_bits(w_pct as int, 100), scale() - gap@);
        let w = ratio_bits(w_pct as int, 100);
        let g = scale() - gap@;
        assert(w * g <= w * scale()) by (nonlinear_arith) requires 0 <= w, 0 <= g <= 4294967296;
        vstd::arithmetic::div_mod::lemma_div_is_ordered(w * g, w * scale(), scale());
        vstd::arithmetic::div_mod::lemma_div_by_multiple(w, scale());
    }
    Real::percent(w_pct).mul(Real::one().sub(gap))
}

/// The pair's kinship at `tick`.
pub fn kinship_pair(a: &WarParty, b: &WarParty, tick: u64) -> (r: Real)
    requires
        kinship_ok(*a, *b, tick),
    ensures
        r@ == kinship_bits(*a, *b, tick),
        0 <= r@ <= scale(),
{
    let ca = &a.cosmology;
    let cb = &b.cosmology;
    let hier_gap = abs_gap(ca.hierarchical, cb.hierarchical).clamp01();
    let cosmo_sum = abs_gap(ca.empirical, cb.empirical).add(abs_gap(ca.communitarian, cb.communitarian)).add(
        abs_gap(ca.reformist, cb.reformist),
    ).add(abs_gap(ca.mystical, cb.mystical));
    proof {
        crate::transcendental::lemma_div_int_bound(cosmo_sum@, 4);
    }
    let cosmo_gap = cosmo_sum.div(Real::from_int(4)).clamp01();
    let tech_gap = abs_gap(a.literacy, b.literacy).clamp01();
    let religion_sum = abs_gap(a.religion.theology, b.religion.theology).add(
        abs_gap(a.religion.ritual, b.religion.ritual),
    ).add(abs_gap(a.religion.sacred_time, b.religion.sacred_time));
    proof {
        crate::transcendental::lemma_div_int_bound(religion_sum@, 3);
    }
    let religion_gap = religion_sum.div(Real::from_int(3)).clamp01();
    let c1 = closeness(10, hier_gap);
    let c2 = closeness(15, cosmo_gap);
    let c3 = closeness(15, tech_gap);
    let c4 = closeness(60, religion_gap);
    proof {
        assert(ratio_bits(10, 100) + ratio_bits(15, 100) + ratio_bits(15, 100) + ratio_bits(60, 100) <= scale());
    }
    let base = c1.add(c2).add(c3).add(c4);
    let gen_a = a.lineage_depth as i64;
    let gen_b = b.lineage_depth as i64;
    let gen_distance = if gen_a >= gen_b {
        gen_a - gen_b
    } else {
        gen_b - gen_a
    };
    proof {
        crate::transcendental::lemma_div_int_bound(int_bits(gen_distance as int), 8);
    }
    let decay_arg = Real::from_int(gen_distance).div(Real::from_int(8));
    proof {
        assert(0 <= decay_arg@ <= 0x2000_0000_0000_0000) by {
            crate::transcendental::lemma_div_int_bound(int_bits(gen_distance as int), 8);
            assert(int_bits(gen_distance as int) <= 0x8000_0000 * scale());
        }
        lemma_exp_ok_nonpos(-decay_arg@);
    }
    let gen_factor = exp(decay_arg.neg());
    let decay_w = Real::from_ratio(1, 1000);
    let decay_l = Real::from_ratio(5, 10000);
    let decay = decay_l.min(decay_w);
    let g_a = crate::conflict::grudge::decayed_grudge(&a.grudges, b.id, tick, decay);
    let g_b = crate::conflict::grudge::decayed_grudge(&b.grudges, a.id, tick, decay);
    proof {
        assert(0 <= g_a@ <= grudge_ceiling()) by {
            if a.grudges@.contains_key(b.id) {
                assert(0 <= a.grudges@[b.id].0@ <= grudge_ceiling());
                lemma_ratio_unit(5, 10000);
                lemma_ratio_unit(1, 1000);
                let e = crate::conflict::grudge::elapsed_ticks(tick, a.grudges@[b.id].1);
                assert(0 <= decay@ * int_bits(e)) by (nonlinear_arith)
                    requires 0 <= decay@, 0 <= e, int_bits(e) == e * 4294967296;
                vstd::arithmetic::div_mod::lemma_div_pos_is_pos(decay@ * int_bits(e), scale());
            }
        }
        assert(0 <= g_b@ <= grudge_ceiling()) by {
            if b.grudges@.contains_key(a.id) {
                assert(0 <= b.grudges@[a.id].0@ <= grudge_ceiling());
                lemma_ratio_unit(5, 10000);
                lemma_ratio_unit(1, 1000);
                let e = crate::conflict::grudge::elapsed_ticks(tick, b.grudges@[a.id].1);
                assert(0 <= decay@ * int_bits(e)) by (nonlinear_arith)
                    requires 0 <= decay@, 0 <= e, int_bits(e) == e * 4294967296;
                vstd::arithmetic::div_mod::lemma_div_pos_is_pos(decay@ * int_bits(e), scale());
            }
        }
        crate::transcendental::lemma_div_int_bound(g_a@ + g_b@, 2);
        assert(mul_ok(base@, gen_factor@)) by (nonlinear_arith)
            requires 0 <= base@ <= 4294967296, 0 <= gen_factor@ < 2 * 4294967296;
        crate::transcendental::lemma_mul_bits_bound(base@, gen_factor@);
    }
    let grudge_avg = g_a.add(g_b).div(Real::from_int(2));
    base.mul(gen_factor).sub(grudge_avg).clamp01()
}

/// Population pressure: `clamp01(pop / (capacity × 1.25))`, zero
/// without capacity.
pub open spec fn pressure_bits(p: WarParty) -> int {
    if p.carrying_capacity@ <= 0 {
        0
    } else {
        clamp01_bits(div_bits(p.population@, mul_bits(p.carrying_capacity@, ratio_bits(5, 4))))
    }
}

/// The defender's slack capacity per attacker head, clamped to `[0, 1]`;
/// zero for an empty attacker.
pub open spec fn opportunity_bits(attacker: WarParty, defender: WarParty) -> int {
    if attacker.population@ <= 0 {
        0
    } else {
        let slack = max_bits(defender.carrying_capacity@ - defender.population@, 0);
        clamp01_bits(div_bits(slack, attacker.population@))
    }
}

/// The attacker's share of the pair's total strength (one half when the
/// total is not positive).
pub open spec fn dominance_bits(sa: int, sb: int) -> int {
    if sa + sb <= 0 {
        ratio_bits(1, 2)
    } else {
        div_bits(sa, sa + sb)
    }
}

/// Drive of `attacker` against `defender`.
pub open spec fn drive_bits(attacker: WarParty, defender: WarParty) -> int {
    clamp01_bits(
        mul_bits(ratio_bits(45, 100), pressure_bits(attacker)) + mul_bits(
            ratio_bits(25, 100),
            opportunity_bits(attacker, defender),
        ) + mul_bits(
            ratio_bits(30, 100),
            dominance_bits(strength_bits(attacker), strength_bits(defender)),
        ),
    )
}

/// The drive of `attacker` against `defender` can be computed.
pub open spec fn drive_ok(attacker: WarParty, defender: WarParty) -> bool {
    let sa = strength_bits(attacker);
    let sd = strength_bits(defender);
    &&& strength_ok(attacker)
    &&& strength_ok(defender)
    &&& attacker.carrying_capacity@ > 0 ==> mul_ok(attacker.carrying_capacity@, ratio_bits(5, 4))
        && div_ok(attacker.population@, mul_bits(attacker.carrying_capacity@, ratio_bits(5, 4)))
    &&& attacker.population@ > 0 ==> fits(defender.carrying_capacity@ - defender.population@)
        && div_ok(
        max_bits(defender.carrying_capacity@ - defender.population@, 0),
        attacker.population@,
    )
    &&& fits(sa + sd)
    &&& sa + sd > 0 ==> div_ok(sa, sa + sd)
}

fn drive(attacker: &WarParty, defender: &WarParty) -> (r: Real)
    requires
        drive_ok(*attacker, *defender),
    ensures
        r@ == drive_bits(*attacker, *defender),
        0 <= r@ <= scale(),
{
    proof {
        lemma_ratio_unit(45, 100);
        lemma_ratio_unit(25, 100);
        lemma_ratio_unit(30, 100);
        lemma_ratio_unit(1, 2);
    }
    let cap = attacker.carrying_capacity;
    let p = if cap.bits <= 0 {
        Real::zero()
    } else {
        attacker.population.div(cap.mul(Real::from_ratio(5, 4))).clamp01()
    };
    let o = if attacker.population.bits <= 0 {
        Real::zero()
    } else {
        let slack = defender.carrying_capacity.sub(defender.population).max(Real::zero());
        slack.div(attacker.population).clamp01()
    };
    let s_a = strength(attacker);
    let s_d = strength(defender);
    let total = s_a.add(s_d);
    let d = if total.bits <= 0 {
        Real::from_ratio(1, 2)
    } else {
        s_a.div(total)
    };
    proof {
        lemma_mul_unit(ratio_bits(45, 100), p@);
        lemma_mul_unit(ratio_bits(25, 100), o@);
        assert(mul_ok(ratio_bits(30, 100), d@)) by (nonlinear_arith)
            requires
                0 <= ratio_bits(30, 100) <= 4294967296,
                -0x8000_0000_0000_0000 <= d@ <= 0x7fff_ffff_ffff_ffff;
        crate::transcendental::lemma_mul_bits_bound(ratio_bits(30, 100), d@);
        assert(abs_int(mul_bits(ratio_bits(30, 100), d@)) <= abs_int(d@) / 2 + 1) by {
            crate::transcendental::lemma_mul_bits_bound(ratio_bits(30, 100), d@);
            let m = abs_int(mul_bits(ratio_bits(30, 100), d@));
            let w = ratio_bits(30, 100);
            let e = abs_int(d@);
            assert(w <= 2147483648);
            assert(m <= e / 2 + 1) by (nonlinear_arith)
                requires
                    4294967296 * m <= w * e + 4294967296,
                    0 <= w <= 2147483648,
                    0 <= e,
                    0 <= m;
        }
    }
    let t1 = Real::percent(45).mul(p);
    let t2 = Real::percent(25).mul(o);
    let t3 = Real::percent(30).mul(d);
    t1.add(t2).add(t3).clamp01()
}

/// The kinship dampener: `max(0, 1 − 0.1 × kinship)`.
pub open spec fn dampener_bits(kin: int) -> int {
    max_bits(scale() - mul_bits(ratio_bits(10, 100), kin), 0)
}

/// What the assessment of a populated pair holds: the side with the
/// higher belligerence (ties to the lower id) is the aggressor.
pub open spec fn assessment_matches(r: PairAssessment, a: WarParty, b: WarParty, tick: u64) -> bool {
    let kin = kinship_bits(a, b, tick);
    let f = dampener_bits(kin);
    let bab = mul_bits(drive_bits(a, b), f);
    let bba = mul_bits(drive_bits(b, a), f);
    &&& r.kinship@ == kin
    &&& if first_wins(bab, bba, a.id, b.id) {
        r.aggressor_id == a.id && r.defender_id == b.id && r.belligerence@ == bab && r.drive@
            == drive_bits(a, b)
    } else {
        r.aggressor_id == b.id && r.defender_id == a.id && r.belligerence@ == bba && r.drive@
            == drive_bits(b, a)
    }
}

/// Per-pair belligerence assessment; `None` when either civ is empty.
pub fn assess_pair(a: &WarParty, b: &WarParty, tick: u64) -> (r: Option<PairAssessment>)
    requires
        a.population@ > 0 && b.population@ > 0 ==> kinship_ok(*a, *b, tick) && drive_ok(*a, *b)
            && drive_ok(*b, *a),
    ensures
        (a.population@ <= 0 || b.population@ <= 0) ==> r is None,
        (a.population@ > 0 && b.population@ > 0) ==> r is Some && assessment_matches(r->0, *a, *b, tick),
{
    if a.population.bits <= 0 || b.population.bits <= 0 {
        return None;
    }
    let kin = kinship_pair(a, b, tick);
    proof {
        lemma_ratio_unit(10, 100);
        lemma_mul_unit(ratio_bits(10, 100), kin@);
    }
    let dampener_factor = Real::one().sub(Real::percent(10).mul(kin)).max(Real::zero());
    let drive_ab = drive(a, b);
    let drive_ba = drive(b, a);
    proof {
        lemma_mul_unit(drive_ab@, dampener_factor@);
        lemma_mul_unit(drive_ba@, dampener_factor@);
    }
    let bell_ab = drive_ab.mul(dampener_factor);
    let bell_ba = drive_ba.mul(dampener_factor);
    if bell_ab.bits > bell_ba.bits || (bell_ab.bits == bell_ba.bits && a.id < b.id) {
        Some(
            PairAssessment {
                aggressor_id: a.id,
                defender_id: b.id,
                belligerence: bell_ab,
                drive: drive_ab,
                kinship: kin,
            },
        )
    } else {
        Some(
            PairAssessment {
                aggressor_id: b.id,
                defender_id: a.id,
                belligerence: bell_ba,
                drive: drive_ba,
                kinship: kin,
            },
        )
    }
}

} // verus!
