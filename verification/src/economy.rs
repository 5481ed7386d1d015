//! The economic dimension: a per-civ `surplus` buffer that grows when
//! cells run above 70% of capacity, drains with every active war and
//! with catastrophes, is capped at five times the population, feeds
//! food security and war strength, and flows along trade routes.
//!
//! Surplus is in the same Q32.32 units as the aggregate population.

use crate::arith::{
    div_bits, div_ok, fits, int_bits, int_ok, lemma_mul_unit, lemma_ratio_unit, max_bits,
    min_bits, mul_bits, mul_ok, ratio_bits, scale, clamp01_bits, Real,
};
use vstd::prelude::*;

verus! {

/// Utilisation above which surplus accumulates (70%).
pub open spec fn utilization_floor() -> int {
    ratio_bits(70, 100)
}

/// Headroom of `utilisation` above the floor, as a fraction of the
/// largest headroom: `clamp(u − 0.7, 0, 0.3) / 0.3`.
pub open spec fn headroom_fraction(u: int) -> int {
    let floor = utilization_floor();
    let headroom = min_bits(max_bits(u - floor, 0), scale() - floor);
    div_bits(headroom, scale() - floor)
}

/// Surplus after one tick of a populated civ: `surplus + pop·0.001·h −
/// pop·0.0015·wars`, floored at zero and capped at `5·pop`.
pub open spec fn stepped_surplus(surplus: int, pop: int, u: int, wars: int) -> int {
    let gain = mul_bits(mul_bits(pop, ratio_bits(1, 1000)), headroom_fraction(u));
    let drain = mul_bits(mul_bits(pop, ratio_bits(15, 10000)), int_bits(wars));
    min_bits(max_bits(surplus + gain - drain, 0), mul_bits(pop, int_bits(5)))
}

/// Surplus after one tick of an empty civ: it decays by 1%.
pub open spec fn decayed_surplus(surplus: int) -> int {
    max_bits(mul_bits(surplus, ratio_bits(99, 100)), 0)
}

/// The fixed-point operations of one surplus step stay in range.
pub open spec fn step_surplus_ok(surplus: int, pop: int, u: int, wars: int) -> bool {
    if pop <= 0 {
        mul_ok(surplus, ratio_bits(99, 100))
    } else {
        let floor = utilization_floor();
        let gain = mul_bits(mul_bits(pop, ratio_bits(1, 1000)), headroom_fraction(u));
        let drain = mul_bits(mul_bits(pop, ratio_bits(15, 10000)), int_bits(wars));
        &&& fits(u - floor)
        &&& int_ok(wars)
        &&& mul_ok(pop, ratio_bits(1, 1000))
        &&& mul_ok(pop, ratio_bits(15, 10000))
        &&& mul_ok(mul_bits(pop, ratio_bits(15, 10000)), int_bits(wars))
        &&& fits(surplus + gain)
        &&& fits(surplus + gain - drain)
        &&& mul_ok(pop, int_bits(5))
    }
}

/// Step the surplus accumulator one tick from the civ's population,
/// cell utilisation and number of active wars.
pub fn step_surplus(surplus: &mut Real, population: Real, utilisation: Real, at_war_count: u64)
    requires
        step_surplus_ok(old(surplus)@, population@, utilisation@, at_war_count as int),
    ensures
        final(surplus)@ == if population@ <= 0 {
            decayed_surplus(old(surplus)@)
        } else {
            stepped_surplus(old(surplus)@, population@, utilisation@, at_war_count as int)
        },
{
    if population.bits <= 0 {
        *surplus = surplus.mul(Real::percent(99)).max(Real::zero());
        return;
    }
    let floor = Real::percent(70);
    let one = Real::one();
    proof {
        lemma_ratio_unit(70, 100);
        lemma_ratio_unit(1, 1000);
        lemma_ratio_unit(15, 10000);
    }
    let max_headroom = one.sub(floor);
    let headroom = utilisation.sub(floor).max(Real::zero()).min(max_headroom);
    proof {
        assert(max_headroom@ == scale() - utilization_floor());
        // 0.7 rounds down to 3006477107 bits, so the largest headroom is
        // positive and at least a tenth of one.
        assert(max_headroom@ > 429496729);
        assert(0 <= headroom@ <= max_headroom@);
        assert(div_ok(headroom@, max_headroom@)) by {
            let h = headroom@;
            let m = max_headroom@;
            assert(h * scale() <= m * scale()) by (nonlinear_arith) requires 0 <= h <= m;
            assert(0 <= h * scale()) by (nonlinear_arith) requires 0 <= h;
            vstd::arithmetic::div_mod::lemma_div_is_ordered(h * scale(), m * scale(), m);
            vstd::arithmetic::div_mod::lemma_div_by_multiple(scale(), m);
            assert(scale() * m == m * scale()) by (nonlinear_arith);
            vstd::arithmetic::div_mod::lemma_div_pos_is_pos(h * scale(), m);
        }
    }
    let scale_factor = if max_headroom.bits > 0 {
        headroom.div(max_headroom)
    } else {
        Real::zero()
    };
    assert(scale_factor@ == headroom_fraction(utilisation@));
    let gain_rate = Real::from_ratio(1, 1000);
    let per = population.mul(gain_rate);
    proof {
        assert(0 <= scale_factor@ <= scale()) by {
            let h = headroom@;
            let m = max_headroom@;
            vstd::arithmetic::div_mod::lemma_div_is_ordered(h * scale(), m * scale(), m);
            vstd::arithmetic::div_mod::lemma_div_by_multiple(scale(), m);
            assert(scale() * m == m * scale()) by (nonlinear_arith);
            assert(h * scale() <= m * scale()) by (nonlinear_arith) requires 0 <= h <= m;
            assert(0 <= h * scale()) by (nonlinear_arith) requires 0 <= h;
            vstd::arithmetic::div_mod::lemma_div_pos_is_pos(h * scale(), m);
        }
        assert(mul_ok(per@, scale_factor@)) by (nonlinear_arith)
            requires
                -0x8000_0000_0000_0000 <= per@ <= 0x7fff_ffff_ffff_ffff,
                0 <= scale_factor@ <= 4294967296;
    }
    let gain = per.mul(scale_factor);
    let drain_rate = Real::from_ratio(15, 10000);
    let war_factor = Real::from_int(at_war_count as i64);
    let drain = population.mul(drain_rate).mul(war_factor);
    let new_surplus = surplus.add(gain).sub(drain).max(Real::zero());
    let ceiling = population.mul(Real::from_int(5));
    *surplus = new_surplus.min(ceiling);
}

/// Surplus after a catastrophe: 40% of it is consumed, floored at zero.
pub open spec fn drained_surplus(surplus: int) -> int {
    max_bits(mul_bits(surplus, scale() - ratio_bits(40, 100)), 0)
}

/// Apply a catastrophe's surplus shock.
pub fn drain_surplus_on_catastrophe(surplus: &mut Real)
    requires
        mul_ok(old(surplus)@, scale() - ratio_bits(40, 100)),
    ensures
        final(surplus)@ == drained_surplus(old(surplus)@),
{
    proof {
        lemma_ratio_unit(40, 100);
    }
    let drain_frac = Real::percent(40);
    let keep = Real::one().sub(drain_frac);
    *surplus = surplus.mul(keep).max(Real::zero());
}

/// Food-security bonus of a surplus against a demand:
/// `min(surplus/demand, 2) / 2 × 20%`, zero without demand.
pub open spec fn food_buffer_bits(surplus: int, demand: int) -> int {
    if demand <= 0 {
        0
    } else {
        let ratio = div_bits(surplus, demand);
        mul_bits(div_bits(min_bits(ratio, int_bits(2)), int_bits(2)), ratio_bits(20, 100))
    }
}

/// The food-security buffer a surplus contributes against `demand`.
pub fn surplus_food_buffer(surplus: Real, demand: Real) -> (r: Real)
    requires
        demand@ > 0 ==> div_ok(surplus@, demand@),
    ensures
        r@ == food_buffer_bits(surplus@, demand@),
{
    if demand.bits <= 0 {
        return Real::zero();
    }
    let ratio = surplus.div(demand);
    let full = Real::from_int(2);
    let capped = ratio.min(full);
    proof {
        crate::transcendental::lemma_div_int_bound(capped@, 2);
        lemma_ratio_unit(20, 100);
    }
    let halved = capped.div(full);
    proof {
        assert(halved@ <= scale()) by {
            crate::transcendental::lemma_div_int_bound(capped@, 2);
            if capped@ < 0 {
            } else {
                assert(halved@ == capped@ / 2);
            }
        }
        assert(crate::transcendental::abs_int(halved@) * 2 <= crate::transcendental::abs_int(capped@));
        assert(mul_ok(halved@, ratio_bits(20, 100))) by (nonlinear_arith)
            requires
                -0x8000_0000_0000_0000 <= halved@ <= 0x7fff_ffff_ffff_ffff,
                0 <= ratio_bits(20, 100) <= 4294967296;
    }
    halved.mul(Real::percent(20))
}

/// The per-tick flow between two surpluses: `|a − b| × 0.0005`, at
/// least zero and at most the donor's surplus.
pub open spec fn trade_flow_bits(a: int, b: int) -> int {
    let gap = if a > b { a - b } else { b - a };
    let flow = max_bits(mul_bits(gap, ratio_bits(5, 10000)), 0);
    let donor = if a > b { a } else { b };
    if flow <= 0 { 0 } else { min_bits(flow, donor) }
}

/// One tick of trade: the richer side gives `trade_flow_bits` to the
/// poorer (the second argument gives on a tie), and the flow is
/// returned. Either argument order yields the same transfer.
pub fn trade_flow_between(surplus_a: &mut Real, surplus_b: &mut Real) -> (flow: Real)
    requires
        fits(old(surplus_a)@ - old(surplus_b)@),
        fits(old(surplus_b)@ - old(surplus_a)@),
        fits(old(surplus_a)@ + old(surplus_b)@),
        old(surplus_a)@ >= 0,
        old(surplus_b)@ >= 0,
    ensures
        flow@ == trade_flow_bits(old(surplus_a)@, old(surplus_b)@),
        old(surplus_a)@ > old(surplus_b)@ ==> final(surplus_a)@ == old(surplus_a)@ - flow@
            && final(surplus_b)@ == old(surplus_b)@ + flow@,
        old(surplus_a)@ <= old(surplus_b)@ ==> final(surplus_b)@ == old(surplus_b)@ - flow@
            && final(surplus_a)@ == old(surplus_a)@ + flow@,
        final(surplus_a)@ + final(surplus_b)@ == old(surplus_a)@ + old(surplus_b)@,
        old(surplus_a)@ >= old(surplus_b)@ ==> final(surplus_a)@ >= final(surplus_b)@,
        old(surplus_b)@ >= old(surplus_a)@ ==> final(surplus_b)@ >= final(surplus_a)@,
        flow@ == trade_flow_bits(old(surplus_b)@, old(surplus_a)@),
{
    proof {
        lemma_trade_flow_toward_parity(surplus_a@, surplus_b@);
    }
    let s_a = *surplus_a;
    let s_b = *surplus_b;
    let gap = if s_a.bits > s_b.bits {
        s_a.sub(s_b)
    } else {
        s_b.sub(s_a)
    };
    proof {
        lemma_ratio_unit(5, 10000);
        assert(mul_ok(gap@, ratio_bits(5, 10000))) by (nonlinear_arith)
            requires
                -0x8000_0000_0000_0000 <= gap@ <= 0x7fff_ffff_ffff_ffff,
                0 <= ratio_bits(5, 10000) <= 4294967296;
    }
    let raw_flow = gap.mul(Real::from_ratio(5, 10000));
    let flow = raw_flow.max(Real::zero());
    if flow.bits <= 0 {
        return Real::zero();
    }
    if s_a.bits > s_b.bits {
        let actual = flow.min(s_a);
        *surplus_a = s_a.sub(actual);
        *surplus_b = s_b.add(actual);
        actual
    } else {
        let actual = flow.min(s_b);
        *surplus_b = s_b.sub(actual);
        *surplus_a = s_a.add(actual);
        actual
    }
}

/// Trade moves surplus toward parity: the flow is the same whichever
/// civ is named first, it is never negative, it never takes the donor
/// below the recipient, and equal surpluses trade nothing.
pub proof fn lemma_trade_flow_toward_parity(a: int, b: int)
    requires
        a >= 0,
        b >= 0,
    ensures
        trade_flow_bits(a, b) == trade_flow_bits(b, a),
        0 <= trade_flow_bits(a, b),
        a >= b ==> a - trade_flow_bits(a, b) >= b + trade_flow_bits(a, b),
        b >= a ==> b - trade_flow_bits(a, b) >= a + trade_flow_bits(a, b),
        a == b ==> trade_flow_bits(a, b) == 0,
{
    let q = ratio_bits(5, 10000);
    assert(q == 2147483) by {
        assert(int_bits(5) * scale() == 92233720368547758080);
        assert(int_bits(10000) == 42949672960000);
        assert(92233720368547758080int / 42949672960000int == 2147483) by (nonlinear_arith);
    }
    let gap = if a > b { a - b } else { b - a };
    assert(gap >= 0);
    assert(2 * mul_bits(gap, q) <= gap) by (nonlinear_arith)
        requires gap >= 0, q == 2147483, mul_bits(gap, q) == (gap * q) / 4294967296;
    if a == b {
        assert(mul_bits(0, q) == 0);
    }
}

/// War-strength multiplier of a surplus: `1 + clamp01(surplus/pop) ×
/// 15%`, and `1` for an empty civ.
pub open spec fn war_modifier_bits(surplus: int, pop: int) -> int {
    if pop <= 0 {
        scale()
    } else {
        scale() + mul_bits(clamp01_bits(div_bits(surplus, pop)), ratio_bits(15, 100))
    }
}

/// The war-strength multiplier the civ's surplus grants, in
/// `[1, 1.15]`.
pub fn surplus_war_strength_modifier(surplus: Real, aggregate_pop: Real) -> (r: Real)
    requires
        aggregate_pop@ > 0 ==> div_ok(surplus@, aggregate_pop@),
    ensures
        r@ == war_modifier_bits(surplus@, aggregate_pop@),
        scale() <= r@ <= scale() + ratio_bits(15, 100),
{
    proof {
        lemma_ratio_unit(15, 100);
    }
    if aggregate_pop.bits <= 0 {
        return Real::one();
    }
    let ratio = surplus.div(aggregate_pop).clamp01();
    proof {
        lemma_mul_unit(ratio@, ratio_bits(15, 100));
        assert(mul_bits(ratio@, ratio_bits(15, 100)) <= ratio_bits(15, 100)) by {
            let a = ratio@;
            let c = ratio_bits(15, 100);
            assert(a * c <= scale() * c) by (nonlinear_arith) requires 0 <= a <= scale(), 0 <= c;
            vstd::arithmetic::div_mod::lemma_div_is_ordered(a * c, scale() * c, scale());
            vstd::arithmetic::div_mod::lemma_div_by_multiple(c, scale());
            assert(scale() * c == c * scale()) by (nonlinear_arith);
        }
    }
    Real::one().add(ratio.mul(Real::percent(15)))
}

} // verus!
