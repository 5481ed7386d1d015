//! Per-kind firing predicates. The periodic kinds fire on multiples of
//! a prime-based period that shrinks with the planet's surface area, so
//! bigger worlds see proportionally more events.

use crate::arith::{div_bits, div_ok, int_bits, mul_bits, mul_ok, ratio_bits, scale, Real};
use crate::demographics::{lemma_short_stretch_ok, streak_ticks_for_metabolism, stretched_ticks};
use crate::discovery::channels::{Channel, PhysicsView, FIELD_LIMIT};
use crate::transcendental::abs_int;
use crate::world::{Magnetosphere, SpectralType};
use vstd::prelude::*;

verus! {

/// Ticks a civ must have existed before disease can strike (300 years).
pub const DISEASE_AGE_FLOOR_TICKS: u64 = 3600;

/// A cell erupts: `|charge| > 80` and `temperature > 600 K`.
pub open spec fn erupts(state: PhysicsView, i: int) -> bool {
    abs_int(state.charge@[i]@) > int_bits(80) && state.temperature@[i]@ > int_bits(600)
}

/// The first erupting cell, if any.
pub fn volcanic_fires(state: &PhysicsView) -> (r: Option<usize>)
    requires
        state.wf(),
    ensures
        match r {
            Some(i) => i < state.n_cells() && erupts(*state, i as int) && forall|j: int|
                0 <= j < i ==> !erupts(*state, j),
            None => forall|j: int| 0 <= j < state.n_cells() ==> !erupts(*state, j),
        },
{
    let n = state.temperature.len();
    let charge_threshold = Real::from_int(80);
    let temp_threshold = Real::from_int(600);
    let mut i: usize = 0;
    proof {
        assert(state.field(Channel::ChargeMagnitude).len() == state.n_cells());
    }
    while i < n
        invariant
            i <= n,
            n == state.n_cells(),
            state.wf(),
            charge_threshold@ == int_bits(80),
            temp_threshold@ == int_bits(600),
            forall|j: int| 0 <= j < i ==> !erupts(*state, j),
        decreases n - i,
    {
        proof {
            assert(state.field(Channel::ChargeMagnitude).len() == state.n_cells());
            assert(abs_int(state.field(Channel::ChargeMagnitude)[i as int]@) <= FIELD_LIMIT);
        }
        let c = state.charge[i].abs();
        if c.bits > charge_threshold.bits && state.temperature[i].bits > temp_threshold.bits {
            return Some(i);
        }
        i += 1;
    }
    None
}

/// Whether disease strikes: population above 80% of capacity, and the
/// civ older than the age floor stretched by the metabolism.
pub open spec fn disease_fires_spec(cap: int, population: int, founded_tick: u64, tick: u64, metabolism: int) -> bool {
    let floor_t = stretched_ticks(3600, metabolism);
    let age_floor = if floor_t > 1 { floor_t } else { 1 };
    let age = if tick >= founded_tick { tick - founded_tick } else { 0 };
    cap > 0 && div_bits(population, cap) >= ratio_bits(8, 10) && age >= age_floor
}

/// The disease trigger.
pub fn disease_fires(cap: Real, population: Real, founded_tick: u64, tick: u64, metabolism: Real) -> (b: bool)
    requires
        cap@ > 0 ==> div_ok(population@, cap@),
    ensures
        b == disease_fires_spec(cap@, population@, founded_tick, tick, metabolism@),
{
    if cap.bits <= 0 {
        return false;
    }
    let crowding = population.div(cap);
    if crowding.bits < Real::from_ratio(8, 10).bits {
        return false;
    }
    proof {
        lemma_short_stretch_ok(DISEASE_AGE_FLOOR_TICKS, metabolism@);
    }
    let age_floor = streak_ticks_for_metabolism(DISEASE_AGE_FLOOR_TICKS, metabolism);
    tick.saturating_sub(founded_tick) >= age_floor
}

/// `⌊radius² × 100⌋`, the planet's surface area in percent of Earth's.
pub open spec fn area_percent(radius: int) -> int {
    mul_bits(mul_bits(radius, radius), int_bits(100)) / scale()
}

/// `max(1, base × 100 / max(area percent, 1))`, or `base` when that does
/// not fit 64 bits.
pub open spec fn scaled_period(base: u64, radius: int) -> int {
    let p = area_percent(radius);
    let denom = if p > 1 { p } else { 1 };
    let scaled = (base * 100) / denom;
    let s1 = if scaled > 1 { scaled } else { 1 };
    if s1 <= u64::MAX { s1 } else { base as int }
}

/// The area products can be computed.
pub open spec fn area_ok(radius: int) -> bool {
    mul_ok(radius, radius) && mul_ok(mul_bits(radius, radius), int_bits(100))
}

/// Scale a base catastrophe period down by the planet's surface area.
pub fn scale_period_by_area(base_period: u64, radius: Real) -> (p: u64)
    requires
        area_ok(radius@),
        base_period >= 1,
    ensures
        p == scaled_period(base_period, radius@),
        p >= 1,
{
    let area_factor = radius.mul(radius);
    let factor_x100 = area_factor.mul(Real::from_int(100)).to_i64_floor();
    let denom: u64 = if factor_x100 > 1 { factor_x100 as u64 } else { 1 };
    let numer: u128 = (base_period as u128) * 100;
    let scaled: u128 = numer / (denom as u128);
    let s1: u128 = if scaled > 1 { scaled } else { 1 };
    if s1 <= 0xffff_ffff_ffff_ffff {
        s1 as u64
    } else {
        base_period
    }
}

/// Period of the asteroid window: 4733 years, scaled by area.
pub fn asteroid_fires(radius: Real, tick: u64) -> (b: bool)
    requires
        area_ok(radius@),
    ensures
        b == (tick > 0 && tick % (scaled_period(56796, radius@) as u64) == 0),
{
    let period = scale_period_by_area(4733 * 12, radius);
    tick > 0 && tick % period == 0
}

/// Flare period of a spectral class, from the 1567-year G-dwarf base:
/// M dwarfs flare 100×, K 10×, F 0.3×, A 0.1× as often.
pub open spec fn flare_base_period(t: SpectralType) -> int {
    let base: int = 18804int;
    match t {
        SpectralType::M => base / 100,
        SpectralType::K => base / 10,
        SpectralType::G => base,
        SpectralType::F => (base * 10) / 3,
        SpectralType::A => base * 10,
    }
}

/// Scaling by area keeps the order of two periods.
proof fn lemma_scaled_period_mono(b1: u64, b2: u64, radius: int)
    requires
        1 <= b1 <= b2 <= 1_000_000,
    ensures
        1 <= scaled_period(b1, radius) <= scaled_period(b2, radius),
{
    let p = area_percent(radius);
    let denom = if p > 1 { p } else { 1 };
    vstd::arithmetic::div_mod::lemma_div_is_ordered(b1 * 100, b2 * 100, denom);
    vstd::arithmetic::div_mod::lemma_div_is_ordered_by_denominator(b2 * 100, 1, denom);
}

/// On an Earth-sized planet (radius one) a period is not rescaled.
proof fn lemma_scaled_period_earth(b: u64)
    requires
        1 <= b <= 1_000_000,
    ensures
        scaled_period(b, scale()) == b,
{
    let s = scale();
    assert(mul_bits(s, s) == s) by {
        vstd::arithmetic::div_mod::lemma_div_multiples_vanish(s, s);
    }
    assert(mul_bits(s, int_bits(100)) == 100 * s) by {
        assert(s * int_bits(100) == s * (100 * s));
        vstd::arithmetic::div_mod::lemma_div_multiples_vanish(100 * s, s);
    }
    assert(area_percent(s) == 100) by {
        vstd::arithmetic::div_mod::lemma_div_multiples_vanish(100, s);
        assert(100 * s == s * 100);
    }
    vstd::arithmetic::div_mod::lemma_div_multiples_vanish(b as int, 100);
    assert(b * 100 == 100 * b);
}

/// Flare periods by spectral class: an M dwarf's base period is the
/// G dwarf's divided by 100 and a K dwarf's divided by 10, and the
/// periods strictly increase from M through K, G and F to A, so cooler
/// stars flare more often. On any planet the area-scaled windows keep
/// that order, and on an Earth-sized planet they are the base periods
/// themselves (an M dwarf there flares every 188 ticks).
pub proof fn lemma_flare_periods_by_spectral_class(radius: int)
    ensures
        flare_base_period(SpectralType::M) == flare_base_period(SpectralType::G) / 100,
        flare_base_period(SpectralType::K) == flare_base_period(SpectralType::G) / 10,
        0 < flare_base_period(SpectralType::M) < flare_base_period(SpectralType::K) < flare_base_period(SpectralType::G)
            < flare_base_period(SpectralType::F) < flare_base_period(SpectralType::A),
        scaled_period(flare_base_period(SpectralType::M) as u64, radius)
            <= scaled_period(flare_base_period(SpectralType::K) as u64, radius)
            <= scaled_period(flare_base_period(SpectralType::G) as u64, radius)
            <= scaled_period(flare_base_period(SpectralType::F) as u64, radius)
            <= scaled_period(flare_base_period(SpectralType::A) as u64, radius),
        scaled_period(flare_base_period(SpectralType::M) as u64, scale()) == flare_base_period(SpectralType::G) / 100,
{
    let m = flare_base_period(SpectralType::M);
    let k = flare_base_period(SpectralType::K);
    let g = flare_base_period(SpectralType::G);
    let f = flare_base_period(SpectralType::F);
    let a = flare_base_period(SpectralType::A);
    assert(m == 188 && k == 1880 && g == 18804 && f == 62680 && a == 188040);
    lemma_scaled_period_mono(m as u64, k as u64, radius);
    lemma_scaled_period_mono(k as u64, g as u64, radius);
    lemma_scaled_period_mono(g as u64, f as u64, radius);
    lemma_scaled_period_mono(f as u64, a as u64, radius);
    lemma_scaled_period_earth(m as u64);
}

/// Solar flares strike planets with a weak or absent magnetosphere and
/// a star brighter than 1500 W/m², on the spectral period scaled by
/// area.
pub fn solar_flare_fires(
    magnetosphere: Magnetosphere,
    stellar_luminosity: Real,
    spectral_type: SpectralType,
    radius: Real,
    tick: u64,
) -> (b: bool)
    requires
        area_ok(radius@),
    ensures
        b == ((magnetosphere == Magnetosphere::Absent || magnetosphere == Magnetosphere::Weak)
            && stellar_luminosity@ >= int_bits(1500) && tick > 0 && tick % (scaled_period(
            flare_base_period(spectral_type) as u64,
            radius@,
        ) as u64) == 0),
{
    match magnetosphere {
        Magnetosphere::Absent | Magnetosphere::Weak => {},
        Magnetosphere::Strong => return false,
    }
    if stellar_luminosity.bits < Real::from_int(1500).bits {
        return false;
    }
    let base_period: u64 = 1567 * 12;
    let period = match spectral_type {
        SpectralType::M => base_period / 100,
        SpectralType::K => base_period / 10,
        SpectralType::G => base_period,
        SpectralType::F => (base_period * 10) / 3,
        SpectralType::A => base_period * 10,
    };
    let period = scale_period_by_area(period, radius);
    tick > 0 && tick % period == 0
}

/// Ice ages strike planets no warmer than 260 K once the civ is a
/// thousand years old, on a 2917-year period scaled by area.
pub fn ice_age_fires(mean_temperature: Real, radius: Real, founded_tick: u64, tick: u64) -> (b: bool)
    requires
        area_ok(radius@),
    ensures
        b == (mean_temperature@ <= int_bits(260) && (if tick >= founded_tick {
            tick - founded_tick
        } else {
            0
        }) >= 12000 && tick > 0 && tick % (scaled_period(35004, radius@) as u64) == 0),
{
    if mean_temperature.bits > Real::from_int(260).bits {
        return false;
    }
    if tick.saturating_sub(founded_tick) < 1000 * 12 {
        return false;
    }
    let period = scale_period_by_area(2917 * 12, radius);
    tick > 0 && tick % period == 0
}


/// The eruption's mark on its cell: the cell's fuel is burnt to zero and
/// its temperature drops by 50 K, floored at zero; nothing else changes.
pub fn erupt_cell(state: &mut PhysicsView, cell: usize)
    requires
        old(state).wf(),
        cell < old(state).n_cells(),
    ensures
        final(state).wf(),
        final(state).fuel@ == old(state).fuel@.update(cell as int, Real { bits: 0 }),
        final(state).temperature@ == old(state).temperature@.update(
            cell as int,
            Real { bits: (if old(state).temperature@[cell as int]@ - int_bits(50) > 0 {
                old(state).temperature@[cell as int]@ - int_bits(50)
            } else {
                0
            }) as i64 },
        ),
        final(state).water_depth@ == old(state).water_depth@,
        final(state).charge@ == old(state).charge@,
        final(state).elevation@ == old(state).elevation@,
        final(state).oxidiser@ == old(state).oxidiser@,
        final(state).vapour@ == old(state).vapour@,
        final(state).ice@ == old(state).ice@,
        final(state).fossil@ == old(state).fossil@,
        final(state).magnetic_magnitude@ == old(state).magnetic_magnitude@,
        final(state).neighbours@ == old(state).neighbours@,
{
    proof {
        assert(state.field(Channel::Temperature).len() == state.n_cells());
        assert(state.field(Channel::Fuel).len() == state.n_cells());
        assert(abs_int(state.field(Channel::Temperature)[cell as int]@) <= FIELD_LIMIT);
    }
    let cur = state.temperature[cell];
    let cooled = cur.sub(Real::from_int(50)).max(Real::zero());
    state.fuel.set(cell, Real::zero());
    state.temperature.set(cell, cooled);
    proof {
        assert forall|c: Channel| #[trigger] state.field(c).len() == state.n_cells() by {
            assert(old(state).field(c).len() == old(state).n_cells());
        }
        assert forall|c: Channel, i: int| 0 <= i < state.n_cells() implies abs_int(#[trigger] state.field(c)[i]@) <= FIELD_LIMIT by {
            assert(old(state).field(c).len() == old(state).n_cells());
            assert(abs_int(old(state).field(c)[i]@) <= FIELD_LIMIT);
        }
    }
}

} // verus!
