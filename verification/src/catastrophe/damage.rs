//! Damage plumbing shared by every catastrophe kind: the conditions a
//! struck cell shows the species' tolerance envelope, the resistance and
//! dormancy stack that turns a raw loss fraction into the realised one
//! while routing would-be casualties into the seed bank, and the
//! per-kind cooldown, severity and spread rules.

use crate::arith::{div_bits, div_ok, fits, int_bits, max_bits, min_bits, mul_bits, mul_ok, ratio_bits, scale, Real};
use crate::catastrophe::factors::{ice_age_severity_bits, volcanic_cooldown_pct};
use crate::catastrophe::kind::CatastropheKind;
use crate::world::Crust;
use vstd::prelude::*;

verus! {

/// What a struck cell shows the tolerance envelope:
/// `(temperature, pH, salinity, radiation, pressure in atm)`.
pub open spec fn cell_conditions_bits(
    cell_temperature: Option<Real>,
    cell_pressure: Option<Real>,
    mean_temperature: int,
    surface_pressure: int,
    temp_delta: int,
    extra_rad: int,
) -> (int, int, int, int, int) {
    let cell_t = match cell_temperature {
        Some(t) => t@,
        None => mean_temperature,
    };
    let p_pa = match cell_pressure {
        Some(p) => if p@ > 0 { p@ } else { surface_pressure },
        None => surface_pressure,
    };
    (
        max_bits(cell_t + temp_delta, 0),
        int_bits(7),
        int_bits(20),
        ratio_bits(1, 10) + extra_rad,
        div_bits(p_pa, int_bits(101_325)),
    )
}

/// The conditions of a struck cell: its temperature (the planet mean
/// when the cell has none) shifted by `temp_delta_k` and floored at
/// zero, neutral pH, ocean-baseline salinity, the baseline radiation
/// flux of 0.1 plus `extra_rad`, and its pressure (the planet's surface
/// pressure when the cell has none) converted from Pa to atm.
pub fn catastrophe_cell_conditions(
    cell_temperature: Option<Real>,
    cell_pressure: Option<Real>,
    mean_temperature: Real,
    surface_pressure: Real,
    temp_delta_k: Real,
    extra_rad: Real,
) -> (r: (Real, Real, Real, Real, Real))
    requires
        fits(
            (match cell_temperature {
                Some(t) => t@,
                None => mean_temperature@,
            }) + temp_delta_k@,
        ),
        fits(ratio_bits(1, 10) + extra_rad@),
    ensures
        ({
            let s = cell_conditions_bits(
                cell_temperature,
                cell_pressure,
                mean_temperature@,
                surface_pressure@,
                temp_delta_k@,
                extra_rad@,
            );
            r.0@ == s.0 && r.1@ == s.1 && r.2@ == s.2 && r.3@ == s.3 && r.4@ == s.4
        }),
{
    let cell_t = match cell_temperature {
        Some(t) => t,
        None => mean_temperature,
    };
    let t = cell_t.add(temp_delta_k).max(Real::zero());
    let ph = Real::from_int(7);
    let sal = Real::from_int(20);
    let rad = Real::from_ratio(1, 10).add(extra_rad);
    let p_pa = match cell_pressure {
        Some(p) => if p.bits > 0 {
            p
        } else {
            surface_pressure
        },
        None => surface_pressure,
    };
    proof {
        crate::transcendental::lemma_div_int_bound(p_pa@, 101_325);
    }
    let p = p_pa.div(Real::from_int(101_325));
    (t, ph, sal, rad, p)
}

/// The seed bank: population in cryptobiosis, and when it last grew.
#[derive(Debug, Clone, Copy, PartialEq, Eq, Structural)]
pub struct SeedBank {
    pub population: Real,
    pub entered_tick: u64,
}

/// Loss before dormancy: `after_tools × (1 − match score)`.
pub open spec fn base_loss_bits(after_tools: int, survival_match: int) -> int {
    mul_bits(after_tools, scale() - survival_match)
}

/// Loss after dormancy, at full severity: `base × (1 − dormancy)`.
pub open spec fn after_dormancy_bits(base: int, dormancy: int) -> int {
    mul_bits(base, scale() - mul_bits(dormancy, scale()))
}

/// Would-be casualties diverted into the seed bank:
/// `pop × base × dormancy`.
pub open spec fn seeded_bits(pop: int, base: int, dormancy: int) -> int {
    mul_bits(mul_bits(pop, base), mul_bits(dormancy, scale()))
}

/// The products of the resistance and dormancy stack are representable.
pub open spec fn dormancy_ok(after_tools: int, survival_match: int, dormancy: int, pop: int, bank: int) -> bool {
    let base = base_loss_bits(after_tools, survival_match);
    &&& fits(scale() - survival_match)
    &&& mul_ok(after_tools, scale() - survival_match)
    &&& mul_ok(dormancy, scale())
    &&& fits(scale() - mul_bits(dormancy, scale()))
    &&& mul_ok(base, scale() - mul_bits(dormancy, scale()))
    &&& mul_ok(pop, base)
    &&& mul_ok(mul_bits(pop, base), mul_bits(dormancy, scale()))
    &&& fits(bank + seeded_bits(pop, base, dormancy))
}

/// Apply the tolerance and dormancy stack to a loss fraction already
/// softened by the civ's tools. Returns the realised loss fraction;
/// raises the high-water population mark to `pop_before`, and, for a
/// dormant-capable species with people to lose, moves the would-be
/// casualties the dormancy spared into the seed bank, stamped `tick`.
pub fn apply_resistance_and_dormancy(
    after_tools: Real,
    survival_match: Real,
    dormancy: Real,
    pop_before: Real,
    high_water: &mut Real,
    bank: &mut SeedBank,
    tick: u64,
) -> (r: Real)
    requires
        dormancy_ok(after_tools@, survival_match@, dormancy@, pop_before@, old(bank).population@),
    ensures
        r@ == after_dormancy_bits(base_loss_bits(after_tools@, survival_match@), dormancy@),
        final(high_water)@ == max_bits(pop_before@, old(high_water)@),
        ({
            let base = base_loss_bits(after_tools@, survival_match@);
            let seeded = seeded_bits(pop_before@, base, dormancy@);
            if mul_bits(dormancy@, scale()) > 0 && pop_before@ > 0 && seeded > 0 {
                final(bank).population@ == old(bank).population@ + seeded && final(bank).entered_tick == tick
            } else {
                *final(bank) == *old(bank)
            }
        }),
{
    let one = Real::one();
    let base_loss = after_tools.mul(one.sub(survival_match));
    let dormant_share = dormancy.mul(one);
    let after_dormancy = base_loss.mul(one.sub(dormant_share));
    if pop_before.bits > high_water.bits {
        *high_water = pop_before;
    }
    if dormant_share.bits > 0 && pop_before.bits > 0 {
        let seeded = pop_before.mul(base_loss).mul(dormant_share);
        if seeded.bits > 0 {
            bank.population = bank.population.add(seeded);
            bank.entered_tick = tick;
        }
    }
    after_dormancy
}

/// Whether a catastrophe kind is off cooldown: never fired, or at least
/// `cooldown` ticks ago.
pub open spec fn off_cooldown(last: Option<u64>, tick: u64, cooldown: u64) -> bool {
    match last {
        None => true,
        Some(t) => (if tick >= t { tick - t } else { 0 }) >= cooldown,
    }
}

/// The cooldown test.
pub fn cooldown_ready(last: Option<u64>, tick: u64, cooldown: u64) -> (b: bool)
    ensures
        b == off_cooldown(last, tick, cooldown),
{
    match last {
        None => true,
        Some(t) => tick.saturating_sub(t) >= cooldown,
    }
}

/// Volcanic cooldown: `max(1, ⌊2400 × crust factor / max(radius², 0.01)⌋)`.
pub open spec fn volcanic_cooldown_bits(crust: Crust, radius: int) -> int {
    let area = max_bits(mul_bits(radius, radius), ratio_bits(1, 100));
    let scaled = div_bits(mul_bits(int_bits(2400), ratio_bits(volcanic_cooldown_pct(crust), 100)), area);
    let t = scaled / scale();
    if t > 1 { t } else { 1 }
}

/// The volcanic cooldown products are representable.
pub open spec fn volcanic_cooldown_ok(crust: Crust, radius: int) -> bool {
    let area = max_bits(mul_bits(radius, radius), ratio_bits(1, 100));
    &&& mul_ok(radius, radius)
    &&& div_ok(mul_bits(int_bits(2400), ratio_bits(volcanic_cooldown_pct(crust), 100)), area)
}

/// The volcanic cooldown of a planet, in ticks: the 200-year base
/// scaled by the crust and divided by the surface-area factor.
pub fn scaled_volcanic_cooldown(crust: Crust, radius: Real) -> (t: u64)
    requires
        volcanic_cooldown_ok(crust, radius@),
    ensures
        t == volcanic_cooldown_bits(crust, radius@),
{
    let factor = crate::catastrophe::factors::volcanic_cooldown_factor(crust);
    let area = radius.mul(radius).max(Real::percent(1));
    proof {
        crate::arith::lemma_ratio_fits(volcanic_cooldown_pct(crust), 100);
        crate::transcendental::lemma_div_int_bound(int_bits(volcanic_cooldown_pct(crust)), 100);
        assert(mul_ok(int_bits(2400), factor@)) by (nonlinear_arith)
            requires 0 <= factor@ <= 2 * 4294967296;
    }
    let scaled = Real::from_int(2400).mul(factor).div(area);
    let raw = scaled.to_i64_floor();
    let t = if raw > 1 { raw } else { 1 };
    t as u64
}

/// Disease loss before resistance: `30% × biosphere severity`.
pub open spec fn disease_raw_bits(severity: int) -> int {
    mul_bits(ratio_bits(30, 100), severity)
}

/// Ice-age loss before resistance: `min(20% × severity, 60%)`.
pub open spec fn ice_age_raw_bits(mean_temperature: int) -> int {
    min_bits(mul_bits(ratio_bits(20, 100), ice_age_severity_bits(mean_temperature)), ratio_bits(60, 100))
}

/// Cosmic-ray amplification of a flare: the ground flux clamped to
/// `[0.2, 5]`.
pub open spec fn flare_amplification_bits(flux: int) -> int {
    min_bits(max_bits(flux, ratio_bits(2, 10)), int_bits(5))
}

/// Disease loss before resistance for a biosphere severity factor.
pub fn disease_raw_fraction(severity: Real) -> (r: Real)
    requires
        0 <= severity@ <= 2 * scale(),
    ensures
        r@ == disease_raw_bits(severity@),
{
    proof {
        crate::arith::lemma_ratio_unit(30, 100);
        assert(mul_ok(ratio_bits(30, 100), severity@)) by (nonlinear_arith)
            requires 0 <= ratio_bits(30, 100) <= 4294967296, 0 <= severity@ <= 2 * 4294967296;
    }
    Real::percent(30).mul(severity)
}

/// Ice-age loss before resistance for a planet's mean temperature.
pub fn ice_age_raw_fraction(mean_temperature: Real) -> (r: Real)
    requires
        fits(int_bits(273) - mean_temperature@),
        mul_ok(ratio_bits(20, 100), ice_age_severity_bits(mean_temperature@)),
    ensures
        r@ == ice_age_raw_bits(mean_temperature@),
{
    let severity = crate::catastrophe::factors::ice_age_severity_factor(mean_temperature);
    Real::percent(20).mul(severity).min(Real::percent(60))
}

/// Cosmic-ray amplification of a solar flare's radiation boost.
pub fn flare_amplification(flux: Real) -> (r: Real)
    ensures
        r@ == flare_amplification_bits(flux@),
{
    flux.max(Real::from_ratio(2, 10)).min(Real::from_int(5))
}

/// The first kind, in dispatch order (volcanic, disease, asteroid,
/// solar flare, ice age), that both is off cooldown and fires.
pub open spec fn dispatch_spec(ready_and_fires: Seq<bool>) -> Option<CatastropheKind> {
    if ready_and_fires[0] {
        Some(CatastropheKind::Volcanic)
    } else if ready_and_fires[1] {
        Some(CatastropheKind::Disease)
    } else if ready_and_fires[2] {
        Some(CatastropheKind::Asteroid)
    } else if ready_and_fires[3] {
        Some(CatastropheKind::SolarFlare)
    } else if ready_and_fires[4] {
        Some(CatastropheKind::IceAge)
    } else {
        None
    }
}

/// Which catastrophe an active civ suffers this tick, given for each
/// kind in dispatch order whether it is off cooldown and fires: the
/// first such kind wins the tick; an inactive civ suffers none.
pub fn dispatch_catastrophe(active: bool, ready_and_fires: [bool; 5]) -> (k: Option<CatastropheKind>)
    ensures
        !active ==> k is None,
        active ==> k == dispatch_spec(ready_and_fires@),
{
    if !active {
        return None;
    }
    if ready_and_fires[0] {
        Some(CatastropheKind::Volcanic)
    } else if ready_and_fires[1] {
        Some(CatastropheKind::Disease)
    } else if ready_and_fires[2] {
        Some(CatastropheKind::Asteroid)
    } else if ready_and_fires[3] {
        Some(CatastropheKind::SolarFlare)
    } else if ready_and_fires[4] {
        Some(CatastropheKind::IceAge)
    } else {
        None
    }
}

} // verus!
