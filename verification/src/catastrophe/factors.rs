//! Severity and cooldown factors driven by planet properties: biosphere
//! richness drives disease severity, crust drives the volcanic cooldown,
//! and the planet's mean temperature drives ice-age severity.

use crate::arith::{div_bits, int_bits, ratio_bits, scale, fits, Real};
use crate::world::{BiosphereClass, Crust};
use vstd::prelude::*;

verus! {

/// Disease severity of a biosphere, in percent.
pub open spec fn disease_severity_pct(b: BiosphereClass) -> int {
    match b {
        BiosphereClass::Barren => 20,
        BiosphereClass::Sparse => 60,
        BiosphereClass::Lush => 100,
        BiosphereClass::HyperBiodiverse => 150,
    }
}

/// More biosphere, more pathogens.
pub fn disease_severity_factor(biosphere: BiosphereClass) -> (r: Real)
    ensures
        r@ == ratio_bits(disease_severity_pct(biosphere), 100),
{
    match biosphere {
        BiosphereClass::Barren => Real::percent(20),
        BiosphereClass::Sparse => Real::percent(60),
        BiosphereClass::Lush => Real::percent(100),
        BiosphereClass::HyperBiodiverse => Real::percent(150),
    }
}

/// Volcanic cooldown multiplier of a crust, in percent.
pub open spec fn volcanic_cooldown_pct(c: Crust) -> int {
    match c {
        Crust::Basaltic => 100,
        Crust::Hydrocarbon => 80,
        Crust::Piezoelectric => 140,
        Crust::Ferrous => 110,
        Crust::RareEarth => 150,
    }
}

/// Volcanic cooldown multiplier: basaltic crust is the baseline, active
/// hydrocarbon mantles erupt more often, old crusts less.
pub fn volcanic_cooldown_factor(crust: Crust) -> (r: Real)
    ensures
        r@ == ratio_bits(volcanic_cooldown_pct(crust), 100),
{
    match crust {
        Crust::Basaltic => Real::percent(100),
        Crust::Hydrocarbon => Real::percent(80),
        Crust::Piezoelectric => Real::percent(140),
        Crust::Ferrous => Real::percent(110),
        Crust::RareEarth => Real::percent(150),
    }
}

/// `max(1, (273 K − T) / 20 K)` for planets below freezing, else 1.
pub open spec fn ice_age_severity_bits(mean_temperature: int) -> int {
    if mean_temperature >= int_bits(273) {
        scale()
    } else {
        let factor = div_bits(int_bits(273) - mean_temperature, int_bits(20));
        if factor < scale() { scale() } else { factor }
    }
}

/// Ice-age severity: the further the planet's mean temperature sits
/// below 273 K, the worse.
pub fn ice_age_severity_factor(mean_temperature_k: Real) -> (r: Real)
    requires
        fits(int_bits(273) - mean_temperature_k@),
    ensures
        r@ == ice_age_severity_bits(mean_temperature_k@),
{
    let freeze = Real::from_int(273);
    if mean_temperature_k.bits >= freeze.bits {
        return Real::one();
    }
    let deviation = freeze.sub(mean_temperature_k);
    proof {
        crate::transcendental::lemma_div_int_bound(deviation@, 20);
    }
    let factor = deviation.div(Real::from_int(20));
    if factor.bits < Real::one().bits {
        Real::one()
    } else {
        factor
    }
}

} // verus!
