//! Substrate-derived demographic constants: birth-rate factors,
//! founding floors, per-unit carrying capacity, migration thresholds,
//! and the hypothesis-attempt and streak cadences stretched by the
//! planet's metabolism.

use crate::arith::{clamp01_bits, div_bits, div_ok, int_bits, int_ok, lemma_mul_unit, lemma_ratio_unit, max_bits, min_bits, mul_bits, mul_ok, ratio_bits, scale, Real};
use crate::transcendental::{sqrt, sqrt_result};
use crate::world::{BiosphereClass, CognitionTopology};
use vstd::prelude::*;

verus! {

/// Birth-rate multiplier of a biosphere class, as a ratio.
pub open spec fn birth_factor_ratio(b: BiosphereClass) -> (int, int) {
    match b {
        BiosphereClass::Barren => (7, 10),
        BiosphereClass::Sparse => (9, 10),
        BiosphereClass::Lush => (1, 1),
        BiosphereClass::HyperBiodiverse => (12, 10),
    }
}

/// Birth-rate multiplier of a biosphere class: food abundance drives
/// reproduction, with `Lush` as the 1.0 baseline.
pub fn biosphere_birth_factor(biosphere: BiosphereClass) -> (r: Real)
    ensures
        r@ == ratio_bits(birth_factor_ratio(biosphere).0, birth_factor_ratio(biosphere).1),
{
    match biosphere {
        BiosphereClass::Barren => Real::from_ratio(7, 10),
        BiosphereClass::Sparse => Real::from_ratio(9, 10),
        BiosphereClass::Lush => {
            proof {
                crate::arith::lemma_ratio_unit(1, 1);
                assert(ratio_bits(1, 1) == scale()) by {
                    vstd::arithmetic::div_mod::lemma_div_by_multiple(scale(), scale());
                }
            }
            Real::one()
        },
        BiosphereClass::HyperBiodiverse => Real::from_ratio(12, 10),
    }
}

/// Planet-adjusted birth factor: the biosphere factor times `1 − 0.1 ×
/// clamp01(tilt / 90°)` times the luminosity relative to Earth's
/// 1361 W/m², clamped to `[0.85, 1.15]`.
pub open spec fn planet_birth_factor_bits(b: BiosphereClass, tilt: int, lum: int) -> int {
    let base = ratio_bits(birth_factor_ratio(b).0, birth_factor_ratio(b).1);
    let tilt_norm = clamp01_bits(div_bits(tilt, int_bits(90)));
    let tilt_factor = scale() - mul_bits(ratio_bits(1, 10), tilt_norm);
    let lum_norm = min_bits(max_bits(div_bits(lum, int_bits(1361)), ratio_bits(85, 100)), ratio_bits(115, 100));
    mul_bits(mul_bits(base, tilt_factor), lum_norm)
}

/// The birth factor for a planet of the given biosphere, axial tilt
/// (degrees) and stellar luminosity (W/m²).
pub fn biosphere_birth_factor_for_planet(
    biosphere: BiosphereClass,
    axial_tilt_deg: Real,
    stellar_luminosity: Real,
) -> (r: Real)
    ensures
        r@ == planet_birth_factor_bits(biosphere, axial_tilt_deg@, stellar_luminosity@),
{
    let base = biosphere_birth_factor(biosphere);
    proof {
        crate::transcendental::lemma_div_int_bound(
            int_bits(birth_factor_ratio(biosphere).0),
            birth_factor_ratio(biosphere).1,
        );
        crate::transcendental::lemma_div_int_bound(axial_tilt_deg@, 90);
        crate::transcendental::lemma_div_int_bound(stellar_luminosity@, 1361);
        lemma_ratio_unit(1, 10);
    }
    let tilt_norm = axial_tilt_deg.div(Real::from_int(90)).clamp01();
    proof {
        lemma_mul_unit(ratio_bits(1, 10), tilt_norm@);
    }
    let tilt_factor = Real::one().sub(Real::from_ratio(1, 10).mul(tilt_norm));
    let lum_norm = stellar_luminosity.div(Real::from_int(1361)).max(Real::percent(85)).min(
        Real::percent(115),
    );
    proof {
        assert(0 <= base@ <= 2 * scale());
        assert(0 <= tilt_factor@ <= scale());
        assert(mul_ok(base@, tilt_factor@)) by (nonlinear_arith)
            requires 0 <= base@ <= 2 * 4294967296, 0 <= tilt_factor@ <= 4294967296;
        crate::transcendental::lemma_mul_bits_bound(base@, tilt_factor@);
        let bt = mul_bits(base@, tilt_factor@);
        assert(bt <= 2 * scale()) by (nonlinear_arith)
            requires 4294967296 * bt <= base@ * tilt_factor@, 0 <= base@ <= 2 * 4294967296,
                0 <= tilt_factor@ <= 4294967296;
        assert(0 <= lum_norm@ <= 2 * scale());
        assert(mul_ok(bt, lum_norm@)) by (nonlinear_arith)
            requires 0 <= bt <= 2 * 4294967296, 0 <= lum_norm@ <= 2 * 4294967296;
    }
    base.mul(tilt_factor).mul(lum_norm)
}

/// Founding-floor population pressure of a biosphere class, as a ratio.
pub open spec fn founding_pressure_ratio(b: BiosphereClass) -> (int, int) {
    match b {
        BiosphereClass::Barren => (15, 10),
        BiosphereClass::Sparse => (1, 1),
        BiosphereClass::Lush => (5, 10),
        BiosphereClass::HyperBiodiverse => (25, 100),
    }
}

/// `50 + 35 × biosphere pressure + 15 × (1 − clamp01(cognition))`.
pub open spec fn founding_min_bits(b: BiosphereClass, cognition: int) -> int {
    let p = ratio_bits(founding_pressure_ratio(b).0, founding_pressure_ratio(b).1);
    int_bits(50) + mul_bits(int_bits(35), p) + mul_bits(int_bits(15), scale() - clamp01_bits(cognition))
}

/// Founding-population floor: lush worlds and clever species need
/// fewer founders.
pub fn founding_min_population(biosphere: BiosphereClass, cognition: Real) -> (r: Real)
    ensures
        r@ == founding_min_bits(biosphere, cognition@),
{
    let biosphere_pressure = match biosphere {
        BiosphereClass::Barren => Real::from_ratio(15, 10),
        BiosphereClass::Sparse => Real::from_ratio(1, 1),
        BiosphereClass::Lush => Real::from_ratio(5, 10),
        BiosphereClass::HyperBiodiverse => Real::percent(25),
    };
    let cog = cognition.clamp01();
    let cognition_penalty = Real::one().sub(cog);
    proof {
        crate::arith::lemma_ratio_fits(founding_pressure_ratio(biosphere).0, founding_pressure_ratio(biosphere).1);
        assert(0 <= biosphere_pressure@ <= 2 * scale()) by {
            crate::transcendental::lemma_div_int_bound(int_bits(founding_pressure_ratio(biosphere).0), founding_pressure_ratio(biosphere).1);
        }
        assert(mul_ok(int_bits(35), biosphere_pressure@)) by (nonlinear_arith)
            requires 0 <= biosphere_pressure@ <= 2 * 4294967296;
        assert(mul_ok(int_bits(15), cognition_penalty@)) by (nonlinear_arith)
            requires 0 <= cognition_penalty@ <= 4294967296;
        crate::transcendental::lemma_mul_bits_bound(int_bits(35), biosphere_pressure@);
        crate::transcendental::lemma_mul_bits_bound(int_bits(15), cognition_penalty@);
        assert(mul_bits(int_bits(35), biosphere_pressure@) <= 70 * scale()) by (nonlinear_arith)
            requires 4294967296 * mul_bits(int_bits(35), biosphere_pressure@) <= int_bits(35) * biosphere_pressure@,
                0 <= biosphere_pressure@ <= 2 * 4294967296, int_bits(35) == 35 * 4294967296;
        assert(mul_bits(int_bits(15), cognition_penalty@) <= 15 * scale()) by (nonlinear_arith)
            requires 4294967296 * mul_bits(int_bits(15), cognition_penalty@) <= int_bits(15) * cognition_penalty@,
                0 <= cognition_penalty@ <= 4294967296, int_bits(15) == 15 * 4294967296;
    }
    Real::from_int(50).add(Real::from_int(35).mul(biosphere_pressure)).add(
        Real::from_int(15).mul(cognition_penalty),
    )
}

/// `max(radius, 0.01)²`.
pub open spec fn area_factor_bits(radius: int) -> int {
    let r = max_bits(radius, ratio_bits(1, 100));
    mul_bits(r, r)
}

/// Surface-area factor of a planet of the given radius (Earth = 1).
pub fn planet_area_factor(radius: Real) -> (r: Real)
    requires
        mul_ok(max_bits(radius@, ratio_bits(1, 100)), max_bits(radius@, ratio_bits(1, 100))),
    ensures
        r@ == area_factor_bits(radius@),
{
    let r = radius.max(Real::percent(1));
    r.mul(r)
}

/// Grid resolution the per-unit capacity is calibrated against.
pub const REFERENCE_PLANET_CELL_COUNT: u32 = 1080;

/// `2 500 000 × (0.85 + 0.30 × clamp01(cognition)) × 1080 / max(cells, 1)`.
pub open spec fn capacity_per_unit_bits(cognition: int, cells: int) -> int {
    let cognition_factor = ratio_bits(85, 100) + mul_bits(ratio_bits(30, 100), clamp01_bits(cognition));
    let effective = if cells > 1 { cells } else { 1 };
    let resolution = ratio_bits(1080, effective);
    mul_bits(mul_bits(int_bits(2_500_000), cognition_factor), resolution)
}

/// The last product of `capacity_per_unit_bits` is representable (a
/// grid of one cell at high cognition overflows it).
pub open spec fn capacity_per_unit_ok(cognition: int, cells: int) -> bool {
    let cognition_factor = ratio_bits(85, 100) + mul_bits(ratio_bits(30, 100), clamp01_bits(cognition));
    let effective = if cells > 1 { cells } else { 1 };
    mul_ok(mul_bits(int_bits(2_500_000), cognition_factor), ratio_bits(1080, effective))
}

/// Individuals per unit of fuel density, invariant in total over the
/// grid resolution.
pub fn carrying_capacity_per_unit(cognition: Real, cell_count: u32) -> (r: Real)
    requires
        cell_count < 0x8000_0000,
        capacity_per_unit_ok(cognition@, cell_count as int),
    ensures
        r@ == capacity_per_unit_bits(cognition@, cell_count as int),
{
    let cog = cognition.clamp01();
    proof {
        lemma_ratio_unit(85, 100);
        lemma_ratio_unit(30, 100);
        lemma_mul_unit(ratio_bits(30, 100), cog@);
    }
    let cognition_factor = Real::percent(85).add(Real::percent(30).mul(cog));
    let effective_cells: u32 = if cell_count > 1 { cell_count } else { 1 };
    proof {
        crate::arith::lemma_ratio_fits(1080, effective_cells as int);
        assert(0 <= ratio_bits(1080, effective_cells as int) <= 1080 * scale()) by {
            crate::transcendental::lemma_div_int_bound(int_bits(1080), effective_cells as int);
        }
    }
    let resolution_factor = Real::from_int(1080).div(Real::from_int(effective_cells as i64));
    proof {
        assert(0 <= cognition_factor@ <= 2 * scale());
        assert(mul_ok(int_bits(2_500_000), cognition_factor@)) by (nonlinear_arith)
            requires 0 <= cognition_factor@ <= 2 * 4294967296;
        crate::transcendental::lemma_mul_bits_bound(int_bits(2_500_000), cognition_factor@);
        let p = mul_bits(int_bits(2_500_000), cognition_factor@);
    }
    Real::from_int(2_500_000).mul(cognition_factor).mul(resolution_factor)
}

/// `0.55 + 0.2 × clamp01(sociality)`.
pub open spec fn migration_threshold_bits(sociality: int) -> int {
    ratio_bits(55, 100) + mul_bits(ratio_bits(2, 10), clamp01_bits(sociality))
}

/// Crowding at which a species starts to migrate: solitary species
/// leave at 55% of capacity, cooperative ones stay until 75%.
pub fn migration_pressure_threshold(sociality: Real) -> (r: Real)
    ensures
        r@ == migration_threshold_bits(sociality@),
{
    let s = sociality.clamp01();
    proof {
        lemma_ratio_unit(55, 100);
        lemma_ratio_unit(2, 10);
        lemma_mul_unit(ratio_bits(2, 10), s@);
    }
    Real::percent(55).add(Real::from_ratio(2, 10).mul(s))
}

/// `r` is the tech-augmented threshold for `base` given the square root
/// `root` of `max(tools, 0.01)`: `min(0.92, base × min(root, 1.1))`.
pub open spec fn augmented_threshold_is(base: int, root: int, r: int) -> bool {
    let factor = if root > ratio_bits(110, 100) { ratio_bits(110, 100) } else { root };
    let augmented = mul_bits(base, factor);
    r == if augmented > ratio_bits(92, 100) { ratio_bits(92, 100) } else { augmented }
}

/// Migration threshold raised by the civ's tool capacity multiplier (at
/// most ×1.1, never above 0.92).
pub fn tech_augmented_migration_threshold(base: Real, tool_capacity_multiplier: Real) -> (r: Real)
    requires
        mul_ok(base@, ratio_bits(110, 100)),
    ensures
        exists|root: int|
            sqrt_result(max_bits(tool_capacity_multiplier@, ratio_bits(1, 100)) * scale(), root)
                && augmented_threshold_is(base@, root, r@),
{
    let safe_mult = tool_capacity_multiplier.max(Real::percent(1));
    proof {
        lemma_ratio_unit(1, 100);
    }
    let raw_factor = sqrt(safe_mult);
    let max_factor = Real::from_ratio(110, 100);
    let factor = if raw_factor.bits > max_factor.bits {
        max_factor
    } else {
        raw_factor
    };
    proof {
        assert(0 <= raw_factor@) by {
            assert(sqrt_result(safe_mult@ * scale(), raw_factor@));
        }
        assert(mul_ok(base@, factor@)) by (nonlinear_arith)
            requires
                mul_ok(base@, ratio_bits(110, 100)),
                0 <= factor@ <= ratio_bits(110, 100);
    }
    let augmented = base.mul(factor);
    let ceiling = Real::percent(92);
    let r = if augmented.bits > ceiling.bits {
        ceiling
    } else {
        augmented
    };
    assert(sqrt_result(max_bits(tool_capacity_multiplier@, ratio_bits(1, 100)) * scale(), raw_factor@)
        && augmented_threshold_is(base@, raw_factor@, r@));
    r
}

/// Whole ticks in a Q32.32 tick count, rounded down.
pub open spec fn whole_ticks(bits: int) -> int {
    bits / scale()
}

/// `max(⌊20 × (1.5 − clamp01(cognition))⌋, 5)`.
pub open spec fn attempt_period_bits(cognition: int) -> int {
    let factor = ratio_bits(15, 10) - clamp01_bits(cognition);
    let raw = whole_ticks(mul_bits(int_bits(20), factor));
    if raw > 5 { raw } else { 5 }
}

/// Hypothesis-attempt period of a species of the given cognition:
/// brighter species try more often.
pub fn attempt_period_for_cognition(cognition: Real) -> (p: u64)
    ensures
        p == attempt_period_bits(cognition@),
{
    let cog = cognition.clamp01();
    proof {
        crate::arith::lemma_ratio_fits(15, 10);
        crate::transcendental::lemma_div_int_bound(int_bits(15), 10);
    }
    let factor = Real::from_ratio(15, 10).sub(cog);
    proof {
        assert(0 <= factor@ <= 2 * scale());
        assert(mul_ok(int_bits(20), factor@)) by (nonlinear_arith)
            requires 0 <= factor@ <= 2 * 4294967296;
    }
    let period_real = Real::from_int(20).mul(factor);
    let raw = period_real.to_i64_floor();
    let clamped = if raw > 5 { raw } else { 5 };
    clamped as u64
}

/// Attempt-period multiplier of a cognition topology: parallel sensing
/// shortens it to 0.7, acentric cognition stretches it to 5.
pub open spec fn topology_multiplier_ratio(t: CognitionTopology) -> (int, int) {
    match t {
        CognitionTopology::Centralized => (1, 1),
        CognitionTopology::DistributedRedundant => (7, 10),
        CognitionTopology::Collective => (1, 1),
        CognitionTopology::Acentric => (5, 1),
    }
}

/// The attempt-period multiplier of a cognition topology.
pub fn attempt_period_multiplier(topology: CognitionTopology) -> (r: Real)
    ensures
        r@ == ratio_bits(topology_multiplier_ratio(topology).0, topology_multiplier_ratio(topology).1),
        0 <= r@ <= 5 * scale(),
{
    let r = match topology {
        CognitionTopology::Centralized => Real::from_ratio(1, 1),
        CognitionTopology::DistributedRedundant => Real::from_ratio(7, 10),
        CognitionTopology::Collective => Real::from_ratio(1, 1),
        CognitionTopology::Acentric => Real::from_ratio(5, 1),
    };
    proof {
        let (n, d) = topology_multiplier_ratio(topology);
        crate::transcendental::lemma_div_int_bound(int_bits(n), d);
    }
    r
}

/// `max(⌊base × multiplier⌋, 5)`.
pub open spec fn topology_period_bits(base: int, t: CognitionTopology) -> int {
    let m = ratio_bits(topology_multiplier_ratio(t).0, topology_multiplier_ratio(t).1);
    let raw = whole_ticks(mul_bits(int_bits(base), m));
    if raw > 5 { raw } else { 5 }
}

/// The cognition-derived attempt period scaled by the species' cognition
/// topology.
pub fn attempt_period_for_cognition_and_topology(cognition: Real, topology: CognitionTopology) -> (p: u64)
    ensures
        p == topology_period_bits(attempt_period_bits(cognition@), topology),
{
    let base = attempt_period_for_cognition(cognition);
    proof {
        assert(base <= 40) by {
            let f = ratio_bits(15, 10) - clamp01_bits(cognition@);
            crate::arith::lemma_ratio_fits(15, 10);
            crate::transcendental::lemma_div_int_bound(int_bits(15), 10);
            crate::arith::lemma_ratio_value(15, 10);
            assert(f <= 2 * scale());
            assert(f >= 0);
            crate::transcendental::lemma_mul_bits_bound(int_bits(20), f);
            assert(mul_bits(int_bits(20), f) <= 40 * scale()) by (nonlinear_arith)
                requires 4294967296 * mul_bits(int_bits(20), f) <= int_bits(20) * f, 0 <= f <= 2 * 4294967296,
                    int_bits(20) == 20 * 4294967296;
        }
    }
    let m = attempt_period_multiplier(topology);
    proof {
        assert(mul_ok(int_bits(base as int), m@)) by (nonlinear_arith)
            requires 0 <= base <= 40, 0 <= m@ <= 5 * 4294967296;
    }
    let scaled = Real::from_int(base as i64).mul(m);
    let raw = scaled.to_i64_floor();
    let clamped = if raw > 5 { raw } else { 5 };
    clamped as u64
}

/// The metabolism the cadence formulas divide by: at least 0.01.
pub open spec fn floored_metabolism(m: int) -> int {
    max_bits(m, ratio_bits(1, 100))
}

/// Stretching `base` ticks by the metabolism is representable.
pub open spec fn stretch_ok(base: u64, metabolism: int) -> bool {
    int_ok(base as int) && div_ok(int_bits(base as int), floored_metabolism(metabolism))
}

/// `⌊base / max(metabolism, 0.01)⌋`.
pub open spec fn stretched_ticks(base: int, metabolism: int) -> int {
    whole_ticks(div_bits(int_bits(base), floored_metabolism(metabolism)))
}

/// Scale an attempt period by the planet's metabolism (slow substrates
/// stretch it), never below 5 ticks.
pub fn scale_attempt_period_for_metabolism(period: u64, metabolism: Real) -> (p: u64)
    requires
        stretch_ok(period, metabolism@),
    ensures
        p == (if stretched_ticks(period as int, metabolism@) > 5 {
            stretched_ticks(period as int, metabolism@)
        } else {
            5
        }),
{
    let m = metabolism.max(Real::percent(1));
    let raw = Real::from_int(period as i64).div(m).to_i64_floor();
    let clamped = if raw > 5 { raw } else { 5 };
    clamped as u64
}

/// Stretch a streak, cooldown or window of `base` ticks by the planet's
/// metabolism, never below one tick.
pub fn streak_ticks_for_metabolism(base: u64, metabolism: Real) -> (p: u64)
    requires
        stretch_ok(base, metabolism@),
    ensures
        p == (if stretched_ticks(base as int, metabolism@) > 1 {
            stretched_ticks(base as int, metabolism@)
        } else {
            1
        }),
{
    let m = metabolism.max(Real::percent(1));
    let raw = Real::from_int(base as i64).div(m).to_i64_floor();
    let clamped = if raw > 1 { raw } else { 1 };
    clamped as u64
}

/// Stretching a short window (at most 2^20 ticks) never overflows.
pub proof fn lemma_short_stretch_ok(base: u64, metabolism: int)
    requires
        base <= 0x10_0000,
    ensures
        stretch_ok(base, metabolism),
{
    let m = floored_metabolism(metabolism);
    lemma_ratio_unit(1, 100);
    crate::arith::lemma_ratio_value(1, 100);
    assert(ratio_bits(1, 100) >= 42949672);
    assert(m >= 42949672);
    let n = int_bits(base as int) * scale();
    assert(0 <= n <= 0x10_0000 * scale() * scale()) by (nonlinear_arith)
        requires n == base * 4294967296 * 4294967296, base <= 0x10_0000;
    vstd::arithmetic::div_mod::lemma_div_is_ordered_by_denominator(n, 42949672, m);
    vstd::arithmetic::div_mod::lemma_div_is_ordered(n, 0x10_0000 * scale() * scale(), 42949672);
    vstd::arithmetic::div_mod::lemma_div_pos_is_pos(n, m);
}

} // verus!
