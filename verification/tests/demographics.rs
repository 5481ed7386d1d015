use ages::arith::Real;
use ages::demographics::{
    carrying_capacity_per_unit, founding_min_population, tech_augmented_migration_threshold,
    REFERENCE_PLANET_CELL_COUNT,
};
use ages::world::BiosphereClass;

fn absdiff(a: Real, b: Real) -> Real {
    if a > b { a.sub(b) } else { b.sub(a) }
}

#[test]
fn carrying_capacity_envelope_is_calibrated() {
    let ref_cells = REFERENCE_PLANET_CELL_COUNT;
    let max_cog = carrying_capacity_per_unit(Real::one(), ref_cells);
    let median_cog = carrying_capacity_per_unit(Real::from_ratio(5, 10), ref_cells);
    let no_cog = carrying_capacity_per_unit(Real::zero(), ref_cells);
    assert!(max_cog >= Real::from_int(2_800_000) && max_cog <= Real::from_int(2_950_000));
    assert!(median_cog >= Real::from_int(2_450_000) && median_cog <= Real::from_int(2_550_000));
    assert!(no_cog >= Real::from_int(2_080_000) && no_cog <= Real::from_int(2_170_000));
}

#[test]
fn carrying_capacity_scales_inverse_with_cell_count() {
    let ref_cells = REFERENCE_PLANET_CELL_COUNT;
    let half_cells = ref_cells / 2;
    let base = carrying_capacity_per_unit(Real::one(), ref_cells);
    let coarse = carrying_capacity_per_unit(Real::one(), half_cells);
    let ratio = coarse.div(base);
    assert!(ratio > Real::from_ratio(195, 100));
    assert!(ratio < Real::from_ratio(205, 100));
}

#[test]
fn tech_augmented_migration_threshold_envelopes() {
    let base = Real::percent(70);
    let t0 = tech_augmented_migration_threshold(base, Real::one());
    assert!(absdiff(t0, base) < Real::from_ratio(1, 1000));
    let t4 = tech_augmented_migration_threshold(base, Real::from_int(4));
    let expected4 = Real::from_ratio(77, 100);
    assert!(absdiff(t4, expected4) < Real::percent(1), "4× capacity → 0.70 × 1.10 = 0.77; got {t4:?}");
    let high_base = Real::percent(85);
    let t_high = tech_augmented_migration_threshold(high_base, Real::from_int(4));
    let ceiling = Real::percent(92);
    assert!(absdiff(t_high, ceiling) < Real::percent(1), "0.85 × 1.10 = 0.935 clamps to 0.92; got {t_high:?}");
    let low = tech_augmented_migration_threshold(base, Real::percent(50));
    assert!(low < base, "tools < 1× should pull threshold below base");
}

#[test]
fn founding_floor_envelope_is_calibrated() {
    let lush = founding_min_population(BiosphereClass::Lush, Real::one());
    let sparse = founding_min_population(BiosphereClass::Sparse, Real::from_ratio(5, 10));
    let none = founding_min_population(BiosphereClass::Barren, Real::zero());
    assert!(lush <= Real::from_int(80));
    assert!(sparse >= Real::from_int(80) && sparse <= Real::from_int(110));
    assert!(none >= Real::from_int(115));
}
