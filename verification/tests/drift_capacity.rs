use ages::capacity::aggregate_cohorts;
use ages::drift::{effective_communication_fidelity, effective_sociality};
use ages::arith::Real;
use ages::capacity::{
    carrying_capacity, carrying_capacity_with_terrain, cell_capacity, claimed_cell_fraction,
    seasonal_carrying_capacity, step_dormant_resurrection, CellOutlook, EcologyReading,
};
use ages::cohort::Cohort;
use ages::drift::{
    derive_drift_step, drift_seed, effective_trait, has_meaningful_drift, record_catastrophe_selection_bias,
};
use rand::Rng;
use rand_chacha::rand_core::SeedableRng;

#[test]
fn drift_seed_mixes_planet_civ_and_channel() {
    let expected = 7u64
        .wrapping_mul(0x9E37_79B9_7F4A_7C15)
        .wrapping_add(3)
        .wrapping_mul(0xBF58_476D_1CE4_E5B9)
        .wrapping_add(2);
    assert_eq!(drift_seed(7, 3, 2), expected);
    assert_ne!(drift_seed(7, 3, 2), drift_seed(7, 3, 1));
}

#[test]
fn drift_step_follows_the_chacha_draw() {
    let seed = drift_seed(42, 9, 0);
    let mut rng = rand_chacha::ChaCha20Rng::seed_from_u64(seed);
    let raw = rng.gen_range(0i64..2_000_000) - 1_000_000;
    let step = Real::from_ratio(5, 100);
    let expected = Real::from_ratio(raw, 1_000_000).mul(step);
    assert_eq!(derive_drift_step(42, 9, 0, step), expected);
    assert_eq!(derive_drift_step(42, 9, 0, step), derive_drift_step(42, 9, 0, step));
    for ch in 0..4u8 {
        let s = derive_drift_step(1234, 77, ch, step);
        assert!(s.abs() <= step);
    }
}

#[test]
fn effective_trait_clamps_to_unit() {
    assert_eq!(effective_trait(Real::from_ratio(9, 10), Real::from_ratio(3, 10)), Real::one());
    assert_eq!(effective_trait(Real::from_ratio(1, 10), Real::from_ratio(-3, 10)), Real::zero());
    assert_eq!(effective_trait(Real::from_ratio(1, 2), Real::zero()), Real::from_ratio(1, 2));
}

#[test]
fn claimed_fraction_of_the_grid() {
    assert_eq!(claimed_cell_fraction(0, 100), Real::one());
    assert_eq!(claimed_cell_fraction(5, 0), Real::one());
    assert_eq!(claimed_cell_fraction(25, 100), Real::from_ratio(1, 4));
}

#[test]
fn ecology_reading_tracks_producers() {
    let mut e = EcologyReading::new();
    assert_eq!(e.producer_biomass, Real::one());
    e.update_producer_biomass(Real::from_int(3));
    assert_eq!(e.producer_biomass, Real::from_int(3));
}

#[test]
fn resurrection_conserves_revived_population() {
    let mut cohorts = vec![Cohort::zero(), Cohort::zero(), Cohort::zero()];
    let mut aggregate = Cohort::zero();
    step_dormant_resurrection(&mut cohorts, &mut aggregate, Real::from_int(30));
    let sum = cohorts.iter().fold(Real::zero(), |a, c| a.add(c.fertile));
    assert_eq!(sum, Real::from_int(30));
    assert_eq!(aggregate.fertile, Real::from_int(30));
    let mut a = Cohort::zero();
    a.add_fertile(Real::from_int(10));
    let mut b = Cohort::zero();
    b.add_fertile(Real::from_int(20));
    let mut cohorts = vec![a, b];
    let mut aggregate = Cohort::zero();
    aggregate.add_fertile(Real::from_int(30));
    step_dormant_resurrection(&mut cohorts, &mut aggregate, Real::from_int(30));
    assert_eq!(cohorts[0].fertile.add(cohorts[1].fertile), Real::from_int(60));
    assert!(cohorts[0].fertile > Real::from_ratio(1999, 100) && cohorts[0].fertile <= Real::from_int(20));
    assert!(cohorts[1].fertile >= Real::from_int(40) && cohorts[1].fertile < Real::from_ratio(4001, 100));
    // The civ-level fertile bracket is re-summed from the cells.
    assert_eq!(aggregate.fertile, Real::from_int(60));
    assert_eq!(aggregate.infant, Real::zero());
}

use ages::drift::{
    caste_minimum, effective_cognition, effective_lifespan_years, inherit_species_drift,
    inherit_species_drift_with_environment, meets_collective_quorum, CasteRole, TraitDrift,
};
use ages::world::CognitionTopology;

fn castes(r: i64, w: i64, s: i64, n: i64) -> Option<[Real; 4]> {
    Some([Real::from_int(r), Real::from_int(w), Real::from_int(s), Real::from_int(n)])
}

#[test]
fn collective_civ_with_no_workers_fails_quorum() {
    let c = castes(10_000, 0, 20, 20);
    assert!(!meets_collective_quorum(c, Real::from_int(10_000)));
    let cog = effective_cognition(Real::from_ratio(8, 10), Real::zero(), CognitionTopology::Collective, c, Real::from_int(10_000));
    let expected = Real::from_ratio(8, 10).mul(Real::from_ratio(5, 100));
    assert_eq!(cog, expected, "no-Worker colony must drop to isolation_penalty cognition");
}

#[test]
fn collective_civ_with_balanced_castes_passes_quorum() {
    let c = castes(10, 60, 15, 15);
    assert!(meets_collective_quorum(c, Real::from_int(100)));
    let cog = effective_cognition(Real::from_ratio(8, 10), Real::zero(), CognitionTopology::Collective, c, Real::from_int(100));
    assert_eq!(cog, Real::from_ratio(8, 10));
}

#[test]
fn worker_caste_underflow_demotes_cognition() {
    let above = castes(10, 60, 15, 15);
    assert!(meets_collective_quorum(above, Real::from_int(100)));
    let base_cog = effective_cognition(Real::from_ratio(8, 10), Real::zero(), CognitionTopology::Collective, above, Real::from_int(100));
    assert_eq!(base_cog, Real::from_ratio(8, 10));
    let below = castes(10, 40, 15, 15);
    assert!(!meets_collective_quorum(below, Real::from_int(100)));
    let demoted = effective_cognition(Real::from_ratio(8, 10), Real::zero(), CognitionTopology::Collective, below, Real::from_int(100));
    assert_eq!(demoted, Real::from_ratio(8, 10).mul(Real::from_ratio(5, 100)));
    assert!(demoted < base_cog);
}

#[test]
fn any_single_caste_underflow_fails_quorum() {
    assert!(!meets_collective_quorum(castes(0, 60, 15, 15), Real::from_int(100)));
    assert!(!meets_collective_quorum(castes(10, 60, 0, 15), Real::from_int(100)));
    assert!(!meets_collective_quorum(castes(10, 60, 15, 0), Real::from_int(100)));
}

#[test]
fn non_eusocial_collective_uses_legacy_total_quorum() {
    assert!(meets_collective_quorum(None, Real::from_int(500)));
    assert!(!meets_collective_quorum(None, Real::from_int(10)));
    let cog = effective_cognition(Real::from_ratio(8, 10), Real::zero(), CognitionTopology::Centralized, None, Real::from_int(10));
    assert_eq!(cog, Real::from_ratio(8, 10));
}

#[test]
fn caste_minimums_follow_the_quorum_shares() {
    assert!(caste_minimum(CasteRole::Worker) > Real::from_ratio(4999, 100) && caste_minimum(CasteRole::Worker) <= Real::from_int(50));
    assert!(caste_minimum(CasteRole::Reproductive) <= Real::from_int(1));
    assert!(caste_minimum(CasteRole::Nurse) <= Real::from_int(10));
}

fn bias_from_one_disease() -> TraitDrift {
    TraitDrift {
        cognition: Real::from_ratio(24, 1000),
        sociality: Real::from_ratio(18, 1000),
        lifespan_years: Real::from_ratio(6, 10),
        communication_fidelity: Real::zero(),
    }
}

#[test]
fn inherit_species_drift_with_environment_folds_parent_bias() {
    let parent = TraitDrift::zero();
    let bias = bias_from_one_disease();
    let step = Real::from_ratio(2, 100);
    let env = Real::from_ratio(15, 10);
    let (child, child_bias) =
        inherit_species_drift_with_environment(&parent, &bias, 42, 2, step, Real::from_int(2), env);
    assert!(child.cognition > Real::from_int(-1).div(Real::from_int(100)));
    assert_eq!(child_bias, TraitDrift::zero());
    let expected = bias.cognition.add(ages::drift::derive_drift_step(42, 2, 0, step.mul(env)));
    assert_eq!(child.cognition, expected);
}

#[test]
fn drift_band_factor_narrows_silicate_random_step() {
    let parent = TraitDrift::zero();
    let none = TraitDrift::zero();
    let step = Real::from_ratio(2, 100);
    let (a, _) = inherit_species_drift_with_environment(&parent, &none, 42, 2, step, Real::from_int(2), Real::from_ratio(15, 10));
    let (b, _) = inherit_species_drift_with_environment(&parent, &none, 42, 2, step, Real::from_int(2), Real::from_ratio(3, 10));
    assert!(b.cognition.abs() < a.cognition.abs() || a.cognition == Real::zero());
}

#[test]
fn plain_inheritance_adds_one_step_per_channel() {
    let parent = TraitDrift {
        cognition: Real::from_ratio(1, 10),
        sociality: Real::zero(),
        lifespan_years: Real::from_int(3),
        communication_fidelity: Real::zero(),
    };
    let step = Real::from_ratio(2, 100);
    let life = Real::from_int(2);
    let d = inherit_species_drift(&parent, 7, 11, step, life);
    assert_eq!(d.cognition, parent.cognition.add(ages::drift::derive_drift_step(7, 11, 0, step)));
    assert_eq!(d.lifespan_years, parent.lifespan_years.add(ages::drift::derive_drift_step(7, 11, 2, life)));
    assert!(d.sociality.abs() <= step);
}

#[test]
fn effective_lifespan_is_stretched_and_clamped() {
    assert_eq!(effective_lifespan_years(Real::from_int(70), Real::from_int(10), Real::from_ratio(1, 2)), Real::from_int(120));
    assert_eq!(effective_lifespan_years(Real::from_int(900), Real::zero(), Real::one()), Real::from_int(1000));
    assert_eq!(effective_lifespan_years(Real::zero(), Real::zero(), Real::zero()), Real::one());
}

#[test]
fn carrying_capacity_scales_with_claimed_share() {
    // 1000 per unit × (biomass 2 × 25/100 claimed) × tech 2 × tools 1 = 1000.
    let cap = carrying_capacity(Real::from_int(1000), Real::from_int(2), 25, 100, Real::from_int(2), Real::one());
    assert_eq!(cap, Real::from_int(1000));
    // Without claims the whole producer pool counts.
    let full = carrying_capacity(Real::from_int(1000), Real::from_int(2), 0, 100, Real::from_int(2), Real::one());
    assert_eq!(full, Real::from_int(4000));
}

#[test]
fn terrain_weighting_sums_cell_habitability() {
    let hab = vec![Real::from_ratio(5, 4), Real::from_ratio(3, 4), Real::zero(), Real::one()];
    // weighted share = (1.25 + 0.75 + 0 + 1.0) / 8 = 0.375; 1000 × 0.375 = 375.
    let cap = carrying_capacity_with_terrain(Real::from_int(1000), Real::one(), &hab, 8, Real::one(), Real::one());
    assert_eq!(cap, Real::from_int(375));
    // No claims: falls back to the unweighted capacity.
    let none: Vec<Real> = Vec::new();
    let cap0 = carrying_capacity_with_terrain(Real::from_int(1000), Real::one(), &none, 10, Real::one(), Real::one());
    assert_eq!(cap0, Real::from_int(1000));
}

#[test]
fn cell_capacity_applies_season_and_terrain() {
    let cell = CellOutlook { seasonal_factor: Real::from_ratio(1, 2), habitability: Real::from_int(2) };
    // producer 8 over 4 cells = 2 per cell; × tech 1 × tools 1 × 0.5 × 2 = 2; × 100 = 200.
    let cap = cell_capacity(Real::from_int(100), Real::from_int(8), 4, Real::one(), Real::one(), cell);
    assert_eq!(cap, Real::from_int(200));
    assert_eq!(cell_capacity(Real::from_int(100), Real::from_int(8), 0, Real::one(), Real::one(), cell), Real::zero());
}

#[test]
fn seasonal_capacity_sums_the_claimed_cells() {
    let winter = CellOutlook { seasonal_factor: Real::from_ratio(1, 4), habitability: Real::one() };
    let summer = CellOutlook { seasonal_factor: Real::one(), habitability: Real::one() };
    let cells = vec![winter, summer];
    // 2 per cell × (0.25 + 1.0) × 100 = 250.
    let cap = seasonal_carrying_capacity(Real::from_int(100), Real::from_int(8), &cells, 4, Real::one(), Real::one());
    assert_eq!(cap, Real::from_int(250));
    let no_grid = seasonal_carrying_capacity(Real::from_int(100), Real::from_int(8), &cells, 0, Real::one(), Real::one());
    assert_eq!(no_grid, Real::zero());
    let unclaimed: Vec<CellOutlook> = Vec::new();
    let legacy = seasonal_carrying_capacity(Real::from_int(100), Real::from_int(8), &unclaimed, 4, Real::one(), Real::one());
    assert_eq!(legacy, Real::from_int(800));
}

fn disease_bias(fraction_lost: Real) -> TraitDrift {
    // A disease's per-kind selection weights: cognition 0.08, sociality
    // 0.06, lifespan 2 years, each scaled by the fraction lost.
    TraitDrift {
        cognition: Real::from_ratio(8, 100).mul(fraction_lost),
        sociality: Real::from_ratio(6, 100).mul(fraction_lost),
        lifespan_years: Real::from_int(2).mul(fraction_lost),
        communication_fidelity: Real::zero(),
    }
}

#[test]
fn record_catastrophe_selection_bias_accumulates_and_clamps() {
    let trait_ceiling = Real::percent(15);
    let life_ceiling = Real::from_int(10);
    let mut bias = TraitDrift::zero();
    assert_eq!(bias, TraitDrift::zero());
    record_catastrophe_selection_bias(&mut bias, disease_bias(Real::percent(30)), trait_ceiling, life_ceiling);
    assert!(bias.cognition > Real::zero());
    assert!(bias.sociality > Real::zero());
    for _ in 0..20 {
        record_catastrophe_selection_bias(&mut bias, disease_bias(Real::one()), trait_ceiling, life_ceiling);
    }
    assert!(bias.cognition <= trait_ceiling);
    assert!(bias.lifespan_years <= life_ceiling);
    assert_eq!(bias.cognition, trait_ceiling);
    assert_eq!(bias.lifespan_years, life_ceiling);
}

#[test]
fn selection_bias_is_capped_from_below_too() {
    let mut bias = TraitDrift::zero();
    let pull = TraitDrift {
        cognition: Real::from_int(-1),
        sociality: Real::zero(),
        lifespan_years: Real::from_int(-50),
        communication_fidelity: Real::from_ratio(1, 100),
    };
    record_catastrophe_selection_bias(&mut bias, pull, Real::percent(15), Real::from_int(10));
    assert_eq!(bias.cognition, Real::percent(15).neg());
    assert_eq!(bias.lifespan_years, Real::from_int(-10));
    assert_eq!(bias.communication_fidelity, Real::from_ratio(1, 100));
    assert_eq!(bias.sociality, Real::zero());
}

#[test]
fn meaningful_drift_needs_half_a_step() {
    // Steps of 2/100 on the traits and 2 years on the lifespan.
    let none = TraitDrift::zero();
    assert!(!has_meaningful_drift(&none, 2, 100, 2));
    let mut small = TraitDrift::zero();
    small.cognition = Real::from_ratio(9, 1000);
    small.lifespan_years = Real::from_ratio(-9, 10);
    assert!(!has_meaningful_drift(&small, 2, 100, 2));
    let mut half = TraitDrift::zero();
    half.sociality = Real::from_ratio(-1, 100);
    assert!(has_meaningful_drift(&half, 2, 100, 2));
    let mut life = TraitDrift::zero();
    life.lifespan_years = Real::one();
    assert!(has_meaningful_drift(&life, 2, 100, 2));
}

#[test]
fn aggregate_cohorts_resums_each_bracket() {
    let a = Cohort { infant: Real::from_int(1), juvenile: Real::from_int(2), fertile: Real::from_int(3), elder: Real::from_int(4) };
    let b = Cohort { infant: Real::from_int(10), juvenile: Real::from_int(20), fertile: Real::from_int(30), elder: Real::from_int(40) };
    let agg = aggregate_cohorts(&vec![a, b]);
    assert_eq!(agg.infant, Real::from_int(11));
    assert_eq!(agg.juvenile, Real::from_int(22));
    assert_eq!(agg.fertile, Real::from_int(33));
    assert_eq!(agg.elder, Real::from_int(44));
    assert_eq!(aggregate_cohorts(&vec![]), Cohort::zero());
}

#[test]
fn effective_sociality_and_fidelity_clamp_to_unit() {
    assert_eq!(effective_sociality(Real::from_ratio(1, 2), Real::from_ratio(1, 4)), Real::from_ratio(3, 4));
    assert_eq!(effective_sociality(Real::from_ratio(9, 10), Real::from_ratio(1, 2)), Real::one());
    assert_eq!(effective_communication_fidelity(Real::from_ratio(1, 10), Real::from_ratio(-1, 2)), Real::zero());
}
