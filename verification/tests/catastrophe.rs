use ages::arith::Real;
use ages::catastrophe::cells::{deterministic_cell_pick, densest_claimed_cell, hex_neighbors, CellPopulation};
use ages::capacity::carrying_capacity;
use ages::catastrophe::damage::{
    apply_resistance_and_dormancy, cooldown_ready, disease_raw_fraction, dispatch_catastrophe, flare_amplification,
    SeedBank,
};
use ages::catastrophe::triggers::{asteroid_fires, ice_age_fires, solar_flare_fires};
use ages::catastrophe::volcanic::{try_volcanic, CatastropheClock};
use ages::cosmology::Cosmology;
use ages::world::{Magnetosphere, SpectralType};
use ages::catastrophe::factors::{disease_severity_factor, ice_age_severity_factor, volcanic_cooldown_factor};
use ages::catastrophe::kind::CatastropheKind;
use ages::catastrophe::triggers::{disease_fires, erupt_cell, volcanic_fires, DISEASE_AGE_FLOOR_TICKS};
use ages::discovery::channels::PhysicsView;
use ages::world::{BiosphereClass, Crust};

fn flat_state(n: usize) -> PhysicsView {
    let zeros = vec![Real::zero(); n];
    PhysicsView {
        temperature: zeros.clone(),
        water_depth: zeros.clone(),
        charge: zeros.clone(),
        elevation: zeros.clone(),
        fuel: zeros.clone(),
        oxidiser: zeros.clone(),
        vapour: zeros.clone(),
        ice: zeros.clone(),
        fossil: zeros.clone(),
        magnetic_magnitude: zeros,
        neighbours: vec![vec![]; n],
    }
}

#[test]
fn kind_tags_are_stable() {
    assert_eq!(CatastropheKind::Volcanic.tag(), "volcanic");
    assert_eq!(CatastropheKind::Disease.tag(), "disease");
    assert_eq!(CatastropheKind::Asteroid.tag(), "asteroid");
    assert_eq!(CatastropheKind::SolarFlare.tag(), "solar_flare");
    assert_eq!(CatastropheKind::IceAge.tag(), "ice_age");
}

#[test]
fn volcanic_trigger_needs_charge_and_heat() {
    let mut state = flat_state(4);
    assert_eq!(volcanic_fires(&state), None);
    state.charge[2] = Real::from_int(120);
    state.temperature[2] = Real::from_int(700);
    assert_eq!(volcanic_fires(&state), Some(2));
    state.charge[1] = Real::from_int(-90);
    state.temperature[1] = Real::from_int(650);
    assert_eq!(volcanic_fires(&state), Some(1));
    state.charge[1] = Real::from_int(80);
    assert_eq!(volcanic_fires(&state), Some(2));
}

#[test]
fn cooldown_gate() {
    assert!(cooldown_ready(None, 0, 500));
    assert!(!cooldown_ready(Some(0), 250, 500));
    assert!(cooldown_ready(Some(0), 550, 500));
    assert!(cooldown_ready(Some(100), 600, 500));
    assert!(!cooldown_ready(Some(700), 600, 500));
}

#[test]
fn disease_needs_age_and_crowding() {
    let cap = Real::from_int(50);
    let pop = Real::from_int(50);
    assert!(disease_fires(cap, pop, 0, DISEASE_AGE_FLOOR_TICKS, Real::one()));
    assert!(!disease_fires(cap, pop, 0, DISEASE_AGE_FLOOR_TICKS - 1, Real::one()));
    assert!(!disease_fires(cap, Real::from_int(10), 0, DISEASE_AGE_FLOOR_TICKS, Real::one()));
    assert!(!disease_fires(Real::zero(), pop, 0, DISEASE_AGE_FLOOR_TICKS, Real::one()));
}

#[test]
fn dormancy_cuts_damage_tenfold_and_seeds_the_bank() {
    let mut hw = Real::zero();
    let mut bank = SeedBank { population: Real::zero(), entered_tick: 0 };
    let pop = Real::from_int(1_000);
    let full = apply_resistance_and_dormancy(Real::percent(50), Real::zero(), Real::zero(), pop, &mut hw, &mut bank, 7);
    assert_eq!(full, Real::percent(50));
    assert_eq!(bank.population, Real::zero());
    assert_eq!(hw, pop);
    let dormant = apply_resistance_and_dormancy(Real::percent(50), Real::zero(), Real::percent(90), pop, &mut hw, &mut bank, 9);
    let ratio = dormant.div(full);
    assert!(ratio <= Real::percent(11) && ratio >= Real::percent(9), "ratio {ratio:?}");
    assert!(bank.population > Real::from_int(440) && bank.population < Real::from_int(460));
    assert_eq!(bank.entered_tick, 9);
    let spared = apply_resistance_and_dormancy(Real::percent(50), Real::one(), Real::zero(), pop, &mut hw, &mut bank, 11);
    assert_eq!(spared, Real::zero());
}

#[test]
fn dispatch_follows_the_fixed_order() {
    assert_eq!(dispatch_catastrophe(false, [true; 5]), None);
    assert_eq!(dispatch_catastrophe(true, [false; 5]), None);
    assert_eq!(dispatch_catastrophe(true, [false, true, true, false, false]), Some(CatastropheKind::Disease));
    assert_eq!(dispatch_catastrophe(true, [false, false, false, false, true]), Some(CatastropheKind::IceAge));
    assert_eq!(dispatch_catastrophe(true, [true, true, true, true, true]), Some(CatastropheKind::Volcanic));
}

#[test]
fn factors_by_class() {
    assert_eq!(disease_severity_factor(BiosphereClass::Barren), Real::percent(20));
    assert_eq!(disease_severity_factor(BiosphereClass::Sparse), Real::percent(60));
    assert_eq!(volcanic_cooldown_factor(Crust::Basaltic), Real::percent(100));
    assert_eq!(volcanic_cooldown_factor(Crust::Hydrocarbon), Real::percent(80));
    assert!(ice_age_severity_factor(Real::from_int(300)) <= ice_age_severity_factor(Real::from_int(200)));
    assert_eq!(flare_amplification(Real::zero()), Real::from_ratio(2, 10));
    assert_eq!(flare_amplification(Real::from_int(9)), Real::from_int(5));
    assert_eq!(flare_amplification(Real::from_int(2)), Real::from_int(2));
}

#[test]
fn hex_neighbours_wrap_on_the_torus() {
    assert_eq!(hex_neighbors(5, 4, 4), vec![6, 2, 1, 4, 8, 9]);
    assert_eq!(hex_neighbors(0, 4, 4), vec![1, 13, 12, 3, 7, 4]);
    assert!(hex_neighbors(0, 0, 4).is_empty());
}

#[test]
fn cell_picks() {
    let cells = vec![
        CellPopulation { cell: 7, total: Real::from_int(50) },
        CellPopulation { cell: 11, total: Real::from_int(80) },
        CellPopulation { cell: 3, total: Real::from_int(20) },
    ];
    assert_eq!(densest_claimed_cell(&cells), Some(11));
    assert_eq!(densest_claimed_cell(&vec![]), None);
    assert_eq!(deterministic_cell_pick(&vec![], 1, 5), None);
    let claimed = vec![3, 7, 11];
    let a = deterministic_cell_pick(&claimed, 1, 5);
    assert!(a.is_some() && claimed.contains(&a.unwrap()));
    assert_eq!(a, deterministic_cell_pick(&claimed, 1, 5));
}

#[test]
fn eruption_burns_fuel_and_cools_the_cell() {
    let mut state = flat_state(3);
    state.fuel[1] = Real::from_int(9);
    state.temperature[1] = Real::from_int(700);
    state.temperature[2] = Real::from_int(30);
    erupt_cell(&mut state, 1);
    assert_eq!(state.fuel[1], Real::zero());
    assert_eq!(state.temperature[1], Real::from_int(650));
    erupt_cell(&mut state, 2);
    assert_eq!(state.temperature[2], Real::zero());
}

fn well_fed_state() -> PhysicsView {
    let mut s = flat_state(16);
    s.fuel = vec![Real::from_int(10); 16];
    s
}

fn fresh_clock() -> CatastropheClock {
    CatastropheClock {
        last_volcanic_tick: None,
        last_disease_tick: None,
        last_asteroid_tick: None,
        last_solar_flare_tick: None,
        last_ice_age_tick: None,
        last_catastrophe_tick: None,
    }
}

fn fresh_bank() -> SeedBank {
    SeedBank { population: Real::zero(), entered_tick: 0 }
}

/// The earth-like test planet's remaining triggers at `tick` for a civ
/// founded at 0 with `population` against `capacity`: disease, asteroid,
/// solar flare (strong magnetosphere), ice age (288 K).
fn other_triggers(capacity: Real, population: Real, tick: u64) -> [bool; 4] {
    [
        disease_fires(capacity, population, 0, tick, Real::one()),
        asteroid_fires(Real::one(), tick),
        solar_flare_fires(Magnetosphere::Strong, Real::from_int(1361), SpectralType::G, Real::one(), tick),
        ice_age_fires(Real::from_int(288), Real::one(), 0, tick),
    ]
}

fn legacy_capacity(producer_biomass: Real) -> Real {
    carrying_capacity(Real::from_int(50_000), producer_biomass, 0, 16, Real::one(), Real::one())
}

#[test]
fn volcanic_fires_on_extreme_signature() {
    let mut state = well_fed_state();
    state.charge[0] = Real::from_int(120);
    state.temperature[0] = Real::from_int(700);
    let mut clock = fresh_clock();
    let cell = try_volcanic(&mut clock, &mut state, Crust::Basaltic, Real::one(), 50);
    assert_eq!(cell, Some(0));
    assert_eq!(dispatch_catastrophe(true, [true, false, false, false, false]), Some(CatastropheKind::Volcanic));
    assert_eq!(state.fuel[0], Real::zero());
    assert!(state.temperature[0] < Real::from_int(700));
    let pop = Real::from_int(100);
    let mut hw = Real::zero();
    let mut bank = fresh_bank();
    let frac = apply_resistance_and_dormancy(Real::from_ratio(5, 100), Real::zero(), Real::zero(), pop, &mut hw, &mut bank, 50);
    assert!(pop.mul(Real::one().sub(frac)) < Real::from_int(100));
    assert_eq!(clock.last_volcanic_tick, Some(50));
    assert_eq!(clock.last_catastrophe_tick, Some(50));
}

#[test]
fn volcanic_respects_cooldown() {
    let cooldown_ticks: u64 = 200 * 12;
    let mut state = well_fed_state();
    state.charge[0] = Real::from_int(120);
    state.temperature[0] = Real::from_int(700);
    let mut clock = fresh_clock();
    try_volcanic(&mut clock, &mut state, Crust::Basaltic, Real::one(), 0);
    state.charge[0] = Real::from_int(120);
    state.temperature[0] = Real::from_int(700);
    let r = try_volcanic(&mut clock, &mut state, Crust::Basaltic, Real::one(), cooldown_ticks / 2);
    assert!(r.is_none());
    state.charge[0] = Real::from_int(120);
    state.temperature[0] = Real::from_int(700);
    let r = try_volcanic(&mut clock, &mut state, Crust::Basaltic, Real::one(), cooldown_ticks + 50);
    assert!(r.is_some());
}

#[test]
fn no_catastrophe_on_quiet_state() {
    let mut state = well_fed_state();
    let mut clock = fresh_clock();
    let volcanic = try_volcanic(&mut clock, &mut state, Crust::Basaltic, Real::one(), 100).is_some();
    let [d, a, f, i] = other_triggers(legacy_capacity(Real::one()), Real::from_int(50), 100);
    assert_eq!(dispatch_catastrophe(true, [volcanic, d, a, f, i]), None);
}

#[test]
fn disease_fires_under_crowding_after_age_floor() {
    let mut state = flat_state(16);
    state.fuel[0] = Real::from_ratio(1, 1000);
    let mut clock = fresh_clock();
    let volcanic = try_volcanic(&mut clock, &mut state, Crust::Basaltic, Real::one(), DISEASE_AGE_FLOOR_TICKS).is_some();
    let pop = Real::from_int(50);
    let [d, a, f, i] = other_triggers(legacy_capacity(Real::from_ratio(1, 1000)), pop, DISEASE_AGE_FLOOR_TICKS);
    assert_eq!(dispatch_catastrophe(true, [volcanic, d, a, f, i]), Some(CatastropheKind::Disease));
    let raw = disease_raw_fraction(disease_severity_factor(BiosphereClass::Lush));
    let mut hw = Real::zero();
    let mut bank = fresh_bank();
    let frac = apply_resistance_and_dormancy(raw, Real::zero(), Real::zero(), pop, &mut hw, &mut bank, DISEASE_AGE_FLOOR_TICKS);
    assert!(pop.mul(Real::one().sub(frac)).max(Real::from_int(10)) < Real::from_int(50));
    // Cosmology pivots toward communitarian and mystical.
    let mut cosmology = Cosmology::neutral();
    let plague = Cosmology {
        empirical: Real::zero(),
        communitarian: Real::percent(15),
        reformist: Real::percent(5).neg(),
        mystical: Real::percent(15),
        hierarchical: Real::percent(5),
    };
    cosmology.push(&plague, Real::one());
    assert!(cosmology.mystical > Real::zero());
}

#[test]
fn disease_blocked_before_age_floor() {
    let mut state = flat_state(16);
    state.fuel[0] = Real::from_ratio(1, 1000);
    let tick = DISEASE_AGE_FLOOR_TICKS - 1;
    let mut clock = fresh_clock();
    let volcanic = try_volcanic(&mut clock, &mut state, Crust::Basaltic, Real::one(), tick).is_some();
    let [d, a, f, i] = other_triggers(legacy_capacity(Real::from_ratio(1, 1000)), Real::from_int(50), tick);
    assert_eq!(dispatch_catastrophe(true, [volcanic, d, a, f, i]), None);
}

#[test]
fn tolerance_match_score_zero_means_full_damage() {
    let raw = Real::percent(40);
    let mut hw = Real::zero();
    let mut bank = fresh_bank();
    let out = apply_resistance_and_dormancy(raw, Real::zero(), Real::zero(), Real::from_int(100), &mut hw, &mut bank, 0);
    assert_eq!(out, raw);
}

#[test]
fn tolerance_match_score_one_means_no_damage() {
    let raw = Real::percent(40);
    let mut hw = Real::zero();
    let mut bank = fresh_bank();
    let out = apply_resistance_and_dormancy(raw, Real::one(), Real::zero(), Real::from_int(100), &mut hw, &mut bank, 0);
    assert_eq!(out, Real::zero());
}

#[test]
fn dormant_species_survives_catastrophe_at_reduced_rate() {
    let pop = Real::from_int(50);
    let raw = disease_raw_fraction(disease_severity_factor(BiosphereClass::Lush));
    let mut hw = Real::zero();
    let mut bank = fresh_bank();
    let low = apply_resistance_and_dormancy(raw, Real::zero(), Real::zero(), pop, &mut hw, &mut bank, DISEASE_AGE_FLOOR_TICKS);
    let mut hw2 = Real::zero();
    let mut bank2 = fresh_bank();
    let high = apply_resistance_and_dormancy(raw, Real::zero(), Real::percent(90), pop, &mut hw2, &mut bank2, DISEASE_AGE_FLOOR_TICKS);
    let ratio = high.div(low);
    assert!(ratio <= Real::percent(11) && ratio >= Real::percent(9), "ratio {ratio:?}");
}

#[test]
fn catastrophe_seeds_dormant_pool_for_tardigrade_species() {
    let pop = Real::from_int(1_000_000);
    let raw = disease_raw_fraction(disease_severity_factor(BiosphereClass::Lush));
    let mut hw = Real::zero();
    let mut bank = fresh_bank();
    apply_resistance_and_dormancy(raw, Real::zero(), Real::percent(90), pop, &mut hw, &mut bank, DISEASE_AGE_FLOOR_TICKS);
    assert!(bank.population > Real::zero());
    assert_eq!(bank.entered_tick, DISEASE_AGE_FLOOR_TICKS);
}

#[test]
fn hex_neighbours_are_symmetric_and_zero_width_is_empty() {
    assert!(hex_neighbors(5, 0, 3).is_empty());
    for cell in 0..20u32 {
        let ns = hex_neighbors(cell, 5, 4);
        assert_eq!(ns.len(), 6);
        for (k, n) in ns.iter().enumerate() {
            assert!(*n < 20);
            assert_eq!(hex_neighbors(*n, 5, 4)[(k + 3) % 6], cell);
        }
    }
}
