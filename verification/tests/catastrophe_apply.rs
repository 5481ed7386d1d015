use ages::arith::Real;
use ages::catastrophe::apply::{
    check_and_apply, try_asteroid, try_disease, try_ice_age, try_solar_flare, CatastropheCiv, CatastrophePlanet,
    CellConditions,
};
use ages::catastrophe::cells::CellPopulation;
use ages::catastrophe::damage::SeedBank;
use ages::catastrophe::kind::CatastropheKind;
use ages::catastrophe::spread::apply_to_cell_and_neighbors;
use ages::catastrophe::triggers::DISEASE_AGE_FLOOR_TICKS;
use ages::catastrophe::volcanic::CatastropheClock;
use ages::cosmology::Cosmology;
use ages::discovery::channels::PhysicsView;
use ages::world::{BiosphereClass, Crust, Magnetosphere, SpectralType};

const W: u32 = 4;
const H: u32 = 4;

fn flat_state() -> PhysicsView {
    let zeros = vec![Real::zero(); 16];
    PhysicsView {
        temperature: vec![Real::from_int(300); 16],
        water_depth: zeros.clone(),
        charge: zeros.clone(),
        elevation: zeros.clone(),
        fuel: vec![Real::from_int(10); 16],
        oxidiser: zeros.clone(),
        vapour: zeros.clone(),
        ice: zeros.clone(),
        fossil: zeros.clone(),
        magnetic_magnitude: zeros,
        neighbours: vec![vec![]; 16],
    }
}

fn pressure() -> Vec<Real> {
    vec![Real::from_int(101_325); 16]
}

fn clock() -> CatastropheClock {
    CatastropheClock {
        last_volcanic_tick: None,
        last_disease_tick: None,
        last_asteroid_tick: None,
        last_solar_flare_tick: None,
        last_ice_age_tick: None,
        last_catastrophe_tick: None,
    }
}

fn civ(population: i64) -> CatastropheCiv {
    CatastropheCiv {
        id: 1,
        active: true,
        founded_tick: 0,
        clock: clock(),
        cells: Vec::new(),
        claimed: Vec::new(),
        population: Real::from_int(population),
        high_water: Real::zero(),
        seed_bank: SeedBank { population: Real::zero(), entered_tick: 0 },
        cosmology: Cosmology::neutral(),
        dormancy: Real::zero(),
    }
}

fn earth() -> CatastrophePlanet {
    CatastrophePlanet {
        radius: Real::one(),
        mean_temperature: Real::from_int(288),
        surface_pressure: Real::from_int(101_325),
        crust: Crust::Basaltic,
        biosphere: BiosphereClass::Lush,
        magnetosphere: Magnetosphere::Strong,
        stellar_luminosity: Real::from_int(1361),
        spectral_type: SpectralType::G,
        metabolism: Real::one(),
    }
}

fn flare_planet() -> CatastrophePlanet {
    let mut p = earth();
    p.magnetosphere = Magnetosphere::Weak;
    p.stellar_luminosity = Real::from_int(1500);
    p
}

fn no_tools(x: Real) -> Real {
    x
}

fn no_fit(_c: CellConditions) -> Real {
    Real::zero()
}

/// An envelope that scores only the radiation axis, falling linearly to
/// zero at `radiation_max`.
fn radiation_fit(radiation_max: Real) -> impl Fn(CellConditions) -> Real {
    move |c: CellConditions| {
        let rad = c.3;
        if rad.to_bits() >= radiation_max.to_bits() {
            Real::zero()
        } else {
            Real::one().sub(rad.div(radiation_max))
        }
    }
}

fn cell(c: u32, total: i64) -> CellPopulation {
    CellPopulation { cell: c, total: Real::from_int(total) }
}

#[test]
fn strike_hits_centre_and_claimed_neighbours() {
    // On a 4×4 torus the neighbours of cell 5 are 6, 2, 1, 4, 8, 9.
    let mut cells = vec![cell(0, 100), cell(5, 100), cell(6, 100), cell(9, 100)];
    let claimed = vec![0, 5, 6];
    let lost = apply_to_cell_and_neighbors(&mut cells, &claimed, W, H, 5, Real::from_ratio(1, 2), Real::from_ratio(1, 4), true);
    assert_eq!(lost, Real::from_int(75));
    assert_eq!(cells, vec![cell(0, 100), cell(5, 50), cell(6, 75), cell(9, 100)]);
    // Without the claim filter every held neighbour is struck.
    let mut cells = vec![cell(0, 100), cell(5, 100), cell(6, 100), cell(9, 100)];
    let lost = apply_to_cell_and_neighbors(&mut cells, &claimed, W, H, 5, Real::from_ratio(1, 2), Real::from_ratio(1, 4), false);
    assert_eq!(lost, Real::from_int(100));
    assert_eq!(cells, vec![cell(0, 100), cell(5, 50), cell(6, 75), cell(9, 75)]);
}

#[test]
fn no_catastrophe_for_an_inactive_civ() {
    let mut c = civ(50);
    c.active = false;
    let mut state = flat_state();
    state.charge[0] = Real::from_int(120);
    state.temperature[0] = Real::from_int(700);
    let r = check_and_apply(&mut c, &mut state, &pressure(), &earth(), Real::from_int(50), Real::one(), DISEASE_AGE_FLOOR_TICKS, W, H, &no_tools, &no_fit);
    assert!(r.is_none());
    assert_eq!(state.fuel[0], Real::from_int(10));
}

#[test]
fn volcanic_wins_the_tick_over_disease() {
    let mut c = civ(50);
    let mut state = flat_state();
    state.charge[3] = Real::from_int(120);
    state.temperature[3] = Real::from_int(700);
    let r = check_and_apply(&mut c, &mut state, &pressure(), &earth(), Real::from_int(50), Real::one(), DISEASE_AGE_FLOOR_TICKS, W, H, &no_tools, &no_fit)
        .unwrap();
    assert_eq!(r.kind, CatastropheKind::Volcanic);
    assert_eq!(r.fraction_lost, Real::percent(5));
    assert_eq!(state.fuel[3], Real::zero());
    assert_eq!(state.temperature[3], Real::from_int(650));
    assert_eq!(c.clock.last_volcanic_tick, Some(DISEASE_AGE_FLOOR_TICKS));
    assert_eq!(c.clock.last_disease_tick, None);
    // No cells: the civ as a whole takes the loss.
    assert!(c.population < Real::from_int(50));
    // The next tick volcanic is on cooldown and disease strikes.
    let r2 = check_and_apply(&mut c, &mut state, &pressure(), &earth(), Real::from_int(40), Real::one(), DISEASE_AGE_FLOOR_TICKS + 1, W, H, &no_tools, &no_fit)
        .unwrap();
    assert_eq!(r2.kind, CatastropheKind::Disease);
}

#[test]
fn disease_strikes_the_densest_cell_and_pivots_cosmology() {
    let mut c = civ(300);
    c.cells = vec![cell(1, 50), cell(5, 200), cell(6, 50)];
    c.claimed = vec![1, 5, 6];
    let r = try_disease(&mut c, &flat_state(), &pressure(), &earth(), Real::from_int(300), DISEASE_AGE_FLOOR_TICKS, W, H, &no_tools, &no_fit)
        .unwrap();
    assert_eq!(r.kind, CatastropheKind::Disease);
    // Lush severity 1.0: a 30% loss, doubled on the densest cell.
    let frac = r.fraction_lost;
    assert!(frac > Real::percent(29) && frac <= Real::percent(30));
    assert!(c.cells[1].total < Real::from_int(200).mul(Real::one().sub(frac)));
    assert!(c.cells[0].total < Real::from_int(50) && c.cells[2].total < Real::from_int(50));
    assert!(c.cosmology.mystical > Real::zero() && c.cosmology.communitarian > Real::zero());
    assert_eq!(c.clock.last_disease_tick, Some(DISEASE_AGE_FLOOR_TICKS));
    // Before the age floor nothing happens.
    let mut young = civ(300);
    let before = young.clone();
    assert!(try_disease(&mut young, &flat_state(), &pressure(), &earth(), Real::from_int(300), DISEASE_AGE_FLOOR_TICKS - 1, W, H, &no_tools, &no_fit).is_none());
    assert_eq!(young.population, before.population);
}

#[test]
fn extremophile_species_survives_solar_flare_better_than_aqueous() {
    let tick = 1567 * 12;
    let mut aq = civ(1_000_000);
    let r_aq = try_solar_flare(&mut aq, &flat_state(), &pressure(), &flare_planet(), Real::one(), tick, W, H, &no_tools, &radiation_fit(Real::from_ratio(1, 2)))
        .unwrap();
    let mut ex = civ(1_000_000);
    let r_ex = try_solar_flare(&mut ex, &flat_state(), &pressure(), &flare_planet(), Real::one(), tick, W, H, &no_tools, &radiation_fit(Real::from_int(20)))
        .unwrap();
    assert_eq!(r_aq.kind, CatastropheKind::SolarFlare);
    assert_eq!(r_ex.kind, CatastropheKind::SolarFlare);
    assert!(r_aq.fraction_lost >= r_ex.fraction_lost.mul(Real::from_int(3)));
    assert!(ex.population > aq.population);
}

#[test]
fn strong_magnetosphere_suppresses_flare_damage() {
    let tick = 1567 * 12;
    let aqueous = radiation_fit(Real::from_ratio(1, 2));
    let mut strong = civ(1_000_000);
    let r_strong = try_solar_flare(&mut strong, &flat_state(), &pressure(), &flare_planet(), Real::from_ratio(99, 1000), tick, W, H, &no_tools, &aqueous)
        .unwrap();
    let mut reversal = civ(1_000_000);
    let r_rev = try_solar_flare(&mut reversal, &flat_state(), &pressure(), &flare_planet(), Real::from_int(5), tick, W, H, &no_tools, &aqueous)
        .unwrap();
    assert!(r_strong.fraction_lost < r_rev.fraction_lost);
    assert!(strong.population > reversal.population);
}

#[test]
fn asteroid_hits_the_deterministic_impact_cell() {
    let tick = 4733 * 12;
    let mut c = civ(1000);
    c.cells = vec![cell(5, 400), cell(6, 400)];
    c.claimed = vec![5, 6];
    let r = try_asteroid(&mut c, &flat_state(), &pressure(), &earth(), tick, W, H, &no_tools, &no_fit).unwrap();
    assert_eq!(r.kind, CatastropheKind::Asteroid);
    let lost = Real::from_int(800).sub(c.cells[0].total.add(c.cells[1].total));
    assert_eq!(c.population, Real::from_int(1000).sub(lost));
    assert!(lost > Real::zero());
    assert_eq!(c.clock.last_asteroid_tick, Some(tick));
    // Too soon after: on cooldown.
    assert!(try_asteroid(&mut c, &flat_state(), &pressure(), &earth(), tick * 2, W, H, &no_tools, &no_fit).is_none());
}

#[test]
fn ice_age_strikes_cold_mature_civs() {
    let mut cold = earth();
    cold.mean_temperature = Real::from_int(240);
    let tick = 2917 * 12 * 2;
    let mut c = civ(1000);
    let r = try_ice_age(&mut c, &flat_state(), &pressure(), &cold, tick, W, H, &no_tools, &no_fit).unwrap();
    assert_eq!(r.kind, CatastropheKind::IceAge);
    assert!(c.population < Real::from_int(1000));
    assert!(c.cosmology.hierarchical > Real::zero());
    let mut warm = civ(1000);
    assert!(try_ice_age(&mut warm, &flat_state(), &pressure(), &earth(), tick, W, H, &no_tools, &no_fit).is_none());
}
