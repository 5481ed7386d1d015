//! The per-tick catastrophe handlers. Each kind is gated on its own
//! cooldown and firing predicate; when it strikes, its raw loss is
//! softened by the civ's tools and by how well the species' tolerance
//! envelope fits the struck cell, dormancy diverts part of the
//! would-be casualties into the seed bank, the realised loss is taken
//! from the cells (or from the civ as a whole when it holds none), the
//! civ's cosmology is pushed, and the kind's clock records the tick.
//! How the tools soften a loss and how well an envelope fits a cell are
//! supplied by the caller (`resist`, `tolerance`).

use crate::arith::{fits, int_bits, max_bits, min_bits, mul_bits, mul_ok, ratio_bits, scale, Real};
use crate::catastrophe::cells::{axial_row, densest_claimed_cell, deterministic_cell_pick, is_densest, pick_mix, CellPopulation};
use crate::catastrophe::damage::{
    after_dormancy_bits, apply_resistance_and_dormancy, base_loss_bits, catastrophe_cell_conditions,
    cell_conditions_bits, disease_raw_bits, disease_raw_fraction, flare_amplification, flare_amplification_bits,
    ice_age_raw_bits, ice_age_raw_fraction, off_cooldown, seeded_bits, SeedBank,
};
use crate::catastrophe::factors::disease_severity_pct;
use crate::catastrophe::kind::CatastropheKind;
use crate::catastrophe::spread::{apply_to_cell_and_neighbors, cells_ok, cells_sum, drop_around};
use crate::catastrophe::triggers::{
    asteroid_fires, disease_fires, disease_fires_spec, flare_base_period, ice_age_fires, scaled_period, solar_flare_fires,
};
use crate::catastrophe::volcanic::CatastropheClock;
use crate::cosmology::{push_axis, push_axis_ok, Cosmology};
use crate::demographics::{lemma_short_stretch_ok, streak_ticks_for_metabolism, stretched_ticks};
use crate::discovery::channels::PhysicsView;
use crate::world::{BiosphereClass, Crust, Magnetosphere, SpectralType};
use crate::transcendental::lemma_mul_bits_bound;
use vstd::prelude::*;

verus! {

/// What a struck cell shows a tolerance envelope:
/// `(temperature K, pH, salinity g/L, radiation, pressure atm)`.
pub type CellConditions = (Real, Real, Real, Real, Real);

/// What a catastrophe reports: its kind and the realised loss fraction.
#[derive(Debug, Clone, Copy, PartialEq, Eq, Structural)]
pub struct CatastropheRecord {
    pub kind: CatastropheKind,
    pub fraction_lost: Real,
}

/// The civ as the catastrophe handlers read and change it.
#[derive(Debug, Clone)]
pub struct CatastropheCiv {
    pub id: u32,
    pub active: bool,
    pub founded_tick: u64,
    pub clock: CatastropheClock,
    /// Head count per claimed cell (one entry per cell).
    pub cells: Vec<CellPopulation>,
    /// Claimed cells.
    pub claimed: Vec<u32>,
    /// Civ-level head count.
    pub population: Real,
    /// Largest civ-level head count seen at a catastrophe.
    pub high_water: Real,
    pub seed_bank: SeedBank,
    pub cosmology: Cosmology,
    /// The species' dormancy capability, in `[0, 1]`.
    pub dormancy: Real,
}

impl CatastropheCiv {
    /// Head counts are non-negative and sum to a representable value;
    /// the seed bank is non-negative; the cosmology and dormancy are in range; every cell lies on the grid.
    pub open spec fn wf(&self, width: u32, height: u32) -> bool {
        &&& cells_ok(self.cells@)
        &&& 0 <= self.population@
        &&& 0 <= self.seed_bank.population@
        &&& self.cosmology.wf()
        &&& 0 <= self.dormancy@ <= scale()
        &&& forall|i: int| 0 <= i < self.cells@.len() ==> (#[trigger] self.cells@[i]).cell < width * height
        &&& forall|i: int| 0 <= i < self.claimed@.len() ==> (#[trigger] self.claimed@[i]) < width * height
    }
}

/// The grid the civ lives on: `width × height` hex cells.
pub open spec fn grid_ok(width: u32, height: u32) -> bool {
    &&& 0 < width <= i32::MAX
    &&& 0 < height <= i32::MAX
    &&& width * height <= 0x1_0000_0000
}

/// `resist` softens a loss fraction: given a non-negative fraction it
/// returns one between zero and that fraction.
pub open spec fn resist_ok<R: Fn(Real) -> Real>(resist: R) -> bool {
    &&& forall|x: Real| #[trigger] call_requires(resist, (x,))
    &&& forall|x: Real, r: Real| x@ >= 0 && #[trigger] call_ensures(resist, (x,), r) ==> 0 <= r@ <= x@
}

/// `tolerance` scores how well the species' envelope fits a cell's
/// conditions, in `[0, 1]`.
pub open spec fn tolerance_ok<T: Fn(CellConditions) -> Real>(tolerance: T) -> bool {
    &&& forall|c: CellConditions| #[trigger] call_requires(tolerance, (c,))
    &&& forall|c: CellConditions, r: Real| #[trigger] call_ensures(tolerance, (c,), r) ==> 0 <= r@ <= scale()
}

/// The seed bank after a strike whose loss before dormancy is `base`.
pub open spec fn bank_after(bank: SeedBank, pop: int, base: int, dormancy: int, tick: u64) -> SeedBank {
    let seeded = seeded_bits(pop, base, dormancy);
    if mul_bits(dormancy, scale()) > 0 && pop > 0 && seeded > 0 {
        SeedBank { population: Real { bits: (bank.population@ + seeded) as i64 }, entered_tick: tick }
    } else {
        bank
    }
}

/// A civ-level head count shrunk toward `target` (never grown).
pub open spec fn shrink_bits(pop: int, target: int) -> int {
    if target < pop { target } else { pop }
}

/// The conditions tuple with the given bit patterns.
pub open spec fn conditions_of(s: (int, int, int, int, int)) -> CellConditions {
    (Real { bits: s.0 as i64 }, Real { bits: s.1 as i64 }, Real { bits: s.2 as i64 }, Real { bits: s.3 as i64 }, Real { bits: s.4 as i64 })
}

/// A per-cell reading, if the cell is in range.
pub open spec fn reading_of(v: Seq<Real>, cell: int) -> Option<Real> {
    if 0 <= cell < v.len() { Some(v[cell]) } else { None }
}

/// The densest claimed cell, if any.
pub open spec fn densest_of(cells: Seq<CellPopulation>) -> Option<u32> {
    if cells.len() == 0 {
        None
    } else {
        Some(cells[choose|i: int| is_densest(cells, i)].cell)
    }
}

proof fn lemma_densest_unique(cells: Seq<CellPopulation>, i: int)
    requires
        is_densest(cells, i),
    ensures
        densest_of(cells) == Some(cells[i].cell),
{
    let j = choose|j: int| is_densest(cells, j);
    if j < i {
        assert(cells[i].total@ < cells[j].total@);
    } else if i < j {
        assert(cells[j].total@ < cells[i].total@);
    }
}

/// The loss part of a strike: `frac` is the realised fraction for a tool-
/// softened loss `a` and envelope fit `s`; the high-water mark and seed
/// bank move as the dormancy stack moves them; nothing else of the civ
/// but its cells, head count, cosmology and clock changes.
pub open spec fn loss_taken(old: CatastropheCiv, new: CatastropheCiv, a: int, s: int, tick: u64, frac: int) -> bool {
    let base = base_loss_bits(a, s);
    &&& frac == after_dormancy_bits(base, old.dormancy@)
    &&& new.high_water@ == max_bits(old.population@, old.high_water@)
    &&& new.seed_bank == bank_after(old.seed_bank, old.population@, base, old.dormancy@, tick)
    &&& new.id == old.id
    &&& new.active == old.active
    &&& new.founded_tick == old.founded_tick
    &&& new.claimed@ == old.claimed@
    &&& new.dormancy == old.dormancy
}

/// How the loss lands: with an origin cell, a strike there with
/// `center_frac` and on its claimed neighbours with `neighbor_frac`,
/// the civ losing what the cells lost; without one, the civ-level head
/// count shrinks to `max(pop × (1 − frac), floor)` and the cells stay.
pub open spec fn spread_taken(
    old: CatastropheCiv,
    new: CatastropheCiv,
    origin: Option<u32>,
    center_frac: int,
    neighbor_frac: int,
    frac: int,
    floor: int,
    width: u32,
    height: u32,
) -> bool {
    match origin {
        Some(o) => {
            let (cs, lost) = drop_around(old.cells@, o, width, height, old.claimed@, true, center_frac, neighbor_frac);
            new.cells@ == cs && new.population@ == old.population@ - lost
        },
        None => new.cells@ == old.cells@ && new.population@ == shrink_bits(
            old.population@,
            max_bits(mul_bits(old.population@, scale() - frac), floor),
        ),
    }
}

/// Every axis of `c` pushed by `p` at full magnitude.
pub open spec fn pushed(c: Cosmology, p: Cosmology) -> (int, int, int, int, int) {
    (
        push_axis(c.empirical@, p.empirical@, scale()),
        push_axis(c.communitarian@, p.communitarian@, scale()),
        push_axis(c.reformist@, p.reformist@, scale()),
        push_axis(c.mystical@, p.mystical@, scale()),
        push_axis(c.hierarchical@, p.hierarchical@, scale()),
    )
}

/// The axes of a cosmology.
pub open spec fn axes(c: Cosmology) -> (int, int, int, int, int) {
    (c.empirical@, c.communitarian@, c.reformist@, c.mystical@, c.hierarchical@)
}

proof fn lemma_unit_push(a: int, p: int)
    requires
        -scale() <= a <= scale(),
        -scale() <= p <= scale(),
    ensures
        push_axis_ok(a, p, scale()),
{
    assert(mul_ok(p, scale())) by (nonlinear_arith)
        requires -4294967296 <= p <= 4294967296;
    vstd::arithmetic::div_mod::lemma_div_multiples_vanish(p, scale());
    assert(p * scale() == scale() * p) by (nonlinear_arith);
}

/// Push the civ's cosmology at full magnitude.
fn push_cosmology(c: &mut Cosmology, p: &Cosmology)
    requires
        old(c).wf(),
        p.wf(),
    ensures
        final(c).wf(),
        axes(*final(c)) == pushed(*old(c), *p),
{
    proof {
        lemma_unit_push(c.empirical@, p.empirical@);
        lemma_unit_push(c.communitarian@, p.communitarian@);
        lemma_unit_push(c.reformist@, p.reformist@);
        lemma_unit_push(c.mystical@, p.mystical@);
        lemma_unit_push(c.hierarchical@, p.hierarchical@);
    }
    c.push(p, Real::one());
}

/// The tool-softened, tolerance-weighted, dormancy-reduced loss of a
/// strike with raw fraction `raw` on a cell showing `conds`; moves the
/// high-water mark and seed bank.
fn realised_loss<R: Fn(Real) -> Real, T: Fn(CellConditions) -> Real>(
    civ: &mut CatastropheCiv,
    raw: Real,
    conds: CellConditions,
    tick: u64,
    resist: &R,
    tolerance: &T,
    width: u32,
    height: u32,
) -> (r: (Real, Ghost<int>, Ghost<int>))
    requires
        old(civ).wf(width, height),
        old(civ).seed_bank.population@ + old(civ).population@ <= i64::MAX,
        0 <= raw@ <= scale(),
        resist_ok(*resist),
        tolerance_ok(*tolerance),
    ensures
        call_ensures(*resist, (raw,), Real { bits: r.1@ as i64 }),
        call_ensures(*tolerance, (conds,), Real { bits: r.2@ as i64 }),
        0 <= r.1@ <= raw@,
        0 <= r.2@ <= scale(),
        loss_taken(*old(civ), *final(civ), r.1@, r.2@, tick, r.0@),
        0 <= r.0@ <= raw@,
        final(civ).cells@ == old(civ).cells@,
        final(civ).population == old(civ).population,
        final(civ).cosmology == old(civ).cosmology,
        final(civ).clock == old(civ).clock,
        final(civ).wf(width, height),
{
    let a = resist(raw);
    let s = tolerance(conds);
    proof {
        let base = base_loss_bits(a@, s@);
        lemma_mul_bits_bound(a@, scale() - s@);
        assert(a@ * (scale() - s@) <= a@ * scale()) by (nonlinear_arith)
            requires 0 <= a@, 0 <= s@ <= scale();
        assert(0 <= base <= a@) by (nonlinear_arith)
            requires scale() * base <= a@ * (scale() - s@), a@ * (scale() - s@) <= a@ * scale(), base >= 0, scale() > 0, base == base_loss_bits(a@, s@);
        crate::arith::lemma_mul_unit(civ.dormancy@, scale());
        let d = mul_bits(civ.dormancy@, scale());
        lemma_mul_bits_bound(base, scale() - d);
        assert(base * (scale() - d) <= base * scale()) by (nonlinear_arith)
            requires 0 <= base, 0 <= d <= scale();
        assert(0 <= after_dormancy_bits(base, civ.dormancy@) <= base) by (nonlinear_arith)
            requires scale() * after_dormancy_bits(base, civ.dormancy@) <= base * (scale() - d),
                base * (scale() - d) <= base * scale(), after_dormancy_bits(base, civ.dormancy@) >= 0, scale() > 0;
        let pop = civ.population@;
        assert(mul_ok(pop, base)) by (nonlinear_arith)
            requires 0 <= pop <= i64::MAX, 0 <= base <= 4294967296;
        lemma_mul_bits_bound(pop, base);
        assert(pop * base <= pop * scale()) by (nonlinear_arith)
            requires 0 <= pop, base <= scale();
        assert(0 <= mul_bits(pop, base) <= pop) by (nonlinear_arith)
            requires scale() * mul_bits(pop, base) <= pop * base, pop * base <= pop * scale(), mul_bits(pop, base) >= 0, scale() > 0;
        let pb = mul_bits(pop, base);
        assert(mul_ok(pb, d)) by (nonlinear_arith)
            requires 0 <= pb <= i64::MAX, 0 <= d <= 4294967296;
        lemma_mul_bits_bound(pb, d);
        assert(pb * d <= pb * scale()) by (nonlinear_arith)
            requires 0 <= pb, d <= scale();
        assert(0 <= seeded_bits(pop, base, civ.dormancy@) <= pb) by (nonlinear_arith)
            requires scale() * mul_bits(pb, d) <= pb * d, pb * d <= pb * scale(), mul_bits(pb, d) >= 0, scale() > 0,
                seeded_bits(pop, base, civ.dormancy@) == mul_bits(pb, d);
        assert(mul_ok(a@, scale() - s@)) by (nonlinear_arith)
            requires 0 <= a@ <= 4294967296, 0 <= s@ <= 4294967296;
        assert(mul_ok(base, scale() - d)) by (nonlinear_arith)
            requires 0 <= base <= 4294967296, 0 <= d <= 4294967296;
    }
    let frac = apply_resistance_and_dormancy(a, s, civ.dormancy, civ.population, &mut civ.high_water, &mut civ.seed_bank, tick);
    (frac, Ghost(a@), Ghost(s@))
}

proof fn lemma_row_on_grid(cell: u32, width: u32, height: u32)
    requires
        grid_ok(width, height),
        cell < width * height,
    ensures
        axial_row(cell, width) < i32::MAX,
{
    let w = width as int;
    let h = height as int;
    vstd::arithmetic::div_mod::lemma_div_by_multiple_is_strongly_ordered(cell as int, w * h, h, w);
    assert(w * h == h * w) by (nonlinear_arith);
    vstd::arithmetic::div_mod::lemma_div_multiples_vanish(h, w);
}

/// Take a realised loss: a strike at `origin` and its claimed
/// neighbours, or, without an origin, a shrink of the civ-level head
/// count toward `max(pop × (1 − frac), floor)`.
fn take_loss(
    civ: &mut CatastropheCiv,
    origin: Option<u32>,
    center_frac: Real,
    neighbor_frac: Real,
    frac: Real,
    floor: Real,
    width: u32,
    height: u32,
)
    requires
        old(civ).wf(width, height),
        grid_ok(width, height),
        0 <= center_frac@ <= scale(),
        0 <= neighbor_frac@ <= scale(),
        0 <= frac@ <= scale(),
        floor@ >= 0,
        origin matches Some(o) ==> o < width * height && cells_sum(old(civ).cells@) <= old(civ).population@,
    ensures
        spread_taken(*old(civ), *final(civ), origin, center_frac@, neighbor_frac@, frac@, floor@, width, height),
        final(civ).wf(width, height),
        final(civ).high_water == old(civ).high_water,
        final(civ).seed_bank == old(civ).seed_bank,
        final(civ).cosmology == old(civ).cosmology,
        final(civ).clock == old(civ).clock,
        final(civ).id == old(civ).id,
        final(civ).active == old(civ).active,
        final(civ).founded_tick == old(civ).founded_tick,
        final(civ).claimed@ == old(civ).claimed@,
        final(civ).dormancy == old(civ).dormancy,
{
    match origin {
        Some(o) => {
            proof {
                lemma_row_on_grid(o, width, height);
            }
            let ghost before = civ.cells@;
            let lost = apply_to_cell_and_neighbors(
                &mut civ.cells,
                &civ.claimed,
                width,
                height,
                o,
                center_frac,
                neighbor_frac,
                true,
            );
            proof {
                crate::catastrophe::spread::lemma_sum_nonneg(civ.cells@);
                assert(cells_sum(civ.cells@) + lost@ == cells_sum(before));
                assert(lost@ <= civ.population@);
                assert forall|i: int| 0 <= i < civ.cells@.len() implies (#[trigger] civ.cells@[i]).cell < width * height by {
                    let targets = crate::catastrophe::spread::strike_targets(o, width, height, civ.claimed@, true, center_frac@, neighbor_frac@);
                    crate::catastrophe::spread::lemma_strikes_conserve_cells(before, targets);
                }
            }
            civ.population = civ.population.sub(lost);
        },
        None => {
            proof {
                lemma_mul_bits_bound(civ.population@, scale() - frac@);
                assert(civ.population@ * (scale() - frac@) <= civ.population@ * scale()) by (nonlinear_arith)
                    requires 0 <= civ.population@, 0 <= frac@ <= scale();
                assert(mul_bits(civ.population@, scale() - frac@) <= civ.population@) by (nonlinear_arith)
                    requires scale() * mul_bits(civ.population@, scale() - frac@) <= civ.population@ * (scale() - frac@),
                        civ.population@ * (scale() - frac@) <= civ.population@ * scale(), scale() > 0;
                assert(mul_ok(civ.population@, scale() - frac@)) by (nonlinear_arith)
                    requires 0 <= civ.population@ <= i64::MAX, 0 <= scale() - frac@ <= 4294967296;
            }
            let target = civ.population.mul(Real::one().sub(frac)).max(floor);
            if target.bits < civ.population.bits {
                civ.population = target;
            }
        },
    }
}

/// What the catastrophe handlers read of the planet.
#[derive(Debug, Clone, Copy, PartialEq, Eq, Structural)]
pub struct CatastrophePlanet {
    /// Radius relative to Earth's.
    pub radius: Real,
    /// Mean surface temperature, K.
    pub mean_temperature: Real,
    /// Surface pressure, Pa.
    pub surface_pressure: Real,
    pub crust: Crust,
    pub biosphere: BiosphereClass,
    pub magnetosphere: Magnetosphere,
    /// Stellar flux at the planet, W/m².
    pub stellar_luminosity: Real,
    pub spectral_type: SpectralType,
    /// The metabolic substrate's metabolism rate.
    pub metabolism: Real,
}

impl CatastrophePlanet {
    /// The planet's figures stay in the ranges the catastrophe formulas
    /// can compute with.
    pub open spec fn wf(&self) -> bool {
        &&& crate::catastrophe::triggers::area_ok(self.radius@)
        &&& crate::catastrophe::damage::volcanic_cooldown_ok(self.crust, self.radius@)
        &&& -int_bits(1_000_000) <= self.mean_temperature@ <= int_bits(1_000_000)
        &&& mul_ok(ratio_bits(20, 100), crate::catastrophe::factors::ice_age_severity_bits(self.mean_temperature@))
    }
}

/// The conditions a cell shows, from its temperature and pressure
/// readings (the planet's mean and surface pressure where the cell has
/// none), shifted by `temp_delta` and with `extra_rad` radiation.
pub open spec fn conditions_at(
    temperature: Seq<Real>,
    pressure: Seq<Real>,
    planet: CatastrophePlanet,
    cell: int,
    temp_delta: int,
    extra_rad: int,
) -> CellConditions {
    conditions_of(
        cell_conditions_bits(
            reading_of(temperature, cell),
            reading_of(pressure, cell),
            planet.mean_temperature@,
            planet.surface_pressure@,
            temp_delta,
            extra_rad,
        ),
    )
}

fn cell_conditions(
    state: &PhysicsView,
    pressure: &Vec<Real>,
    planet: &CatastrophePlanet,
    cell: u32,
    temp_delta: Real,
    extra_rad: Real,
) -> (r: CellConditions)
    requires
        state.wf(),
        planet.wf(),
        -int_bits(100) <= temp_delta@ <= int_bits(100),
        0 <= extra_rad@ <= int_bits(10),
    ensures
        r == conditions_at(state.temperature@, pressure@, *planet, cell as int, temp_delta@, extra_rad@),
{
    let t = if (cell as usize) < state.temperature.len() {
        proof {
            assert(state.field(crate::discovery::channels::Channel::Temperature).len() == state.n_cells());
            assert(crate::transcendental::abs_int(state.field(crate::discovery::channels::Channel::Temperature)[cell as int]@)
                <= crate::discovery::channels::FIELD_LIMIT);
        }
        Some(state.temperature[cell as usize])
    } else {
        None
    };
    let p = if (cell as usize) < pressure.len() {
        Some(pressure[cell as usize])
    } else {
        None
    };
    proof {
        crate::arith::lemma_ratio_unit(1, 10);
    }
    let c = catastrophe_cell_conditions(t, p, planet.mean_temperature, planet.surface_pressure, temp_delta, extra_rad);
    proof {
        assert(c.0 == Real { bits: c.0@ as i64 });
    }
    c
}

/// Disease's cooldown (500 years) stretched by the planet's metabolism,
/// at least one tick.
pub open spec fn disease_cooldown(metabolism: int) -> int {
    let t = stretched_ticks(6000, metabolism);
    if t > 1 { t } else { 1 }
}

/// The plague push: communitarian and mystical up, reformist down.
pub open spec fn plague_push() -> Cosmology {
    Cosmology {
        empirical: Real { bits: 0 },
        communitarian: Real { bits: ratio_bits(15, 100) as i64 },
        reformist: Real { bits: -ratio_bits(5, 100) as i64 },
        mystical: Real { bits: ratio_bits(15, 100) as i64 },
        hierarchical: Real { bits: ratio_bits(5, 100) as i64 },
    }
}

/// Disease loss before resistance.
pub open spec fn disease_raw(planet: CatastrophePlanet) -> int {
    disease_raw_bits(ratio_bits(disease_severity_pct(planet.biosphere), 100))
}

/// The cell a strike's tolerance reads: the densest claimed cell, or
/// cell 0 for a civ without cells.
pub open spec fn densest_or_zero(cells: Seq<CellPopulation>) -> int {
    match densest_of(cells) {
        Some(c) => c as int,
        None => 0,
    }
}

/// Whether disease strikes this tick: off its metabolism-stretched
/// cooldown, and crowded past the age floor.
pub open spec fn disease_ready(civ: CatastropheCiv, planet: CatastrophePlanet, capacity: int, tick: u64) -> bool {
    &&& off_cooldown(civ.clock.last_disease_tick, tick, disease_cooldown(planet.metabolism@) as u64)
    &&& disease_fires_spec(capacity, civ.population@, civ.founded_tick, tick, planet.metabolism@)
}

/// The civ after a disease strike with realised fraction `frac`, the
/// tool-softened loss being `a` and the envelope fit `s`: the loss
/// lands on the densest cell at twice the fraction and on its claimed
/// neighbours at the fraction (or on the civ as a whole, floored at ten,
/// when it holds no cell), the cosmology takes the plague push, and the
/// disease clock records the tick.
pub open spec fn disease_struck(old: CatastropheCiv, new: CatastropheCiv, frac: int, a: int, s: int, tick: u64, width: u32, height: u32) -> bool {
    &&& loss_taken(old, new, a, s, tick, frac)
    &&& spread_taken(old, new, densest_of(old.cells@), 2 * frac, frac, frac, int_bits(10), width, height)
    &&& axes(new.cosmology) == pushed(old.cosmology, plague_push())
    &&& new.clock == (CatastropheClock { last_disease_tick: Some(tick), last_catastrophe_tick: Some(tick), ..old.clock })
}

/// A disease strike's outcome: for what the tools (`resist`) made of the
/// raw loss and how well the envelope fit the struck cell
/// (`tolerance`), the civ is `disease_struck`.
pub open spec fn disease_outcome<R: Fn(Real) -> Real, T: Fn(CellConditions) -> Real>(
    old: CatastropheCiv,
    new: CatastropheCiv,
    frac: int,
    resist: R,
    tolerance: T,
    temperature: Seq<Real>,
    pressure: Seq<Real>,
    planet: CatastrophePlanet,
    tick: u64,
    width: u32,
    height: u32,
) -> bool {
    exists|a: int, s: int|
        call_ensures(resist, (Real { bits: disease_raw(planet) as i64 },), Real { bits: a as i64 })
            && call_ensures(
            tolerance,
            (conditions_at(temperature, pressure, planet, densest_or_zero(old.cells@), 0, 0),),
            Real { bits: s as i64 },
        ) && #[trigger] disease_struck(old, new, frac, a, s, tick, width, height)
}

/// The outcome of `try_disease` when it strikes.
pub open spec fn disease_result<R: Fn(Real) -> Real, T: Fn(CellConditions) -> Real>(
    old: CatastropheCiv,
    new: CatastropheCiv,
    r: Option<CatastropheRecord>,
    resist: R,
    tolerance: T,
    temperature: Seq<Real>,
    pressure: Seq<Real>,
    planet: CatastrophePlanet,
    tick: u64,
    width: u32,
    height: u32,
) -> bool {
    r matches Some(rec) && rec.kind == CatastropheKind::Disease
        && disease_outcome(old, new, rec.fraction_lost@, resist, tolerance, temperature, pressure, planet, tick, width, height)
}

fn percent_signed(n: i64) -> (r: Real)
    requires
        -100 <= n <= 100,
    ensures
        r@ == (if n >= 0 { ratio_bits(n as int, 100) } else { -ratio_bits(-n as int, 100) }),
        -scale() <= r@ <= scale(),
{
    if n >= 0 {
        proof {
            crate::arith::lemma_ratio_unit(n as int, 100);
        }
        Real::percent(n)
    } else {
        proof {
            crate::arith::lemma_ratio_unit(-n as int, 100);
        }
        Real::percent(-n).neg()
    }
}

fn cosmology_push(e: i64, c: i64, r: i64, m: i64, h: i64) -> (p: Cosmology)
    requires
        -100 <= e <= 100,
        -100 <= c <= 100,
        -100 <= r <= 100,
        -100 <= m <= 100,
        -100 <= h <= 100,
    ensures
        p.wf(),
        p.empirical@ == (if e >= 0 { ratio_bits(e as int, 100) } else { -ratio_bits(-e as int, 100) }),
        p.communitarian@ == (if c >= 0 { ratio_bits(c as int, 100) } else { -ratio_bits(-c as int, 100) }),
        p.reformist@ == (if r >= 0 { ratio_bits(r as int, 100) } else { -ratio_bits(-r as int, 100) }),
        p.mystical@ == (if m >= 0 { ratio_bits(m as int, 100) } else { -ratio_bits(-m as int, 100) }),
        p.hierarchical@ == (if h >= 0 { ratio_bits(h as int, 100) } else { -ratio_bits(-h as int, 100) }),
{
    Cosmology {
        empirical: percent_signed(e),
        communitarian: percent_signed(c),
        reformist: percent_signed(r),
        mystical: percent_signed(m),
        hierarchical: percent_signed(h),
    }
}

/// Try disease this tick. When it is off its cooldown and the civ is
/// crowded past the age floor it strikes (see `disease_struck`) and the
/// record reports the realised fraction; otherwise nothing changes.
pub fn try_disease<R: Fn(Real) -> Real, T: Fn(CellConditions) -> Real>(
    civ: &mut CatastropheCiv,
    state: &PhysicsView,
    pressure: &Vec<Real>,
    planet: &CatastrophePlanet,
    capacity: Real,
    tick: u64,
    width: u32,
    height: u32,
    resist: &R,
    tolerance: &T,
) -> (r: Option<CatastropheRecord>)
    requires
        old(civ).wf(width, height),
        old(civ).seed_bank.population@ + old(civ).population@ <= i64::MAX,
        cells_sum(old(civ).cells@) <= old(civ).population@,
        capacity@ > 0 ==> crate::arith::div_ok(old(civ).population@, capacity@),
        grid_ok(width, height),
        planet.wf(),
        state.wf(),
        resist_ok(*resist),
        tolerance_ok(*tolerance),
    ensures
        !disease_ready(*old(civ), *planet, capacity@, tick) ==> r is None && *final(civ) == *old(civ),
        disease_ready(*old(civ), *planet, capacity@, tick) ==> disease_result(*old(civ), *final(civ), r, *resist, *tolerance, state.temperature@, pressure@, *planet, tick, width, height),
        final(civ).wf(width, height),
{
    proof {
        lemma_short_stretch_ok(6000, planet.metabolism@);
    }
    let cooldown = streak_ticks_for_metabolism(6000, planet.metabolism);
    let ready = match civ.clock.last_disease_tick {
        None => true,
        Some(t) => tick.saturating_sub(t) >= cooldown,
    };
    let fires = disease_fires(capacity, civ.population, civ.founded_tick, tick, planet.metabolism);
    proof {
        assert(cooldown == disease_cooldown(planet.metabolism@));
        assert(ready == off_cooldown(civ.clock.last_disease_tick, tick, disease_cooldown(planet.metabolism@) as u64));
    }
    if !ready || !fires {
        return None;
    }
    let ghost old_civ = *civ;
    let severity = crate::catastrophe::factors::disease_severity_factor(planet.biosphere);
    proof {
        crate::arith::lemma_ratio_value(disease_severity_pct(planet.biosphere), 100);
        crate::arith::lemma_ratio_value(30, 100);
    }
    let raw = disease_raw_fraction(severity);
    proof {
        let q = ratio_bits(30, 100);
        lemma_mul_bits_bound(q, severity@);
        assert(0 <= raw@ <= scale() / 2) by (nonlinear_arith)
            requires scale() * raw@ <= q * severity@, raw@ >= 0, 0 <= q <= (30 * scale()) / 100, 0 <= severity@ <= (150 * scale()) / 100, scale() == 4294967296;
    }
    let origin = densest_claimed_cell(&civ.cells);
    proof {
        if civ.cells@.len() > 0 {
            let i = choose|i: int| is_densest(civ.cells@, i) && origin == Some(civ.cells@[i].cell);
            lemma_densest_unique(civ.cells@, i);
        }
    }
    let cell: u32 = match origin {
        Some(c) => c,
        None => 0,
    };
    let conds = cell_conditions(state, pressure, planet, cell, Real::zero(), Real::zero());
    let (frac, Ghost(a), Ghost(s)) = realised_loss(civ, raw, conds, tick, resist, tolerance, width, height);
    proof {
        if origin is Some {
            let i = choose|i: int| is_densest(old_civ.cells@, i);
            assert(old_civ.cells@[i].cell < width * height);
        }
    }
    take_loss(civ, origin, frac.add(frac), frac, frac, Real::from_int(10), width, height);
    let plague = cosmology_push(0, 15, -5, 15, 5);
    proof {
        assert(plague == plague_push());
    }
    push_cosmology(&mut civ.cosmology, &plague);
    civ.clock.last_disease_tick = Some(tick);
    civ.clock.last_catastrophe_tick = Some(tick);
    proof {
        assert(disease_struck(old_civ, *civ, frac@, a, s, tick, width, height));
        assert(raw == Real { bits: disease_raw(*planet) as i64 });
        assert(cell as int == densest_or_zero(old_civ.cells@));
        assert(conds == conditions_at(state.temperature@, pressure@, *planet, densest_or_zero(old_civ.cells@), 0, 0));
        assert(old_civ == *old(civ));
        assert(call_ensures(*resist, (Real { bits: disease_raw(*planet) as i64 },), Real { bits: a as i64 })
            && call_ensures(
            *tolerance,
            (conditions_at(state.temperature@, pressure@, *planet, densest_or_zero(old(civ).cells@), 0, 0),),
            Real { bits: s as i64 },
        ) && disease_struck(*old(civ), *civ, frac@, a, s, tick, width, height));
        assert(disease_outcome(*old(civ), *civ, frac@, *resist, *tolerance, state.temperature@, pressure@, *planet, tick, width, height));
    }
    Some(CatastropheRecord { kind: CatastropheKind::Disease, fraction_lost: frac })
}

/// A strike's effect on the civ, for a tool-softened loss `a` and
/// envelope fit `s` giving the realised fraction `frac`: the loss part
/// (`loss_taken`), the spread (`spread_taken`), the cosmology pushed by
/// `push`, and the clock set to `clock`.
pub open spec fn struck(
    old: CatastropheCiv,
    new: CatastropheCiv,
    frac: int,
    a: int,
    s: int,
    tick: u64,
    origin: Option<u32>,
    center_frac: int,
    neighbor_frac: int,
    floor: int,
    push: Cosmology,
    clock: CatastropheClock,
    width: u32,
    height: u32,
) -> bool {
    &&& loss_taken(old, new, a, s, tick, frac)
    &&& spread_taken(old, new, origin, center_frac, neighbor_frac, frac, floor, width, height)
    &&& axes(new.cosmology) == pushed(old.cosmology, push)
    &&& new.clock == clock
}

/// A strike with raw loss `raw` read at a cell showing `conds`: for what
/// the tools made of the raw loss and how well the envelope fit the
/// cell, the civ is `struck`.
pub open spec fn strike_outcome<R: Fn(Real) -> Real, T: Fn(CellConditions) -> Real>(
    old: CatastropheCiv,
    new: CatastropheCiv,
    frac: int,
    resist: R,
    tolerance: T,
    raw: int,
    conds: CellConditions,
    tick: u64,
    origin: Option<u32>,
    center_frac: int,
    neighbor_frac: int,
    floor: int,
    push: Cosmology,
    clock: CatastropheClock,
    width: u32,
    height: u32,
) -> bool {
    exists|a: int, s: int|
        call_ensures(resist, (Real { bits: raw as i64 },), Real { bits: a as i64 })
            && call_ensures(tolerance, (conds,), Real { bits: s as i64 })
            && #[trigger] struck(old, new, frac, a, s, tick, origin, center_frac, neighbor_frac, floor, push, clock, width, height)
}

/// The cosmology push of percentages `(e, c, r, m, h)`.
pub open spec fn push_of(e: int, c: int, r: int, m: int, h: int) -> Cosmology {
    Cosmology {
        empirical: Real { bits: (if e >= 0 { ratio_bits(e, 100) } else { -ratio_bits(-e, 100) }) as i64 },
        communitarian: Real { bits: (if c >= 0 { ratio_bits(c, 100) } else { -ratio_bits(-c, 100) }) as i64 },
        reformist: Real { bits: (if r >= 0 { ratio_bits(r, 100) } else { -ratio_bits(-r, 100) }) as i64 },
        mystical: Real { bits: (if m >= 0 { ratio_bits(m, 100) } else { -ratio_bits(-m, 100) }) as i64 },
        hierarchical: Real { bits: (if h >= 0 { ratio_bits(h, 100) } else { -ratio_bits(-h, 100) }) as i64 },
    }
}

/// The deterministic impact cell of a civ this tick, if it claims any.
pub open spec fn pick_of(claimed: Seq<u32>, civ_id: u32, tick: u64) -> Option<u32> {
    if claimed.len() == 0 {
        None
    } else {
        Some(claimed[pick_mix(tick, civ_id) % (claimed.len() as int)])
    }
}

/// Whether the asteroid strikes: 5000 years since the last one, and on
/// the area-scaled asteroid period.
pub open spec fn asteroid_ready(civ: CatastropheCiv, planet: CatastrophePlanet, tick: u64) -> bool {
    &&& off_cooldown(civ.clock.last_asteroid_tick, tick, 60000)
    &&& tick > 0 && tick % (scaled_period(56796, planet.radius@) as u64) == 0
}

/// Whether a solar flare strikes: 800 years since the last one, a weak
/// or absent magnetosphere under a star of at least 1500 W/m², on the
/// spectral period scaled by area.
pub open spec fn solar_flare_ready(civ: CatastropheCiv, planet: CatastrophePlanet, tick: u64) -> bool {
    &&& off_cooldown(civ.clock.last_solar_flare_tick, tick, 9600)
    &&& (planet.magnetosphere == Magnetosphere::Absent || planet.magnetosphere == Magnetosphere::Weak)
    &&& planet.stellar_luminosity@ >= int_bits(1500)
    &&& tick > 0 && tick % (scaled_period(flare_base_period(planet.spectral_type) as u64, planet.radius@) as u64) == 0
}

/// Whether an ice age strikes: 4000 years since the last one, a planet
/// no warmer than 260 K, a civ a thousand years old, on the area-scaled
/// period.
pub open spec fn ice_age_ready(civ: CatastropheCiv, planet: CatastrophePlanet, tick: u64) -> bool {
    &&& off_cooldown(civ.clock.last_ice_age_tick, tick, 48000)
    &&& planet.mean_temperature@ <= int_bits(260)
    &&& (if tick >= civ.founded_tick { tick - civ.founded_tick } else { 0 }) >= 12000
    &&& tick > 0 && tick % (scaled_period(35004, planet.radius@) as u64) == 0
}

fn cooldown_passed(last: Option<u64>, tick: u64, cooldown: u64) -> (b: bool)
    ensures
        b == off_cooldown(last, tick, cooldown),
{
    match last {
        None => true,
        Some(t) => tick.saturating_sub(t) >= cooldown,
    }
}

/// The densest claimed cell, as `densest_of` names it.
fn densest(cells: &Vec<CellPopulation>) -> (r: Option<u32>)
    ensures
        r == densest_of(cells@),
        r matches Some(c) ==> exists|i: int| 0 <= i < cells@.len() && cells@[i].cell == c,
{
    let r = densest_claimed_cell(cells);
    proof {
        if cells@.len() > 0 {
            let i = choose|i: int| is_densest(cells@, i) && r == Some(cells@[i].cell);
            lemma_densest_unique(cells@, i);
        }
    }
    r
}

/// The outcome of `try_asteroid` when it strikes.
pub open spec fn asteroid_result<R: Fn(Real) -> Real, T: Fn(CellConditions) -> Real>(
    old: CatastropheCiv,
    new: CatastropheCiv,
    r: Option<CatastropheRecord>,
    resist: R,
    tolerance: T,
    temperature: Seq<Real>,
    pressure: Seq<Real>,
    planet: CatastrophePlanet,
    tick: u64,
    width: u32,
    height: u32,
) -> bool {
    (r matches Some(rec) && rec.kind == CatastropheKind::Asteroid && strike_outcome(
            old,
            new,
            rec.fraction_lost@,
            resist,
            tolerance,
            ratio_bits(40, 100),
            conditions_at(temperature, pressure, planet, (match pick_of(old.claimed@, old.id, tick) { Some(c) => c as int, None => 0 }), 0, 0),
            tick,
            pick_of(old.claimed@, old.id, tick),
            2 * rec.fraction_lost@,
            crate::arith::div_bits(rec.fraction_lost@, int_bits(2)),
            int_bits(10),
            push_of(-5, 10, 15, 20, -5),
            CatastropheClock { last_asteroid_tick: Some(tick), last_catastrophe_tick: Some(tick), ..old.clock },
            width,
            height,
        ))
}

/// The outcome of `try_solar_flare` when it strikes.
pub open spec fn solar_flare_result<R: Fn(Real) -> Real, T: Fn(CellConditions) -> Real>(
    old: CatastropheCiv,
    new: CatastropheCiv,
    r: Option<CatastropheRecord>,
    resist: R,
    tolerance: T,
    temperature: Seq<Real>,
    pressure: Seq<Real>,
    planet: CatastrophePlanet,
    cosmic_flux: Real,
    tick: u64,
    width: u32,
    height: u32,
) -> bool {
    (r matches Some(rec) && rec.kind == CatastropheKind::SolarFlare && strike_outcome(
            old,
            new,
            rec.fraction_lost@,
            resist,
            tolerance,
            ratio_bits(10, 100),
            conditions_at(temperature, pressure, planet, densest_or_zero(old.cells@), 0, flare_amplification_bits(cosmic_flux@)),
            tick,
            None::<u32>,
            0,
            0,
            int_bits(10),
            push_of(15, 0, 10, 5, 0),
            CatastropheClock { last_solar_flare_tick: Some(tick), last_catastrophe_tick: Some(tick), ..old.clock },
            width,
            height,
        ))
}

/// The outcome of `try_ice_age` when it strikes.
pub open spec fn ice_age_result<R: Fn(Real) -> Real, T: Fn(CellConditions) -> Real>(
    old: CatastropheCiv,
    new: CatastropheCiv,
    r: Option<CatastropheRecord>,
    resist: R,
    tolerance: T,
    temperature: Seq<Real>,
    pressure: Seq<Real>,
    planet: CatastrophePlanet,
    tick: u64,
    width: u32,
    height: u32,
) -> bool {
    (r matches Some(rec) && rec.kind == CatastropheKind::IceAge && strike_outcome(
            old,
            new,
            rec.fraction_lost@,
            resist,
            tolerance,
            ice_age_raw_bits(planet.mean_temperature@),
            conditions_at(temperature, pressure, planet, densest_or_zero(old.cells@), -int_bits(50), 0),
            tick,
            None::<u32>,
            0,
            0,
            int_bits(10),
            push_of(0, 20, -5, 5, 15),
            CatastropheClock { last_ice_age_tick: Some(tick), last_catastrophe_tick: Some(tick), ..old.clock },
            width,
            height,
        ))
}

/// Try an asteroid impact this tick. When it is off its cooldown and on
/// its period it strikes: the deterministic impact cell (among the
/// claimed cells) loses twice the realised fraction and its claimed
/// neighbours half of it (the civ as a whole, floored at ten, when it
/// claims nothing); the cosmology turns mystical and reformist; the
/// asteroid clock records the tick. Otherwise nothing changes.
pub fn try_asteroid<R: Fn(Real) -> Real, T: Fn(CellConditions) -> Real>(
    civ: &mut CatastropheCiv,
    state: &PhysicsView,
    pressure: &Vec<Real>,
    planet: &CatastrophePlanet,
    tick: u64,
    width: u32,
    height: u32,
    resist: &R,
    tolerance: &T,
) -> (r: Option<CatastropheRecord>)
    requires
        old(civ).wf(width, height),
        old(civ).seed_bank.population@ + old(civ).population@ <= i64::MAX,
        grid_ok(width, height),
        planet.wf(),
        state.wf(),
        resist_ok(*resist),
        tolerance_ok(*tolerance),
        cells_sum(old(civ).cells@) <= old(civ).population@,
    ensures
        !asteroid_ready(*old(civ), *planet, tick) ==> r is None && *final(civ) == *old(civ),
        asteroid_ready(*old(civ), *planet, tick) ==> asteroid_result(*old(civ), *final(civ), r, *resist, *tolerance, state.temperature@, pressure@, *planet, tick, width, height),
        final(civ).wf(width, height),
{
    let ready = cooldown_passed(civ.clock.last_asteroid_tick, tick, 60000);
    let fires = asteroid_fires(planet.radius, tick);
    if !ready || !fires {
        return None;
    }
    let ghost old_civ = *civ;
    proof {
        crate::arith::lemma_ratio_value(40, 100);
    }
    let raw = Real::percent(40);
    let origin = deterministic_cell_pick(&civ.claimed, civ.id, tick);
    let cell: u32 = match origin {
        Some(c) => c,
        None => 0,
    };
    let conds = cell_conditions(state, pressure, planet, cell, Real::zero(), Real::zero());
    let (frac, Ghost(a), Ghost(s)) = realised_loss(civ, raw, conds, tick, resist, tolerance, width, height);
    proof {
        if civ.claimed@.len() > 0 {
            let k = pick_mix(tick, civ.id) % (civ.claimed@.len() as int);
            assert(civ.claimed@[k] < width * height);
        }
        vstd::arithmetic::div_mod::lemma_fundamental_div_mod(frac@ * scale(), 2 * scale());
        assert(crate::arith::div_bits(frac@, int_bits(2)) == (frac@ * scale()) / (2 * scale()));
        let q = (frac@ * scale()) / (2 * scale());
        assert(0 <= q <= frac@) by (nonlinear_arith)
            requires frac@ * scale() == (2 * scale()) * q + (frac@ * scale()) % (2 * scale()),
                0 <= (frac@ * scale()) % (2 * scale()) < 2 * scale(), frac@ >= 0, scale() > 0;
        assert(2 * frac@ <= scale());
    }
    take_loss(civ, origin, frac.add(frac), frac.div(Real::from_int(2)), frac, Real::from_int(10), width, height);
    let push = cosmology_push(-5, 10, 15, 20, -5);
    push_cosmology(&mut civ.cosmology, &push);
    civ.clock.last_asteroid_tick = Some(tick);
    civ.clock.last_catastrophe_tick = Some(tick);
    proof {
        assert(old_civ == *old(civ));
        assert(push == push_of(-5, 10, 15, 20, -5));
        let clock = CatastropheClock { last_asteroid_tick: Some(tick), last_catastrophe_tick: Some(tick), ..old_civ.clock };
        assert(civ.clock == clock);
        assert(struck(old_civ, *civ, frac@, a, s, tick, pick_of(old_civ.claimed@, old_civ.id, tick), 2 * frac@, crate::arith::div_bits(frac@, int_bits(2)), int_bits(10), push, clock, width, height));
        assert(conds == conditions_at(state.temperature@, pressure@, *planet, (match pick_of(old_civ.claimed@, old_civ.id, tick) { Some(c) => c as int, None => 0 }), 0, 0));
        assert(raw == Real { bits: ratio_bits(40, 100) as i64 });
        assert(strike_outcome(
            *old(civ),
            *civ,
            frac@,
            *resist,
            *tolerance,
            ratio_bits(40, 100),
            conds,
            tick,
            pick_of(old(civ).claimed@, old(civ).id, tick),
            2 * frac@,
            crate::arith::div_bits(frac@, int_bits(2)),
            int_bits(10),
            push_of(-5, 10, 15, 20, -5),
            clock,
            width,
            height,
        ));
    }
    Some(CatastropheRecord { kind: CatastropheKind::Asteroid, fraction_lost: frac })
}

/// Try a solar flare this tick. When it is off its cooldown and the
/// planet's magnetosphere, star and period let it fire, it strikes: the
/// densest claimed cell's radiation rises by the cosmic-ray-amplified
/// flare boost (`cosmic_flux` clamped to `[0.2, 5]`), the civ-level head
/// count shrinks by the realised fraction (floored at ten), the
/// cosmology turns empirical and reformist, and the flare clock records
/// the tick. Otherwise nothing changes.
pub fn try_solar_flare<R: Fn(Real) -> Real, T: Fn(CellConditions) -> Real>(
    civ: &mut CatastropheCiv,
    state: &PhysicsView,
    pressure: &Vec<Real>,
    planet: &CatastrophePlanet,
    cosmic_flux: Real,
    tick: u64,
    width: u32,
    height: u32,
    resist: &R,
    tolerance: &T,
) -> (r: Option<CatastropheRecord>)
    requires
        old(civ).wf(width, height),
        old(civ).seed_bank.population@ + old(civ).population@ <= i64::MAX,
        grid_ok(width, height),
        planet.wf(),
        state.wf(),
        resist_ok(*resist),
        tolerance_ok(*tolerance),
    ensures
        !solar_flare_ready(*old(civ), *planet, tick) ==> r is None && *final(civ) == *old(civ),
        solar_flare_ready(*old(civ), *planet, tick) ==> solar_flare_result(*old(civ), *final(civ), r, *resist, *tolerance, state.temperature@, pressure@, *planet, cosmic_flux, tick, width, height),
        final(civ).wf(width, height),
{
    let ready = cooldown_passed(civ.clock.last_solar_flare_tick, tick, 9600);
    let fires = solar_flare_fires(planet.magnetosphere, planet.stellar_luminosity, planet.spectral_type, planet.radius, tick);
    if !ready || !fires {
        return None;
    }
    let ghost old_civ = *civ;
    proof {
        crate::arith::lemma_ratio_unit(10, 100);
        crate::arith::lemma_ratio_unit(2, 10);
    }
    let raw = Real::percent(10);
    let origin = densest(&civ.cells);
    let cell: u32 = match origin {
        Some(c) => c,
        None => 0,
    };
    let amp = flare_amplification(cosmic_flux);
    let conds = cell_conditions(state, pressure, planet, cell, Real::zero(), amp);
    let (frac, Ghost(a), Ghost(s)) = realised_loss(civ, raw, conds, tick, resist, tolerance, width, height);
    take_loss(civ, None, Real::zero(), Real::zero(), frac, Real::from_int(10), width, height);
    let push = cosmology_push(15, 0, 10, 5, 0);
    push_cosmology(&mut civ.cosmology, &push);
    civ.clock.last_solar_flare_tick = Some(tick);
    civ.clock.last_catastrophe_tick = Some(tick);
    proof {
        assert(old_civ == *old(civ));
        assert(push == push_of(15, 0, 10, 5, 0));
        let clock = CatastropheClock { last_solar_flare_tick: Some(tick), last_catastrophe_tick: Some(tick), ..old_civ.clock };
        assert(civ.clock == clock);
        assert(struck(old_civ, *civ, frac@, a, s, tick, None::<u32>, 0, 0, int_bits(10), push, clock, width, height));
        assert(conds == conditions_at(state.temperature@, pressure@, *planet, densest_or_zero(old_civ.cells@), 0, flare_amplification_bits(cosmic_flux@)));
        assert(raw == Real { bits: ratio_bits(10, 100) as i64 });
        assert(strike_outcome(
            *old(civ),
            *civ,
            frac@,
            *resist,
            *tolerance,
            ratio_bits(10, 100),
            conds,
            tick,
            None::<u32>,
            0,
            0,
            int_bits(10),
            push_of(15, 0, 10, 5, 0),
            clock,
            width,
            height,
        ));
    }
    Some(CatastropheRecord { kind: CatastropheKind::SolarFlare, fraction_lost: frac })
}

/// Try an ice age this tick. When it is off its cooldown and fires on a
/// cold planet for a mature civ, it strikes: the loss (20% scaled by how
/// cold the planet runs, at most 60%) is read against the densest claimed
/// cell cooled by 50 K, the civ-level head count shrinks by the realised
/// fraction (floored at ten), the cosmology turns communitarian and
/// hierarchical, and the ice-age clock records the tick. Otherwise
/// nothing changes.
pub fn try_ice_age<R: Fn(Real) -> Real, T: Fn(CellConditions) -> Real>(
    civ: &mut CatastropheCiv,
    state: &PhysicsView,
    pressure: &Vec<Real>,
    planet: &CatastrophePlanet,
    tick: u64,
    width: u32,
    height: u32,
    resist: &R,
    tolerance: &T,
) -> (r: Option<CatastropheRecord>)
    requires
        old(civ).wf(width, height),
        old(civ).seed_bank.population@ + old(civ).population@ <= i64::MAX,
        grid_ok(width, height),
        planet.wf(),
        state.wf(),
        resist_ok(*resist),
        tolerance_ok(*tolerance),
    ensures
        !ice_age_ready(*old(civ), *planet, tick) ==> r is None && *final(civ) == *old(civ),
        ice_age_ready(*old(civ), *planet, tick) ==> ice_age_result(*old(civ), *final(civ), r, *resist, *tolerance, state.temperature@, pressure@, *planet, tick, width, height),
        final(civ).wf(width, height),
{
    let ready = cooldown_passed(civ.clock.last_ice_age_tick, tick, 48000);
    let fires = ice_age_fires(planet.mean_temperature, planet.radius, civ.founded_tick, tick);
    if !ready || !fires {
        return None;
    }
    let ghost old_civ = *civ;
    let raw = ice_age_raw_fraction(planet.mean_temperature);
    proof {
        crate::arith::lemma_ratio_unit(60, 100);
        crate::arith::lemma_ratio_unit(20, 100);
        let sev = crate::catastrophe::factors::ice_age_severity_bits(planet.mean_temperature@);
        assert(sev >= scale());
        lemma_mul_bits_bound(ratio_bits(20, 100), sev);
        assert(0 <= raw@ <= scale());
    }
    let origin = densest(&civ.cells);
    let cell: u32 = match origin {
        Some(c) => c,
        None => 0,
    };
    let conds = cell_conditions(state, pressure, planet, cell, Real::from_int(-50), Real::zero());
    let (frac, Ghost(a), Ghost(s)) = realised_loss(civ, raw, conds, tick, resist, tolerance, width, height);
    take_loss(civ, None, Real::zero(), Real::zero(), frac, Real::from_int(10), width, height);
    let push = cosmology_push(0, 20, -5, 5, 15);
    push_cosmology(&mut civ.cosmology, &push);
    civ.clock.last_ice_age_tick = Some(tick);
    civ.clock.last_catastrophe_tick = Some(tick);
    proof {
        assert(old_civ == *old(civ));
        assert(push == push_of(0, 20, -5, 5, 15));
        let clock = CatastropheClock { last_ice_age_tick: Some(tick), last_catastrophe_tick: Some(tick), ..old_civ.clock };
        assert(civ.clock == clock);
        assert(struck(old_civ, *civ, frac@, a, s, tick, None::<u32>, 0, 0, int_bits(10), push, clock, width, height));
        assert(conds == conditions_at(state.temperature@, pressure@, *planet, densest_or_zero(old_civ.cells@), -int_bits(50), 0));
        assert(raw == Real { bits: ice_age_raw_bits(planet.mean_temperature@) as i64 });
        assert(strike_outcome(
            *old(civ),
            *civ,
            frac@,
            *resist,
            *tolerance,
            ice_age_raw_bits(planet.mean_temperature@),
            conds,
            tick,
            None::<u32>,
            0,
            0,
            int_bits(10),
            push_of(0, 20, -5, 5, 15),
            clock,
            width,
            height,
        ));
    }
    Some(CatastropheRecord { kind: CatastropheKind::IceAge, fraction_lost: frac })
}

/// How a volcanic eruption's loss lands: the eruption cell loses the
/// realised fraction of its head count and the civ what the cell lost;
/// when that is nothing (the civ holds no such cell, or it is empty) the
/// civ-level head count shrinks to `pop × (1 − frac)` instead.
pub open spec fn eruption_loss_taken(old: CatastropheCiv, new: CatastropheCiv, cell: u32, frac: int) -> bool {
    let lost = crate::catastrophe::spread::lost_at(old.cells@, cell, frac);
    &&& new.cells@ == crate::catastrophe::spread::dropped(old.cells@, cell, frac)
    &&& if lost > 0 {
        new.population@ == old.population@ - lost
    } else {
        new.population@ == shrink_bits(old.population@, max_bits(mul_bits(old.population@, scale() - frac), 0))
    }
}

/// The civ after an eruption at `cell`, for a tool-softened loss `a` and
/// envelope fit `s` giving the realised fraction `frac`.
pub open spec fn erupted_on(old: CatastropheCiv, new: CatastropheCiv, cell: u32, frac: int, a: int, s: int, tick: u64) -> bool {
    &&& loss_taken(old, new, a, s, tick, frac)
    &&& eruption_loss_taken(old, new, cell, frac)
    &&& new.cosmology == old.cosmology
    &&& new.clock == (CatastropheClock { last_volcanic_tick: Some(tick), last_catastrophe_tick: Some(tick), ..old.clock })
}

/// Whether the volcanic catastrophe strikes: off its crust- and
/// area-scaled cooldown, with some cell erupting.
pub open spec fn volcanic_ready(civ: CatastropheCiv, state: PhysicsView, planet: CatastrophePlanet, tick: u64) -> bool {
    &&& off_cooldown(civ.clock.last_volcanic_tick, tick, crate::catastrophe::damage::volcanic_cooldown_bits(planet.crust, planet.radius@) as u64)
    &&& exists|j: int| 0 <= j < state.n_cells() && crate::catastrophe::triggers::erupts(state, j)
}

/// The outcome of a volcanic strike: the first erupting cell erupts,
/// and for what the tools made of the 5% raw loss and how well the
/// envelope fits the erupted cell, the civ is `erupted_on` there.
pub open spec fn volcanic_result<R: Fn(Real) -> Real, T: Fn(CellConditions) -> Real>(
    old: CatastropheCiv,
    new: CatastropheCiv,
    old_state: PhysicsView,
    new_state: PhysicsView,
    r: Option<CatastropheRecord>,
    resist: R,
    tolerance: T,
    pressure: Seq<Real>,
    planet: CatastrophePlanet,
    tick: u64,
) -> bool {
    r matches Some(rec) && rec.kind == CatastropheKind::Volcanic && exists|cell: u32, a: int, s: int|
        #[trigger] eruption_witness(old, new, old_state, new_state, rec.fraction_lost@, resist, tolerance, pressure, planet, tick, cell, a, s)
}

/// The eruption at `cell`, with tool-softened loss `a` and envelope fit
/// `s`, explains the outcome (see `volcanic_result`).
pub open spec fn eruption_witness<R: Fn(Real) -> Real, T: Fn(CellConditions) -> Real>(
    old: CatastropheCiv,
    new: CatastropheCiv,
    old_state: PhysicsView,
    new_state: PhysicsView,
    frac: int,
    resist: R,
    tolerance: T,
    pressure: Seq<Real>,
    planet: CatastrophePlanet,
    tick: u64,
    cell: u32,
    a: int,
    s: int,
) -> bool {
    &&& cell < old_state.n_cells()
    &&& crate::catastrophe::triggers::erupts(old_state, cell as int)
    &&& forall|j: int| 0 <= j < cell ==> !crate::catastrophe::triggers::erupts(old_state, j)
    &&& crate::catastrophe::volcanic::erupted(old_state, new_state, cell as int)
    &&& call_ensures(resist, (Real { bits: ratio_bits(5, 100) as i64 },), Real { bits: a as i64 })
    &&& call_ensures(tolerance, (conditions_at(new_state.temperature@, pressure, planet, cell as int, 0, 0),), Real { bits: s as i64 })
    &&& erupted_on(old, new, cell, frac, a, s, tick)
}

/// Try the volcanic catastrophe on the civ this tick: when it is off
/// its cooldown and a cell erupts, the first erupting cell erupts (fuel
/// burnt, 50 K cooler) and the civ takes the loss (see `erupted_on`);
/// otherwise nothing changes.
pub fn try_volcanic_strike<R: Fn(Real) -> Real, T: Fn(CellConditions) -> Real>(
    civ: &mut CatastropheCiv,
    state: &mut PhysicsView,
    pressure: &Vec<Real>,
    planet: &CatastrophePlanet,
    tick: u64,
    width: u32,
    height: u32,
    resist: &R,
    tolerance: &T,
) -> (r: Option<CatastropheRecord>)
    requires
        old(civ).wf(width, height),
        old(civ).seed_bank.population@ + old(civ).population@ <= i64::MAX,
        cells_sum(old(civ).cells@) <= old(civ).population@,
        grid_ok(width, height),
        planet.wf(),
        old(state).wf(),
        old(state).n_cells() < 0x1_0000_0000,
        resist_ok(*resist),
        tolerance_ok(*tolerance),
    ensures
        !volcanic_ready(*old(civ), *old(state), *planet, tick) ==> r is None && *final(civ) == *old(civ)
            && *final(state) == *old(state),
        volcanic_ready(*old(civ), *old(state), *planet, tick) ==> volcanic_result(
            *old(civ),
            *final(civ),
            *old(state),
            *final(state),
            r,
            *resist,
            *tolerance,
            pressure@,
            *planet,
            tick,
        ),
        final(civ).wf(width, height),
        final(state).wf(),
{
    let mut clock = civ.clock;
    let hit = crate::catastrophe::volcanic::try_volcanic(&mut clock, state, planet.crust, planet.radius, tick);
    let cell = match hit {
        None => {
            return None;
        },
        Some(c) => c,
    };
    let ghost old_civ = *civ;
    proof {
        crate::arith::lemma_ratio_unit(5, 100);
    }
    let raw = Real::percent(5);
    let cell_u32 = cell as u32;
    let conds = cell_conditions(state, pressure, planet, cell_u32, Real::zero(), Real::zero());
    let (frac, Ghost(a), Ghost(s)) = realised_loss(civ, raw, conds, tick, resist, tolerance, width, height);
    let ghost mid = *civ;
    proof {
        crate::catastrophe::spread::lemma_drop_conserves(civ.cells@, cell_u32, frac@);
        crate::catastrophe::spread::lemma_sum_nonneg(crate::catastrophe::spread::dropped(civ.cells@, cell_u32, frac@));
        assert forall|i: int| 0 <= i < civ.cells@.len() implies (#[trigger] crate::catastrophe::spread::dropped(civ.cells@, cell_u32, frac@)[i]).cell < width * height by {
            assert(civ.cells@[i].cell < width * height);
        }
    }
    let lost = crate::catastrophe::spread::drop_cell(&mut civ.cells, cell_u32, frac);
    if lost.bits > 0 {
        civ.population = civ.population.sub(lost);
    } else {
        proof {
            lemma_mul_bits_bound(civ.population@, scale() - frac@);
            assert(civ.population@ * (scale() - frac@) <= civ.population@ * scale()) by (nonlinear_arith)
                requires 0 <= civ.population@, 0 <= frac@ <= scale();
            assert(mul_bits(civ.population@, scale() - frac@) <= civ.population@) by (nonlinear_arith)
                requires scale() * mul_bits(civ.population@, scale() - frac@) <= civ.population@ * (scale() - frac@),
                    civ.population@ * (scale() - frac@) <= civ.population@ * scale(), scale() > 0;
            assert(mul_ok(civ.population@, scale() - frac@)) by (nonlinear_arith)
                requires 0 <= civ.population@ <= i64::MAX, 0 <= scale() - frac@ <= 4294967296;
        }
        let target = civ.population.mul(Real::one().sub(frac)).max(Real::zero());
        if target.bits < civ.population.bits {
            civ.population = target;
        }
    }
    civ.clock = clock;
    proof {
        assert(old_civ == *old(civ));
        assert(cell_u32 as int == cell as int);
        assert(cell_u32 < old(state).n_cells() && crate::catastrophe::triggers::erupts(*old(state), cell_u32 as int));
        assert(forall|j: int| 0 <= j < cell_u32 ==> !crate::catastrophe::triggers::erupts(*old(state), j));
        assert(crate::catastrophe::volcanic::erupted(*old(state), *state, cell_u32 as int));
        assert(erupted_on(old_civ, *civ, cell_u32, frac@, a, s, tick));
        assert(raw == Real { bits: ratio_bits(5, 100) as i64 });
        assert(conds == conditions_at(state.temperature@, pressure@, *planet, cell_u32 as int, 0, 0));
        assert(call_ensures(*resist, (Real { bits: ratio_bits(5, 100) as i64 },), Real { bits: a as i64 }));
        assert(call_ensures(*tolerance, (conditions_at(state.temperature@, pressure@, *planet, cell_u32 as int, 0, 0),), Real { bits: s as i64 }));
        let rec = CatastropheRecord { kind: CatastropheKind::Volcanic, fraction_lost: frac };
        let out = Some(rec);
        assert(out->Some_0.fraction_lost@ == frac@);
        assert(eruption_witness(*old(civ), *civ, *old(state), *state, out->Some_0.fraction_lost@, *resist, *tolerance, pressure@, *planet, tick, cell_u32, a, s));
        assert(volcanic_result(*old(civ), *civ, *old(state), *state, out, *resist, *tolerance, pressure@, *planet, tick));
    }
    Some(CatastropheRecord { kind: CatastropheKind::Volcanic, fraction_lost: frac })
}

/// The per-tick catastrophe check for an active civ, in the fixed order
/// volcanic, disease, asteroid, solar flare, ice age: the first kind that
/// is off its cooldown and fires strikes (as its own handler states) and
/// its record is returned; the kinds after it are not tried, and only
/// the struck kind's state changes. An inactive civ, or a tick on which
/// no kind fires, changes nothing.
pub fn check_and_apply<R: Fn(Real) -> Real, T: Fn(CellConditions) -> Real>(
    civ: &mut CatastropheCiv,
    state: &mut PhysicsView,
    pressure: &Vec<Real>,
    planet: &CatastrophePlanet,
    capacity: Real,
    cosmic_flux: Real,
    tick: u64,
    width: u32,
    height: u32,
    resist: &R,
    tolerance: &T,
) -> (r: Option<CatastropheRecord>)
    requires
        old(civ).wf(width, height),
        old(civ).seed_bank.population@ + old(civ).population@ <= i64::MAX,
        cells_sum(old(civ).cells@) <= old(civ).population@,
        capacity@ > 0 ==> crate::arith::div_ok(old(civ).population@, capacity@),
        grid_ok(width, height),
        planet.wf(),
        old(state).wf(),
        old(state).n_cells() < 0x1_0000_0000,
        resist_ok(*resist),
        tolerance_ok(*tolerance),
    ensures
        !old(civ).active ==> r is None && *final(civ) == *old(civ) && *final(state) == *old(state),
        old(civ).active && volcanic_ready(*old(civ), *old(state), *planet, tick) ==> volcanic_result(
            *old(civ),
            *final(civ),
            *old(state),
            *final(state),
            r,
            *resist,
            *tolerance,
            pressure@,
            *planet,
            tick,
        ),
        old(civ).active && !volcanic_ready(*old(civ), *old(state), *planet, tick) ==> {
            let d = disease_ready(*old(civ), *planet, capacity@, tick);
            let a = asteroid_ready(*old(civ), *planet, tick);
            let f = solar_flare_ready(*old(civ), *planet, tick);
            let i = ice_age_ready(*old(civ), *planet, tick);
            &&& *final(state) == *old(state)
            &&& d ==> disease_result(*old(civ), *final(civ), r, *resist, *tolerance, old(state).temperature@, pressure@, *planet, tick, width, height)
            &&& !d && a ==> asteroid_result(*old(civ), *final(civ), r, *resist, *tolerance, old(state).temperature@, pressure@, *planet, tick, width, height)
            &&& !d && !a && f ==> solar_flare_result(*old(civ), *final(civ), r, *resist, *tolerance, old(state).temperature@, pressure@, *planet, cosmic_flux, tick, width, height)
            &&& !d && !a && !f && i ==> ice_age_result(*old(civ), *final(civ), r, *resist, *tolerance, old(state).temperature@, pressure@, *planet, tick, width, height)
            &&& !d && !a && !f && !i ==> r is None && *final(civ) == *old(civ)
        },
        final(civ).wf(width, height),
        final(state).wf(),
{
    if !civ.active {
        return None;
    }
    let v = try_volcanic_strike(civ, state, pressure, planet, tick, width, height, resist, tolerance);
    if v.is_some() {
        return v;
    }
    let d = try_disease(civ, state, pressure, planet, capacity, tick, width, height, resist, tolerance);
    if d.is_some() {
        return d;
    }
    let a = try_asteroid(civ, state, pressure, planet, tick, width, height, resist, tolerance);
    if a.is_some() {
        return a;
    }
    let f = try_solar_flare(civ, state, pressure, planet, cosmic_flux, tick, width, height, resist, tolerance);
    if f.is_some() {
        return f;
    }
    try_ice_age(civ, state, pressure, planet, tick, width, height, resist, tolerance)
}

} // verus!
