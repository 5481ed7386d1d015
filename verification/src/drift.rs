//! Per-civ species drift. A successor civ inherits its parent's trait
//! deltas plus a small deterministic perturbation, drawn from a ChaCha20
//! stream seeded by `(planet seed, child civ id, trait channel)` so a
//! replay reproduces every step.

use crate::arith::{clamp01_bits, int_bits, max_bits, min_bits, mul_bits, mul_ok, ratio_bits, scale, fits, Real};
use crate::transcendental::abs_int;
use crate::world::CognitionTopology;
use rand::Rng;
use rand_chacha::rand_core::SeedableRng;
use vstd::prelude::*;

verus! {

/// Seed of the drift stream of one `(planet, child civ, channel)`:
/// `(planet_seed · φ64 + child) · 0xBF58476D1CE4E5B9 + channel`, all
/// wrapping at 2^64.
pub open spec fn drift_seed_spec(planet_seed: u64, child_civ_id: u32, channel: u8) -> int {
    let m = 0x1_0000_0000_0000_0000int;
    let a = (planet_seed * 0x9E37_79B9_7F4A_7C15int) % m;
    let b = (a + child_civ_id) % m;
    let c = (b * 0xBF58_476D_1CE4_E5B9int) % m;
    (c + channel) % m
}

/// Deterministic drift seed mixer.
#[verifier::spinoff_prover]
pub fn drift_seed(planet_seed: u64, child_civ_id: u32, channel: u8) -> (s: u64)
    ensures
        s == drift_seed_spec(planet_seed, child_civ_id, channel),
{
    let a = planet_seed.wrapping_mul(0x9E37_79B9_7F4A_7C15);
    let b = a.wrapping_add(child_civ_id as u64);
    let c = b.wrapping_mul(0xBF58_476D_1CE4_E5B9);
    c.wrapping_add(channel as u64)
}

/// The first draw from `[0, 2 000 000)` of a ChaCha20 stream seeded with
/// `seed` through `SeedableRng::seed_from_u64`.
pub uninterp spec fn chacha_draw_2m(seed: u64) -> int;

/// `ChaCha20Rng::seed_from_u64(seed).gen_range(0i64..2_000_000)`: a pure
/// function of the seed (the stream is deterministic), and, as
/// `gen_range` documents for a non-empty half-open range, a value of
/// that range. Which value is not stated.
#[verifier::external_body]
fn chacha_draw(seed: u64) -> (r: i64)
    ensures
        r == chacha_draw_2m(seed),
        0 <= r < 2_000_000,
{
    let mut rng = rand_chacha::ChaCha20Rng::seed_from_u64(seed);
    rng.gen_range(0i64..2_000_000)
}

/// The drift step of one channel for a draw `raw` in `[0, 2 000 000)`:
/// `(raw − 1 000 000) / 1 000 000 × step_size`, in `[−step, step]`.
pub open spec fn drift_step_bits(raw: int, step_size: int) -> int {
    mul_bits(ratio_bits(raw - 1_000_000, 1_000_000), step_size)
}

/// The per-generation drift step of one trait channel, uniform in
/// `[−step_size, step_size]` (up to rounding) and fixed by
/// `(planet_seed, child_civ_id, channel)`.
pub fn derive_drift_step(planet_seed: u64, child_civ_id: u32, channel: u8, step_size: Real) -> (r: Real)
    requires
        step_size@ != i64::MIN,
    ensures
        r@ == drift_step_bits(
            chacha_draw_2m(drift_seed_spec(planet_seed, child_civ_id, channel) as u64),
            step_size@,
        ),
        -abs_int(step_size@) <= r@ <= abs_int(step_size@),
{
    let seed = drift_seed(planet_seed, child_civ_id, channel);
    let draw = chacha_draw(seed);
    proof {
        lemma_step_bound(draw as int, step_size@);
    }
    let raw = draw - 1_000_000;
    let unit = Real::from_ratio(raw, 1_000_000);
    proof {
        crate::transcendental::lemma_div_int_bound(crate::arith::int_bits(raw as int), 1_000_000);
        assert(crate::transcendental::abs_int(unit@) <= scale());
        assert(mul_ok(unit@, step_size@)) by (nonlinear_arith)
            requires
                -0x7fff_ffff_ffff_ffff <= step_size@ <= 0x7fff_ffff_ffff_ffff,
                -4294967296 <= unit@ <= 4294967296;
    }
    unit.mul(step_size)
}

/// A species trait with a civ's drift folded in, clamped to `[0, 1]`.
pub open spec fn effective_trait_bits(species_value: int, delta: int) -> int {
    clamp01_bits(species_value + delta)
}

/// The civ-specific value of a `[0, 1]` species trait (sociality,
/// communication fidelity, or cognition before any quorum penalty).
pub fn effective_trait(species_value: Real, delta: Real) -> (r: Real)
    requires
        fits(species_value@ + delta@),
    ensures
        r@ == effective_trait_bits(species_value@, delta@),
        0 <= r@ <= scale(),
{
    species_value.add(delta).clamp01()
}


/// Effective sociality: the species' sociality plus the civ's drift,
/// clamped to `[0, 1]`.
pub fn effective_sociality(species_sociality: Real, sociality_delta: Real) -> (r: Real)
    requires
        fits(species_sociality@ + sociality_delta@),
    ensures
        r@ == effective_trait_bits(species_sociality@, sociality_delta@),
{
    effective_trait(species_sociality, sociality_delta)
}

/// Effective communication fidelity: the species' fidelity plus the
/// civ's drift, clamped to `[0, 1]`.
pub fn effective_communication_fidelity(species_fidelity: Real, fidelity_delta: Real) -> (r: Real)
    requires
        fits(species_fidelity@ + fidelity_delta@),
    ensures
        r@ == effective_trait_bits(species_fidelity@, fidelity_delta@),
{
    effective_trait(species_fidelity, fidelity_delta)
}

/// A civ's accumulated drift on the four trait channels.
#[derive(Debug, Clone, Copy, PartialEq, Eq, Structural)]
pub struct TraitDrift {
    pub cognition: Real,
    pub sociality: Real,
    pub lifespan_years: Real,
    pub communication_fidelity: Real,
}

impl TraitDrift {
    /// No drift on any channel.
    pub fn zero() -> (d: TraitDrift)
        ensures
            d.cognition@ == 0 && d.sociality@ == 0 && d.lifespan_years@ == 0 && d.communication_fidelity@ == 0,
    {
        TraitDrift {
            cognition: Real::zero(),
            sociality: Real::zero(),
            lifespan_years: Real::zero(),
            communication_fidelity: Real::zero(),
        }
    }
}

/// The drift step of `channel` for a child civ.
pub open spec fn channel_step(planet_seed: u64, child_civ_id: u32, channel: u8, step: int) -> int {
    drift_step_bits(chacha_draw_2m(drift_seed_spec(planet_seed, child_civ_id, channel) as u64), step)
}

/// `base ± |step|` stays representable, so any drift step of at most
/// `step` can be added to `base`.
pub open spec fn room_for_step(base: int, step: int) -> bool {
    fits(base + abs_int(step)) && fits(base - abs_int(step))
}

/// A drift step lies within `±|step|`.
proof fn lemma_step_bound(raw: int, step: int)
    requires
        0 <= raw < 2_000_000,
        -0x7fff_ffff_ffff_ffff <= step <= 0x7fff_ffff_ffff_ffff,
    ensures
        -abs_int(step) <= drift_step_bits(raw, step) <= abs_int(step),
{
    let u = ratio_bits(raw - 1_000_000, 1_000_000);
    crate::transcendental::lemma_div_int_bound(int_bits(raw - 1_000_000), 1_000_000);
    assert(abs_int(u) <= scale());
    let p = u * step;
    assert(-abs_int(step) * scale() <= p <= abs_int(step) * scale()) by (nonlinear_arith)
        requires p == u * step, -scale() <= u <= scale(), scale() == 4294967296;
    assert(mul_bits(u, step) == p / scale());
    vstd::arithmetic::div_mod::lemma_div_is_ordered(p, abs_int(step) * scale(), scale());
    vstd::arithmetic::div_mod::lemma_div_is_ordered(-abs_int(step) * scale(), p, scale());
    vstd::arithmetic::div_mod::lemma_div_multiples_vanish(abs_int(step), scale());
    vstd::arithmetic::div_mod::lemma_div_multiples_vanish(-abs_int(step), scale());
    assert(abs_int(step) * scale() == scale() * abs_int(step)) by (nonlinear_arith);
    assert(-abs_int(step) * scale() == scale() * (-abs_int(step))) by (nonlinear_arith);
}

/// One drifted channel: `base + step`, the step fixed by the seed.
fn drifted(base: Real, planet_seed: u64, child_civ_id: u32, channel: u8, step: Real) -> (r: Real)
    requires
        step@ != i64::MIN,
        room_for_step(base@, step@),
    ensures
        r@ == base@ + channel_step(planet_seed, child_civ_id, channel, step@),
{
    let d = derive_drift_step(planet_seed, child_civ_id, channel, step);
    base.add(d)
}


/// A successor's drift: on each channel the parent's delta plus `bias`
/// plus the channel's drift step (`trait_step` for cognition, sociality
/// and communication fidelity on channels 0, 1 and 3; `lifespan_step`
/// for lifespan on channel 2).
pub open spec fn inherited_drift(
    parent: TraitDrift,
    bias: TraitDrift,
    planet_seed: u64,
    child_civ_id: u32,
    trait_step: int,
    lifespan_step: int,
) -> (int, int, int, int) {
    (
        parent.cognition@ + bias.cognition@ + channel_step(planet_seed, child_civ_id, 0, trait_step),
        parent.sociality@ + bias.sociality@ + channel_step(planet_seed, child_civ_id, 1, trait_step),
        parent.lifespan_years@ + bias.lifespan_years@ + channel_step(planet_seed, child_civ_id, 2, lifespan_step),
        parent.communication_fidelity@ + bias.communication_fidelity@ + channel_step(
            planet_seed,
            child_civ_id,
            3,
            trait_step,
        ),
    )
}

/// Every channel of `parent + bias` has room for a step of the given size.
pub open spec fn inherit_ok(parent: TraitDrift, bias: TraitDrift, trait_step: int, lifespan_step: int) -> bool {
    &&& trait_step != i64::MIN
    &&& lifespan_step != i64::MIN
    &&& fits(parent.cognition@ + bias.cognition@)
    &&& fits(parent.sociality@ + bias.sociality@)
    &&& fits(parent.lifespan_years@ + bias.lifespan_years@)
    &&& fits(parent.communication_fidelity@ + bias.communication_fidelity@)
    &&& room_for_step(parent.cognition@ + bias.cognition@, trait_step)
    &&& room_for_step(parent.sociality@ + bias.sociality@, trait_step)
    &&& room_for_step(parent.lifespan_years@ + bias.lifespan_years@, lifespan_step)
    &&& room_for_step(parent.communication_fidelity@ + bias.communication_fidelity@, trait_step)
}

fn drift_all(
    parent: &TraitDrift,
    bias: &TraitDrift,
    planet_seed: u64,
    child_civ_id: u32,
    trait_step: Real,
    lifespan_step: Real,
) -> (d: TraitDrift)
    requires
        inherit_ok(*parent, *bias, trait_step@, lifespan_step@),
    ensures
        (d.cognition@, d.sociality@, d.lifespan_years@, d.communication_fidelity@) == inherited_drift(
            *parent,
            *bias,
            planet_seed,
            child_civ_id,
            trait_step@,
            lifespan_step@,
        ),
{
    TraitDrift {
        cognition: drifted(parent.cognition.add(bias.cognition), planet_seed, child_civ_id, 0, trait_step),
        sociality: drifted(parent.sociality.add(bias.sociality), planet_seed, child_civ_id, 1, trait_step),
        lifespan_years: drifted(
            parent.lifespan_years.add(bias.lifespan_years),
            planet_seed,
            child_civ_id,
            2,
            lifespan_step,
        ),
        communication_fidelity: drifted(
            parent.communication_fidelity.add(bias.communication_fidelity),
            planet_seed,
            child_civ_id,
            3,
            trait_step,
        ),
    }
}

/// A successor civ inherits its parent's drift plus a per-generation
/// step on each channel, keyed by `(planet_seed, child_civ_id, channel)`
/// so a replay reproduces it: `trait_step` bounds the cognition,
/// sociality and communication-fidelity steps, `lifespan_step` the
/// lifespan step (in years).
pub fn inherit_species_drift(
    parent: &TraitDrift,
    planet_seed: u64,
    child_civ_id: u32,
    trait_step: Real,
    lifespan_step: Real,
) -> (d: TraitDrift)
    requires
        inherit_ok(*parent, TraitDrift { cognition: Real { bits: 0 }, sociality: Real { bits: 0 }, lifespan_years: Real { bits: 0 }, communication_fidelity: Real { bits: 0 } }, trait_step@, lifespan_step@),
    ensures
        (d.cognition@, d.sociality@, d.lifespan_years@, d.communication_fidelity@) == inherited_drift(
            *parent,
            TraitDrift { cognition: Real { bits: 0 }, sociality: Real { bits: 0 }, lifespan_years: Real { bits: 0 }, communication_fidelity: Real { bits: 0 } },
            planet_seed,
            child_civ_id,
            trait_step@,
            lifespan_step@,
        ),
{
    let zero = TraitDrift::zero();
    drift_all(parent, &zero, planet_seed, child_civ_id, trait_step, lifespan_step)
}

/// The environment-aware inheritance: the parent's drift plus the
/// selection bias it accumulated from catastrophes, plus steps whose size
/// is scaled by the substrate and biosphere band factor `env_factor`.
/// The child starts with no selection bias of its own (the second
/// result).
pub fn inherit_species_drift_with_environment(
    parent: &TraitDrift,
    parent_selection_bias: &TraitDrift,
    planet_seed: u64,
    child_civ_id: u32,
    trait_step: Real,
    lifespan_step: Real,
    env_factor: Real,
) -> (r: (TraitDrift, TraitDrift))
    requires
        mul_ok(trait_step@, env_factor@),
        mul_ok(lifespan_step@, env_factor@),
        inherit_ok(
            *parent,
            *parent_selection_bias,
            mul_bits(trait_step@, env_factor@),
            mul_bits(lifespan_step@, env_factor@),
        ),
    ensures
        (r.0.cognition@, r.0.sociality@, r.0.lifespan_years@, r.0.communication_fidelity@) == inherited_drift(
            *parent,
            *parent_selection_bias,
            planet_seed,
            child_civ_id,
            mul_bits(trait_step@, env_factor@),
            mul_bits(lifespan_step@, env_factor@),
        ),
        r.1.cognition@ == 0 && r.1.sociality@ == 0 && r.1.lifespan_years@ == 0 && r.1.communication_fidelity@ == 0,
{
    let t = trait_step.mul(env_factor);
    let l = lifespan_step.mul(env_factor);
    (drift_all(parent, parent_selection_bias, planet_seed, child_civ_id, t, l), TraitDrift::zero())
}

/// Effective lifespan in years: the species lifespan plus the drift,
/// stretched by `1 + tool_extension`, clamped to `[1, 1000]`.
pub open spec fn effective_lifespan_bits(species_lifespan: int, delta: int, tool_extension: int) -> int {
    let raw = species_lifespan + delta;
    min_bits(max_bits(mul_bits(raw, scale() + tool_extension), scale()), int_bits(1000))
}

/// The civ's effective lifespan in years.
pub fn effective_lifespan_years(species_lifespan: Real, delta: Real, tool_extension: Real) -> (r: Real)
    requires
        fits(species_lifespan@ + delta@),
        fits(scale() + tool_extension@),
        mul_ok(species_lifespan@ + delta@, scale() + tool_extension@),
    ensures
        r@ == effective_lifespan_bits(species_lifespan@, delta@, tool_extension@),
        scale() <= r@ <= int_bits(1000),
{
    let raw = species_lifespan.add(delta);
    let extension = Real::one().add(tool_extension);
    raw.mul(extension).max(Real::one()).min(Real::from_int(1000))
}


/// The castes of a eusocial colony.
#[derive(Debug, Clone, Copy, PartialEq, Eq, Structural)]
pub enum CasteRole {
    Reproductive,
    Worker,
    Soldier,
    Nurse,
}

/// The quorum population of a collective species (100).
pub open spec fn collective_quorum_bits() -> int {
    int_bits(100)
}

/// Per-caste share of the quorum, in percent: reproductives 1, workers
/// 50, soldiers 10, nurses 10.
pub open spec fn caste_quorum_pct(role: CasteRole) -> int {
    match role {
        CasteRole::Reproductive => 1,
        CasteRole::Worker => 50,
        CasteRole::Soldier => 10,
        CasteRole::Nurse => 10,
    }
}

/// A caste's minimum headcount: the quorum times its share.
pub open spec fn caste_minimum_bits(role: CasteRole) -> int {
    mul_bits(collective_quorum_bits(), ratio_bits(caste_quorum_pct(role), 100))
}

/// A caste's minimum headcount.
pub fn caste_minimum(role: CasteRole) -> (r: Real)
    ensures
        r@ == caste_minimum_bits(role),
{
    let pct: i64 = match role {
        CasteRole::Reproductive => 1,
        CasteRole::Worker => 50,
        CasteRole::Soldier => 10,
        CasteRole::Nurse => 10,
    };
    proof {
        crate::arith::lemma_ratio_unit(pct as int, 100);
        assert(mul_ok(int_bits(100), ratio_bits(pct as int, 100))) by (nonlinear_arith)
            requires
                int_bits(100) == 429496729600,
                0 <= ratio_bits(pct as int, 100) <= 4294967296;
    }
    Real::from_int(100).mul(Real::from_ratio(pct, 100))
}

/// Whether a collective civ is above quorum: a eusocial colony (castes
/// given, in the order reproductive, worker, soldier, nurse) needs every
/// caste at its minimum; otherwise the total population must reach the
/// quorum.
pub open spec fn quorum_met(castes: Option<[Real; 4]>, total: int) -> bool {
    match castes {
        Some(c) => c@[0]@ >= caste_minimum_bits(CasteRole::Reproductive) && c@[1]@ >= caste_minimum_bits(
            CasteRole::Worker,
        ) && c@[2]@ >= caste_minimum_bits(CasteRole::Soldier) && c@[3]@ >= caste_minimum_bits(
            CasteRole::Nurse,
        ),
        None => total >= collective_quorum_bits(),
    }
}

/// The caste-aware collective quorum check.
pub fn meets_collective_quorum(castes: Option<[Real; 4]>, total: Real) -> (b: bool)
    ensures
        b == quorum_met(castes, total@),
{
    match castes {
        Some(c) => {
            c[0].bits >= caste_minimum(CasteRole::Reproductive).bits && c[1].bits >= caste_minimum(
                CasteRole::Worker,
            ).bits && c[2].bits >= caste_minimum(CasteRole::Soldier).bits && c[3].bits >= caste_minimum(
                CasteRole::Nurse,
            ).bits
        },
        None => total.bits >= Real::from_int(100).bits,
    }
}


/// Effective cognition: the species cognition plus the drift, clamped
/// to `[0, 1]`; a collective species below quorum thinks at the
/// isolation penalty of 5% of that, clamped again.
pub open spec fn effective_cognition_bits(
    species_cognition: int,
    delta: int,
    topology: CognitionTopology,
    castes: Option<[Real; 4]>,
    total: int,
) -> int {
    let base = clamp01_bits(species_cognition + delta);
    if topology == CognitionTopology::Collective && !quorum_met(castes, total) {
        clamp01_bits(mul_bits(base, ratio_bits(5, 100)))
    } else {
        base
    }
}

/// The civ's effective cognition under the caste-aware quorum gate.
pub fn effective_cognition(
    species_cognition: Real,
    delta: Real,
    topology: CognitionTopology,
    castes: Option<[Real; 4]>,
    total: Real,
) -> (r: Real)
    requires
        fits(species_cognition@ + delta@),
    ensures
        r@ == effective_cognition_bits(species_cognition@, delta@, topology, castes, total@),
        0 <= r@ <= scale(),
{
    let base = species_cognition.add(delta).clamp01();
    let collective = match topology {
        CognitionTopology::Collective => true,
        _ => false,
    };
    if collective && !meets_collective_quorum(castes, total) {
        proof {
            crate::arith::lemma_ratio_unit(5, 100);
            crate::arith::lemma_mul_unit(base@, ratio_bits(5, 100));
        }
        base.mul(Real::from_ratio(5, 100)).clamp01()
    } else {
        base
    }
}


/// One channel of the selection bias after a catastrophe: the
/// accumulated value held within `[-ceiling, ceiling]`.
pub open spec fn capped_bits(v: int, ceiling: int) -> int {
    max_bits(min_bits(v, ceiling), -ceiling)
}

/// The bias channels after recording `contribution` on top of `bias`,
/// with the trait channels capped at `trait_ceiling` and the lifespan
/// channel at `lifespan_ceiling`.
pub open spec fn bias_after(bias: TraitDrift, contribution: TraitDrift, trait_ceiling: int, lifespan_ceiling: int) -> (
    int,
    int,
    int,
    int,
) {
    (
        capped_bits(bias.cognition@ + contribution.cognition@, trait_ceiling),
        capped_bits(bias.sociality@ + contribution.sociality@, trait_ceiling),
        capped_bits(bias.lifespan_years@ + contribution.lifespan_years@, lifespan_ceiling),
        capped_bits(bias.communication_fidelity@ + contribution.communication_fidelity@, trait_ceiling),
    )
}

/// The channel sums of `bias + contribution` are representable.
pub open spec fn bias_sum_ok(bias: TraitDrift, contribution: TraitDrift) -> bool {
    &&& fits(bias.cognition@ + contribution.cognition@)
    &&& fits(bias.sociality@ + contribution.sociality@)
    &&& fits(bias.lifespan_years@ + contribution.lifespan_years@)
    &&& fits(bias.communication_fidelity@ + contribution.communication_fidelity@)
}

fn capped(v: Real, ceiling: Real) -> (r: Real)
    requires
        ceiling@ != i64::MIN,
    ensures
        r@ == capped_bits(v@, ceiling@),
{
    v.min(ceiling).max(ceiling.neg())
}

/// Record a catastrophe's selection pressure: add its per-channel
/// contribution to the running bias, then cap each channel so that an
/// unbounded run of catastrophes cannot swamp the inherited drift.
pub fn record_catastrophe_selection_bias(
    bias: &mut TraitDrift,
    contribution: TraitDrift,
    trait_ceiling: Real,
    lifespan_ceiling: Real,
)
    requires
        bias_sum_ok(*old(bias), contribution),
        trait_ceiling@ != i64::MIN,
        lifespan_ceiling@ != i64::MIN,
    ensures
        (final(bias).cognition@, final(bias).sociality@, final(bias).lifespan_years@, final(bias).communication_fidelity@)
            == bias_after(*old(bias), contribution, trait_ceiling@, lifespan_ceiling@),
{
    let cognition = capped(bias.cognition.add(contribution.cognition), trait_ceiling);
    let sociality = capped(bias.sociality.add(contribution.sociality), trait_ceiling);
    let lifespan_years = capped(bias.lifespan_years.add(contribution.lifespan_years), lifespan_ceiling);
    let communication_fidelity = capped(
        bias.communication_fidelity.add(contribution.communication_fidelity),
        trait_ceiling,
    );
    *bias = TraitDrift { cognition, sociality, lifespan_years, communication_fidelity };
}

/// Whatever the bias held before and whatever a catastrophe
/// contributes, every channel of the recorded bias lies within its
/// ceiling.
pub proof fn lemma_selection_bias_stays_capped(
    bias: TraitDrift,
    contribution: TraitDrift,
    trait_ceiling: int,
    lifespan_ceiling: int,
)
    requires
        trait_ceiling >= 0,
        lifespan_ceiling >= 0,
    ensures
        -trait_ceiling <= bias_after(bias, contribution, trait_ceiling, lifespan_ceiling).0 <= trait_ceiling,
        -trait_ceiling <= bias_after(bias, contribution, trait_ceiling, lifespan_ceiling).1 <= trait_ceiling,
        -lifespan_ceiling <= bias_after(bias, contribution, trait_ceiling, lifespan_ceiling).2 <= lifespan_ceiling,
        -trait_ceiling <= bias_after(bias, contribution, trait_ceiling, lifespan_ceiling).3 <= trait_ceiling,
{
}

/// Whether any drift channel has moved at least `half_trait` (the
/// trait channels) or `half_lifespan` (the lifespan channel) from zero.
pub open spec fn meaningful_drift(d: TraitDrift, half_trait: int, half_lifespan: int) -> bool {
    ||| abs_int(d.cognition@) >= half_trait
    ||| abs_int(d.sociality@) >= half_trait
    ||| abs_int(d.communication_fidelity@) >= half_trait
    ||| abs_int(d.lifespan_years@) >= half_lifespan
}

/// True if any drift channel has accumulated at least half a drift step
/// away from zero: half of `trait_step_num / trait_step_den` on the
/// trait channels, half of `lifespan_step_years` on the lifespan.
pub fn has_meaningful_drift(drift: &TraitDrift, trait_step_num: i64, trait_step_den: i64, lifespan_step_years: i64) -> (b: bool)
    requires
        crate::arith::int_ok(trait_step_num as int),
        crate::arith::int_ok(trait_step_den * 2),
        trait_step_den != 0,
        crate::arith::int_ok(lifespan_step_years as int),
        drift.cognition@ != i64::MIN,
        drift.sociality@ != i64::MIN,
        drift.lifespan_years@ != i64::MIN,
        drift.communication_fidelity@ != i64::MIN,
    ensures
        b == meaningful_drift(
            *drift,
            ratio_bits(trait_step_num as int, trait_step_den * 2),
            ratio_bits(lifespan_step_years as int, 2),
        ),
{
    let half_trait = Real::from_ratio(trait_step_num, trait_step_den * 2);
    let half_lifespan = Real::from_ratio(lifespan_step_years, 2);
    drift.cognition.abs().bits >= half_trait.bits || drift.sociality.abs().bits >= half_trait.bits
        || drift.communication_fidelity.abs().bits >= half_trait.bits
        || drift.lifespan_years.abs().bits >= half_lifespan.bits
}

} // verus!
