//! Cultural-influence hooks read by the discovery pipeline.
//!
//! - `allow_observation`: observation suppression; never suppresses
//!   until per-cell taboo state exists.
//! - `focus_weight_for`: a global attention weight from the civ's
//!   empirical and reformist axes.
//! - `suppress_confidence_for`: the multiplier applied to a fit's
//!   confidence before the `≥ exp(-1)` confirmation gate.

use crate::arith::{clamp01_bits, mul_bits, mul_ok, ratio_bits, scale, Real};
use crate::cosmology::{dogmatism_rel, form_distance, form_distance_raw, Cosmology};
use crate::discovery::types::Sample;
use crate::forms::Form;
use crate::transcendental::{abs_int, lemma_mul_bits_bound};
use vstd::prelude::*;

verus! {

/// Per-template observation-suppression probability: always zero
/// until per-cell taboo state is wired.
pub fn allow_observation_suppression(template_id: u32, cell: u32, dogmatism: Real) -> (r: Real)
    ensures
        r@ == 0,
{
    Real::zero()
}

/// Whether a template's firing at a cell may be observed: always.
pub fn allow_observation(template_id: u32, cell: u32) -> (b: bool)
    ensures
        b,
{
    true
}

/// Focus weight `1 + 0.25·empirical + 0.25·reformist`, as computed.
pub open spec fn focus_weight_bits(c: Cosmology) -> int {
    scale() + mul_bits(1073741824, c.empirical@) + mul_bits(1073741824, c.reformist@)
}

/// Focus weight in `[0.5, 1.5]`, from the civ's cosmology.
pub fn focus_weight_for(relation_id: u32, cosmology: &Cosmology) -> (r: Real)
    requires
        cosmology.wf(),
    ensures
        r@ == focus_weight_bits(*cosmology),
        scale() / 2 - 2 <= r@ <= scale() + scale() / 2,
{
    let bonus = Real::from_ratio(25, 100);
    proof {
        assert(ratio_bits(25, 100) == 1073741824);
        lemma_quarter_product(cosmology.empirical@);
        lemma_quarter_product(cosmology.reformist@);
    }
    Real::one().add(bonus.mul(cosmology.empirical)).add(bonus.mul(cosmology.reformist))
}

/// A quarter of a unit value is at most a quarter in magnitude.
proof fn lemma_quarter_product(a: int)
    requires
        -scale() <= a <= scale(),
    ensures
        mul_ok(1073741824, a),
        -1073741825 <= mul_bits(1073741824, a) <= 1073741824,
{
    lemma_mul_bits_bound(1073741824, a);
    assert(1073741824 * a <= 1073741824 * scale()) by (nonlinear_arith) requires a <= scale();
    assert(1073741824 * a >= -1073741824 * scale()) by (nonlinear_arith) requires a >= -scale();
    vstd::arithmetic::div_mod::lemma_div_is_ordered(1073741824 * a, 1073741824 * scale(), scale());
    vstd::arithmetic::div_mod::lemma_div_is_ordered(-1073741824 * scale(), 1073741824 * a, scale());
    assert((1073741824 * scale()) / scale() == 1073741824);
    assert((-1073741824 * scale()) / scale() == -1073741824);
}

/// Focus weight without a cosmology: one.
pub fn focus_weight(relation_id: u32) -> (r: Real)
    ensures
        r@ == scale(),
{
    Real::one()
}

/// The confidence-suppression factor for a form under a cosmology
/// whose dogmatism is `dog`: `clamp01(1 − dog × form_distance)`.
pub open spec fn suppression_bits(dog: int, dist: int) -> int {
    clamp01_bits(scale() - mul_bits(dog, dist))
}

/// Confidence-suppression multiplier in `[0, 1]`: dogmatic civs
/// confirm heretical forms at a fraction of the base rate.
pub fn suppress_confidence_for(form: Form, cosmology: &Cosmology) -> (r: Real)
    requires
        cosmology.wf(),
    ensures
        0 <= r@ <= scale(),
        exists|dog: int|
            #![trigger suppression_bits(dog, clamp01_bits(form_distance_raw(form, *cosmology)))]
            dogmatism_rel(*cosmology, dog) && r@ == suppression_bits(
                dog,
                clamp01_bits(form_distance_raw(form, *cosmology)),
            ),
{
    let dog = cosmology.dogmatism();
    suppress_confidence_with(form, cosmology, dog)
}

/// The suppression multiplier for a form, given the civ's dogmatism
/// `dog ∈ [0, 1]`: `clamp01(1 − dog × form_distance)`.
pub fn suppress_confidence_with(form: Form, cosmology: &Cosmology, dog: Real) -> (r: Real)
    requires
        cosmology.wf(),
        0 <= dog@ <= scale(),
    ensures
        r@ == suppression_bits(dog@, clamp01_bits(form_distance_raw(form, *cosmology))),
        0 <= r@ <= scale(),
{
    let dist = form_distance(form, cosmology);
    proof {
        lemma_mul_bits_bound(dog@, dist@);
        assert(dog@ * dist@ <= scale() * scale()) by (nonlinear_arith)
            requires 0 <= dog@ <= scale(), 0 <= dist@ <= scale();
        assert(dog@ * dist@ >= 0) by (nonlinear_arith) requires 0 <= dog@, 0 <= dist@;
        assert(abs_int(dog@) * abs_int(dist@) == dog@ * dist@);
        assert(mul_bits(dog@, dist@) <= scale() + 1) by (nonlinear_arith)
            requires scale() * abs_int(mul_bits(dog@, dist@)) <= dog@ * dist@ + scale(),
                dog@ * dist@ <= scale() * scale(), scale() > 0;
    }
    Real::one().sub(dog.mul(dist)).clamp01()
}

/// Confidence passthrough when no cosmology is in scope.
pub fn suppress_confidence(relation_id: u32, raw_confidence: Real) -> (r: Real)
    ensures
        r == raw_confidence,
{
    raw_confidence
}

/// Sample gate: every sample passes.
pub fn gate_samples(samples: Vec<Sample>) -> (r: Vec<Sample>)
    ensures
        r@ == samples@,
{
    samples
}

} // verus!
