//! Records ferried between the discovery pipeline's pieces: samples and
//! fit outcomes, candidate relations and measurements, residual bases,
//! confirmed relations and measurements, and refinement probation.

use crate::arith::Real;
use crate::discovery::channels::{
    measurement_relation_id, measurement_relation_id_spec, relation_id_spec, Channel,
    MeasurementChannel,
};
use crate::forms::Form;
use crate::transcendental::{exp, exp_bits, exp_ok};
use vstd::prelude::*;

verus! {

/// One observation: the channel reading `x` and the response `y`.
#[derive(Debug, Clone, Copy, PartialEq, Eq, Structural)]
pub struct Sample {
    pub x: Real,
    pub y: Real,
}

/// Bit pattern of `exp(-1)`, the confirmation threshold.
pub open spec fn exp_neg_one_bits() -> int {
    exp_bits(-4294967296)
}

/// Bit pattern of `exp(-2)`, the sustained-low-confidence threshold.
pub open spec fn exp_neg_two_bits() -> int {
    exp_bits(-8589934592)
}

/// `exp(-1)`.
pub fn exp_neg_one() -> (r: Real)
    ensures
        r@ == exp_neg_one_bits(),
{
    let x = Real::one().neg();
    proof {
        assert(crate::arith::mul_bits(-4294967296, 6196328019) == -6196328019);
        assert(crate::arith::round_even_int(-6196328019) == -1);
        assert(exp_ok(-4294967296));
    }
    exp(x)
}

/// `exp(-2)`.
pub fn exp_neg_two() -> (r: Real)
    ensures
        r@ == exp_neg_two_bits(),
{
    let x = Real::from_int(2).neg();
    proof {
        assert(crate::arith::mul_bits(-8589934592, 6196328019) == -12392656038);
        assert(crate::arith::round_even_int(-12392656038) == -3);
        assert(exp_ok(-8589934592));
    }
    exp(x)
}

/// The outcome of fitting one form to a sample window.
#[derive(Debug, Clone)]
pub struct FitResult {
    pub form: Form,
    pub params: Vec<Real>,
    pub residual: Real,
    pub confidence: Real,
    pub n_samples: usize,
}

impl FitResult {
    /// A fit confirms when its confidence reaches `exp(-1)`.
    pub open spec fn confirmed_spec(&self) -> bool {
        self.confidence@ >= exp_neg_one_bits()
    }

    /// Whether the fit's confidence clears `exp(-1)`.
    pub fn is_confirmed(&self) -> (b: bool)
        ensures
            b == self.confirmed_spec(),
    {
        let threshold = exp_neg_one();
        self.confidence.to_bits() >= threshold.to_bits()
    }
}

/// One candidate relation: how does template `template_id`'s firing
/// depend on `channel`?
#[derive(Debug, Clone, Copy, PartialEq, Eq, Structural)]
pub struct CandidateRelation {
    pub relation_id: u32,
    pub template_id: u32,
    pub channel: Channel,
}

/// Snapshot of a confirmed measurement relation that a child candidate
/// explains the residual of. Frozen at composition time.
#[derive(Debug, Clone)]
pub struct ResidualBasis {
    pub source_relation_id: u32,
    pub source_form: Form,
    pub source_params: Vec<Real>,
    pub source_x_channel: MeasurementChannel,
}

/// Candidate measurement relation between continuous `y` and `x`
/// readings, optionally fitting the residual of an earlier confirmed
/// measurement.
#[derive(Debug, Clone)]
pub struct MeasurementCandidate {
    pub relation_id: u32,
    pub y_channel: MeasurementChannel,
    pub x_channel: MeasurementChannel,
    pub residual_basis: Option<ResidualBasis>,
    /// Depth in the residual hierarchy: 0 for a base measurement.
    pub residual_depth: u32,
}

/// Relation id of a residual candidate: the base id mixed with the
/// source relation and depth (wrapping), folded into the `2 000 000+`
/// namespace.
pub open spec fn residual_relation_id(
    y: MeasurementChannel,
    x: MeasurementChannel,
    source_relation_id: u32,
    depth: u32,
) -> int {
    let base_id = measurement_relation_id_spec(y, x) as u32;
    let mixed = base_id.wrapping_add(source_relation_id.wrapping_mul(7919)).wrapping_add(
        depth.wrapping_mul(31_337),
    );
    2_000_000 + (mixed % 1_000_000)
}

impl MeasurementCandidate {
    /// A base measurement candidate for `(y, x)`.
    pub fn new(y_channel: MeasurementChannel, x_channel: MeasurementChannel) -> (m: Self)
        ensures
            m.relation_id == measurement_relation_id_spec(y_channel, x_channel),
            m.y_channel == y_channel,
            m.x_channel == x_channel,
            m.residual_basis is None,
            m.residual_depth == 0,
    {
        MeasurementCandidate {
            relation_id: measurement_relation_id(y_channel, x_channel),
            y_channel,
            x_channel,
            residual_basis: None,
            residual_depth: 0,
        }
    }

    /// A residual candidate for `(y, x)` against `basis`, at
    /// `residual_depth`; its id lies in `[2 000 000, 3 000 000)`.
    pub fn residual(
        y_channel: MeasurementChannel,
        x_channel: MeasurementChannel,
        basis: ResidualBasis,
        residual_depth: u32,
    ) -> (m: Self)
        ensures
            m.relation_id == residual_relation_id(
                y_channel,
                x_channel,
                basis.source_relation_id,
                residual_depth,
            ),
            2_000_000 <= m.relation_id < 3_000_000,
            m.y_channel == y_channel,
            m.x_channel == x_channel,
            m.residual_basis == Some(basis),
            m.residual_depth == residual_depth,
    {
        let base_id = measurement_relation_id(y_channel, x_channel);
        let mixed = base_id.wrapping_add(basis.source_relation_id.wrapping_mul(7919)).wrapping_add(
            residual_depth.wrapping_mul(31_337),
        );
        MeasurementCandidate {
            relation_id: 2_000_000 + (mixed % 1_000_000),
            y_channel,
            x_channel,
            residual_basis: Some(basis),
            residual_depth,
        }
    }
}

/// A confirmed measurement relation.
#[derive(Debug, Clone)]
pub struct ConfirmedMeasurement {
    pub relation_id: u32,
    pub y_channel: MeasurementChannel,
    pub x_channel: MeasurementChannel,
    pub form: Form,
    pub params: Vec<Real>,
    pub residual: Real,
    pub confidence: Real,
    pub n_samples: usize,
    pub confirmed_at_tick: u64,
    /// Some sample in the fit pool came from a controlled apparatus.
    pub is_experimental: bool,
}

/// Probation state of a relation under refinement.
#[derive(Debug, Clone, Copy, PartialEq, Eq, Structural)]
pub struct RefinementState {
    pub new_form: Form,
    pub proposed_at: u64,
    pub deadline: u64,
}

/// A confirmed relation: form, parameters and quality readings as of
/// the last fit, plus the refinement and revalidation bookkeeping.
#[derive(Debug, Clone)]
pub struct ConfirmedRelation {
    pub relation_id: u32,
    pub template_id: u32,
    pub channel: Channel,
    pub form: Form,
    pub params: Vec<Real>,
    pub residual: Real,
    pub confidence: Real,
    pub n_samples: usize,
    pub confirmed_at_tick: u64,
    /// Consecutive steps with `confidence ≤ exp(-2)`.
    pub low_confidence_streak: u64,
    /// Earliest tick at which a new refinement may trigger.
    pub cooldown_until: u64,
    /// The candidate form on probation, if any.
    pub refinement: Option<RefinementState>,
    /// Residual at confirmation time, the prediction-drift baseline.
    pub initial_residual: Real,
    /// Consecutive steps with residual above `1.5 ×` the baseline.
    pub falsification_streak: u64,
    /// Tick at which the relation was inherited from a parent civ.
    pub inherited_from_tick: Option<u64>,
    /// Civ the relation was inherited from.
    pub inherited_from_civ_id: Option<u32>,
}

/// Two confirmed relations agree on every field (parameters by value).
pub open spec fn same_relation(a: ConfirmedRelation, b: ConfirmedRelation) -> bool {
    &&& a.relation_id == b.relation_id
    &&& a.template_id == b.template_id
    &&& a.channel == b.channel
    &&& a.form == b.form
    &&& a.params@ == b.params@
    &&& a.residual == b.residual
    &&& a.confidence == b.confidence
    &&& a.n_samples == b.n_samples
    &&& a.confirmed_at_tick == b.confirmed_at_tick
    &&& a.low_confidence_streak == b.low_confidence_streak
    &&& a.cooldown_until == b.cooldown_until
    &&& a.refinement == b.refinement
    &&& a.initial_residual == b.initial_residual
    &&& a.falsification_streak == b.falsification_streak
    &&& a.inherited_from_tick == b.inherited_from_tick
    &&& a.inherited_from_civ_id == b.inherited_from_civ_id
}

/// Copy a parameter vector.
pub fn copy_params(p: &Vec<Real>) -> (r: Vec<Real>)
    ensures
        r@ == p@,
{
    let mut r: Vec<Real> = Vec::new();
    let mut i: usize = 0;
    while i < p.len()
        invariant
            i <= p.len(),
            r@ == p@.subrange(0, i as int),
        decreases p.len() - i,
    {
        r.push(p[i]);
        proof {
            assert(r@ =~= p@.subrange(0, i + 1));
        }
        i = i + 1;
    }
    proof {
        assert(p@.subrange(0, i as int) =~= p@);
    }
    r
}

impl ConfirmedRelation {
    /// A field-for-field copy.
    pub fn duplicate(&self) -> (r: Self)
        ensures
            same_relation(r, *self),
    {
        ConfirmedRelation {
            relation_id: self.relation_id,
            template_id: self.template_id,
            channel: self.channel,
            form: self.form,
            params: copy_params(&self.params),
            residual: self.residual,
            confidence: self.confidence,
            n_samples: self.n_samples,
            confirmed_at_tick: self.confirmed_at_tick,
            low_confidence_streak: self.low_confidence_streak,
            cooldown_until: self.cooldown_until,
            refinement: self.refinement,
            initial_residual: self.initial_residual,
            falsification_streak: self.falsification_streak,
            inherited_from_tick: self.inherited_from_tick,
            inherited_from_civ_id: self.inherited_from_civ_id,
        }
    }
}

/// A candidate's id is the stable id of its `(template, channel)`.
pub open spec fn candidate_wf(c: CandidateRelation) -> bool {
    c.relation_id == relation_id_spec(c.template_id as int, c.channel)
}

} // verus!
