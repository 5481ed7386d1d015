//! `HypothesisEvent`: the per-tick output of the hypothesizer's step,
//! which the caller maps to protocol events.

use crate::arith::Real;
use crate::discovery::channels::Channel;
use crate::discovery::types::{ConfirmedMeasurement, ConfirmedRelation};
use crate::forms::Form;
use vstd::prelude::*;

verus! {

/// Event surfaced by the hypothesizer's step.
#[derive(Debug, Clone)]
pub enum HypothesisEvent {
    /// A relation cleared `exp(-1)` for the first time.
    Confirmed(ConfirmedRelation),
    RefinementProposed {
        relation_id: u32,
        template_id: u32,
        old_form: Form,
        new_form: Form,
        old_confidence: Real,
        n_samples: usize,
    },
    RefinementConfirmed {
        relation_id: u32,
        template_id: u32,
        /// Channel of the relation, to rescale `new_params` out of fit
        /// space.
        channel: Channel,
        old_form: Form,
        new_form: Form,
        new_params: Vec<Real>,
        new_residual: Real,
        new_confidence: Real,
        n_samples: usize,
    },
    RefinementRejected {
        relation_id: u32,
        template_id: u32,
        old_form: Form,
        attempted_form: Form,
        reason: String,
    },
    /// A measurement relation cleared `exp(-1)`.
    MeasurementConfirmed(ConfirmedMeasurement),
    /// A confirmed relation's residual stayed above `1.5 ×` its
    /// confirm-time residual for the trigger window.
    Falsified {
        relation_id: u32,
        template_id: u32,
        old_form: Form,
        streak_ticks: u64,
    },
    /// An inherited relation re-fit on the successor's own samples and
    /// graduated to native status.
    Revalidated {
        relation_id: u32,
        template_id: u32,
        from_civ_id: u32,
        new_residual: Real,
        new_confidence: Real,
    },
    /// An inherited relation failed to re-fit and was dropped.
    Lapsed {
        relation_id: u32,
        template_id: u32,
        from_civ_id: u32,
        attempted_form: Form,
    },
}

} // verus!
