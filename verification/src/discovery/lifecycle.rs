//! The lifecycle of a confirmed relation, phase by phase: revalidation
//! of inherited relations, the prediction-drift streak, probation of a
//! proposed refinement, the low-confidence streak, and the choice of a
//! refinement.

use crate::arith::{div_bits, div_ok, fits, int_bits, max_bits, mul_bits, mul_ok, ratio_bits, scale, Real};
use crate::discovery::events::HypothesisEvent;
use crate::discovery::types::{
    copy_params, exp_neg_two, exp_neg_two_bits, ConfirmedRelation, FitResult, RefinementState,
};
use crate::forms::{form_index, form_param_count, Form};
use crate::transcendental::{exp, exp_bits, exp_ok};
use vstd::prelude::*;
use vstd::string::StringExecFns;

verus! {

/// Result of the revalidation phase.
#[derive(Debug, Clone, Copy, PartialEq, Eq, Structural)]
pub enum Revalidation {
    /// No revalidation was due.
    Kept,
    /// The inherited relation re-fit and is now native.
    Graduated,
    /// The inherited relation failed to re-fit and must be dropped.
    Lapsed,
}

/// Whether an inherited relation's revalidation window has closed.
pub open spec fn revalidation_due(rel: ConfirmedRelation, tick: u64) -> bool {
    match rel.inherited_from_tick {
        Some(t0) => tick >= t0 && tick - t0 >= 50,
        None => false,
    }
}

/// The fit of `form` in a fit table.
pub open spec fn table_fit(fits: Seq<Option<FitResult>>, form: Form) -> Option<FitResult> {
    fits[form_index(form) as int]
}

/// Whether the table's fit of `form` exists and confirms.
pub open spec fn table_confirms(fits: Seq<Option<FitResult>>, form: Form) -> bool {
    table_fit(fits, form) matches Some(r) && r.confirmed_spec()
}

/// Whether `form` appears in a list of forms.
pub open spec fn form_in(forms: Seq<Form>, f: Form) -> bool {
    exists|i: int| 0 <= i < forms.len() && #[trigger] forms[i] == f
}

/// The ordinary arithmetic preconditions of a lifecycle step: the tick
/// leaves room for cooldown and probation deadlines, and the drift
/// threshold and the active confidence are computable.
pub open spec fn step_inputs_ok(rel: ConfirmedRelation, residual: int, tolerance: int, tick: u64) -> bool {
    &&& tick <= u64::MAX - 200
    &&& mul_ok(max_bits(rel.initial_residual@, ratio_bits(1, 1000)), ratio_bits(15, 10))
    &&& (tolerance > 0 ==> div_ok(residual, tolerance) && exp_ok(-div_bits(residual, tolerance)) && div_bits(residual, tolerance) >= 0)
}

/// Confidence of the active form: `exp(-residual / tolerance)`, or zero
/// without a positive tolerance.
pub open spec fn active_confidence_bits(residual: int, tolerance: int) -> int {
    if tolerance > 0 {
        exp_bits(-div_bits(residual, tolerance))
    } else {
        0
    }
}

/// `exp(-residual / tolerance)`, or zero without a positive tolerance.
pub fn active_confidence(residual: Real, tolerance: Real) -> (r: Real)
    requires
        tolerance@ > 0 ==> div_ok(residual@, tolerance@) && exp_ok(-div_bits(residual@, tolerance@)) && div_bits(residual@, tolerance@) >= 0,
    ensures
        r@ == active_confidence_bits(residual@, tolerance@),
        0 <= r@ < 2 * scale(),
{
    if tolerance.to_bits() > 0 {
        let q = residual.div(tolerance);
        exp(q.neg())
    } else {
        Real::zero()
    }
}

/// The drift threshold: `1.5 ×` the confirm-time residual, floored at
/// `0.001`.
pub open spec fn drift_threshold_bits(initial_residual: int) -> int {
    mul_bits(max_bits(initial_residual, ratio_bits(1, 1000)), ratio_bits(15, 10))
}

/// A drift threshold over a residual of at most `2^28` is computable.
pub proof fn lemma_drift_threshold_ok(r: int)
    requires
        r <= 0x1000_0000_0000_0000 || mul_ok(max_bits(r, ratio_bits(1, 1000)), ratio_bits(15, 10)),
    ensures
        mul_ok(max_bits(r, ratio_bits(1, 1000)), ratio_bits(15, 10)),
{
    if !mul_ok(max_bits(r, ratio_bits(1, 1000)), ratio_bits(15, 10)) {
        assert(ratio_bits(15, 10) == 6442450944) by {
            assert(int_bits(15) == 64424509440);
            assert(int_bits(10) == 42949672960);
            assert(div_bits(64424509440, 42949672960) == 6442450944);
        }
        assert(ratio_bits(1, 1000) == 4294967) by {
            assert(int_bits(1) == 4294967296);
            assert(int_bits(1000) == 4294967296000);
            assert(div_bits(4294967296, 4294967296000) == 4294967);
        }
        let m = max_bits(r, 4294967);
        assert(4294967 <= m <= 0x1000_0000_0000_0000);
        assert(m * 6442450944 <= 0x1000_0000_0000_0000 * 6442450944) by (nonlinear_arith)
            requires m <= 0x1000_0000_0000_0000;
        assert(m * 6442450944 >= 0) by (nonlinear_arith) requires m >= 0;
    }
}

/// The revalidation step took `old_r` to `new_r` with outcome `out`.
pub open spec fn revalidated(
    old_r: ConfirmedRelation,
    fits: Seq<Option<FitResult>>,
    tick: u64,
    new_r: ConfirmedRelation,
    out: Revalidation,
) -> bool {
    &&& (!revalidation_due(old_r, tick) ==> out == Revalidation::Kept && new_r == old_r)
    &&& (revalidation_due(old_r, tick) && !table_confirms(fits, old_r.form) ==> out
                == Revalidation::Lapsed && new_r == old_r)
    &&& (revalidation_due(old_r, tick) && table_confirms(fits, old_r.form) ==> {
                let res = table_fit(fits, old_r.form)->Some_0;
                &&& out == Revalidation::Graduated
                &&& new_r.params@ == res.params@
                &&& new_r.residual == res.residual
                &&& new_r.initial_residual == res.residual
                &&& new_r.confidence == res.confidence
                &&& new_r.n_samples == res.n_samples
                &&& new_r.inherited_from_tick is None
                &&& new_r.inherited_from_civ_id is None
                &&& new_r.confirmed_at_tick == tick
                &&& new_r.relation_id == old_r.relation_id
                &&& new_r.template_id == old_r.template_id
                &&& new_r.channel == old_r.channel
                &&& new_r.form == old_r.form
                &&& new_r.low_confidence_streak == old_r.low_confidence_streak
                &&& new_r.cooldown_until == old_r.cooldown_until
                &&& new_r.refinement == old_r.refinement
                &&& new_r.falsification_streak == old_r.falsification_streak
            })
}

/// The drift-tracking step took `old_r` to `new_r`, falsifying it or not.
pub open spec fn drift_tracked(
    old_r: ConfirmedRelation,
    active_residual: Real,
    active_confidence: Real,
    n_samples: usize,
    trigger_ticks: u64,
    in_probation: bool,
    new_r: ConfirmedRelation,
    falsified: bool,
) -> bool {
    &&& (({
                let over = active_residual@ > drift_threshold_bits(old_r.initial_residual@);
                let streak: u64 = if over {
                    old_r.falsification_streak.saturating_add(1)
                } else {
                    0
                };
                &&& falsified == (streak >= trigger_ticks && !in_probation)
                &&& new_r.falsification_streak == if falsified { 0 } else { streak }
                &&& new_r.low_confidence_streak == if falsified {
                    50
                } else {
                    old_r.low_confidence_streak
                }
            }))
    &&& (new_r.residual == active_residual)
    &&& (new_r.confidence == active_confidence)
    &&& (new_r.n_samples == n_samples)
    &&& (new_r.relation_id == old_r.relation_id)
    &&& (new_r.template_id == old_r.template_id)
    &&& (new_r.channel == old_r.channel)
    &&& (new_r.form == old_r.form)
    &&& (new_r.params@ == old_r.params@)
    &&& (new_r.confirmed_at_tick == old_r.confirmed_at_tick)
    &&& (new_r.cooldown_until == old_r.cooldown_until)
    &&& (new_r.refinement == old_r.refinement)
    &&& (new_r.initial_residual == old_r.initial_residual)
    &&& (new_r.inherited_from_tick == old_r.inherited_from_tick)
    &&& (new_r.inherited_from_civ_id == old_r.inherited_from_civ_id)
}

/// The probation step took `old_r` to `new_r` and the events from `ev0`
/// to `ev1`, switching form or not.
pub open spec fn probation_stepped(
    old_r: ConfirmedRelation,
    fits: Seq<Option<FitResult>>,
    tick: u64,
    ev0: Seq<HypothesisEvent>,
    ev1: Seq<HypothesisEvent>,
    new_r: ConfirmedRelation,
    switched: bool,
) -> bool {
    &&& (({
                let st = old_r.refinement->Some_0;
                let nf = st.new_form;
                if table_confirms(fits, nf) {
                    let res = table_fit(fits, nf)->Some_0;
                    &&& switched
                    &&& new_r.form == nf
                    &&& new_r.params@ == res.params@
                    &&& new_r.residual == res.residual
                    &&& new_r.confidence == res.confidence
                    &&& new_r.refinement is None
                    &&& new_r.low_confidence_streak == 0
                    &&& new_r.cooldown_until == 0
                    &&& new_r.n_samples == old_r.n_samples
                    &&& pushed_one(ev0, ev1)
                    &&& ev1.last() matches HypothesisEvent::RefinementConfirmed {
                        relation_id, template_id, channel, old_form, new_form, new_params, new_residual,
                        new_confidence, n_samples }
                    &&& relation_id == old_r.relation_id && template_id == old_r.template_id
                        && channel == old_r.channel && old_form == old_r.form && new_form == nf
                        && new_params@ == res.params@ && new_residual == res.residual
                        && new_confidence == res.confidence && n_samples == res.n_samples
                } else if tick >= st.deadline {
                    &&& !switched
                    &&& new_r.form == old_r.form
                    &&& new_r.params@ == old_r.params@
                    &&& new_r.residual == old_r.residual
                    &&& new_r.confidence == old_r.confidence
                    &&& new_r.refinement is None
                    &&& new_r.low_confidence_streak == 0
                    &&& new_r.cooldown_until == tick + 100
                    &&& new_r.n_samples == old_r.n_samples
                    &&& pushed_one(ev0, ev1)
                    &&& ev1.last() matches HypothesisEvent::RefinementRejected {
                        relation_id, template_id, old_form, attempted_form, reason }
                    &&& relation_id == old_r.relation_id && template_id == old_r.template_id
                        && old_form == old_r.form && attempted_form == nf
                        && reason@ == "probation_deadline_expired"@
                } else {
                    &&& !switched
                    &&& new_r == old_r
                    &&& ev1 == ev0
                }
            }))
    &&& (new_r.relation_id == old_r.relation_id)
    &&& (new_r.template_id == old_r.template_id)
    &&& (new_r.channel == old_r.channel)
    &&& (new_r.confirmed_at_tick == old_r.confirmed_at_tick)
    &&& (new_r.initial_residual == old_r.initial_residual)
    &&& (new_r.falsification_streak == old_r.falsification_streak)
    &&& (new_r.inherited_from_tick == old_r.inherited_from_tick)
    &&& (new_r.inherited_from_civ_id == old_r.inherited_from_civ_id)
}

/// The refinement step took `old_r` to `new_r` and the events from `ev0`
/// to `ev1`, proposing a new form or not.
pub open spec fn refinement_stepped(
    old_r: ConfirmedRelation,
    active_conf: Real,
    fits: Seq<Option<FitResult>>,
    forms: Seq<Form>,
    tick: u64,
    cooldown_until: u64,
    attempt_period: u64,
    doubt: Real,
    ev0: Seq<HypothesisEvent>,
    ev1: Seq<HypothesisEvent>,
    new_r: ConfirmedRelation,
    proposed: bool,
) -> bool {
    &&& (({
                let low = next_low_streak(old_r.low_confidence_streak, active_conf@);
                let searching = tick >= cooldown_until && low >= streak_threshold(attempt_period);
                let active_score = form_score(active_conf@, old_r.form);
                if !searching {
                    &&& !proposed
                    &&& new_r.low_confidence_streak == low
                    &&& new_r.cooldown_until == old_r.cooldown_until
                    &&& new_r.refinement == old_r.refinement
                    &&& ev1 == ev0
                } else if exists|b: int| #[trigger] is_best_alternative(forms, fits, old_r.form, b)
                    && alt_score(forms, fits, b) > active_score + scaled_margin_bits(doubt@) {
                    let b = choose|b: int| #[trigger] is_best_alternative(forms, fits, old_r.form, b);
                    let nf = forms[b];
                    &&& proposed
                    &&& new_r.refinement == Some(RefinementState { new_form: nf, proposed_at: tick, deadline: (tick + 200) as u64 })
                    &&& new_r.low_confidence_streak == 0
                    &&& new_r.cooldown_until == old_r.cooldown_until
                    &&& pushed_one(ev0, ev1)
                    &&& ev1.last() matches HypothesisEvent::RefinementProposed {
                        relation_id, template_id, old_form, new_form, old_confidence, n_samples }
                    &&& relation_id == old_r.relation_id && template_id == old_r.template_id
                        && old_form == old_r.form && new_form == nf
                        && old_confidence == old_r.confidence && n_samples == old_r.n_samples
                } else {
                    &&& !proposed
                    &&& new_r.low_confidence_streak == 0
                    &&& new_r.cooldown_until == tick + 100
                    &&& new_r.refinement == old_r.refinement
                    &&& ev1 == ev0
                }
            }))
    &&& (new_r.relation_id == old_r.relation_id)
    &&& (new_r.template_id == old_r.template_id)
    &&& (new_r.channel == old_r.channel)
    &&& (new_r.form == old_r.form)
    &&& (new_r.params@ == old_r.params@)
    &&& (new_r.residual == old_r.residual)
    &&& (new_r.confidence == old_r.confidence)
    &&& (new_r.n_samples == old_r.n_samples)
    &&& (new_r.confirmed_at_tick == old_r.confirmed_at_tick)
    &&& (new_r.initial_residual == old_r.initial_residual)
    &&& (new_r.falsification_streak == old_r.falsification_streak)
    &&& (new_r.inherited_from_tick == old_r.inherited_from_tick)
    &&& (new_r.inherited_from_civ_id == old_r.inherited_from_civ_id)
}

impl ConfirmedRelation {
    /// Revalidation: once the window of an inherited relation closes, a
    /// confirming re-fit of its form graduates it (new parameters and
    /// readings, inheritance cleared, confirmed now); otherwise it
    /// lapses. Relations not due are kept unchanged.
    pub fn revalidate(&mut self, fits: &Vec<Option<FitResult>>, tick: u64) -> (out: Revalidation)
        requires
            fits.len() == 12,
        ensures
            revalidated(*old(self), fits@, tick, *final(self), out),

    {
        let due = match self.inherited_from_tick {
            Some(t0) => tick >= t0 && tick - t0 >= 50,
            None => false,
        };
        if !due {
            return Revalidation::Kept;
        }
        match &fits[self.form.index()] {
            Some(res) => {
                if res.is_confirmed() {
                    self.params = copy_params(&res.params);
                    self.residual = res.residual;
                    self.initial_residual = res.residual;
                    self.confidence = res.confidence;
                    self.n_samples = res.n_samples;
                    self.inherited_from_tick = None;
                    self.inherited_from_civ_id = None;
                    self.confirmed_at_tick = tick;
                    Revalidation::Graduated
                } else {
                    Revalidation::Lapsed
                }
            },
            None => Revalidation::Lapsed,
        }
    }

    /// Record the window's readings and track prediction drift: the
    /// falsification streak grows (saturating) while the residual exceeds
    /// the drift threshold and resets otherwise. When it reaches
    /// `trigger_ticks` outside probation, the relation is falsified: the
    /// low-confidence streak jumps to its trigger value and the
    /// falsification streak resets. Returns whether it was falsified.
    pub fn track_drift(
        &mut self,
        active_residual: Real,
        active_confidence: Real,
        n_samples: usize,
        trigger_ticks: u64,
        in_probation: bool,
    ) -> (falsified: bool)
        requires
            mul_ok(max_bits(old(self).initial_residual@, ratio_bits(1, 1000)), ratio_bits(15, 10)),
        ensures
            drift_tracked(*old(self), active_residual, active_confidence, n_samples, trigger_ticks, in_probation, *final(self), falsified),

    {
        self.residual = active_residual;
        self.confidence = active_confidence;
        self.n_samples = n_samples;
        let floor = self.initial_residual.max(Real::from_ratio(1, 1000));
        let threshold = floor.mul(Real::from_ratio(15, 10));
        if active_residual.to_bits() > threshold.to_bits() {
            self.falsification_streak = self.falsification_streak.saturating_add(1);
        } else {
            self.falsification_streak = 0;
        }
        if self.falsification_streak >= trigger_ticks && !in_probation {
            self.low_confidence_streak = 50;
            self.falsification_streak = 0;
            true
        } else {
            false
        }
    }
}


/// `events` grew by exactly one event, which satisfies `p`.
pub open spec fn pushed_one(old_events: Seq<HypothesisEvent>, new_events: Seq<HypothesisEvent>) -> bool {
    new_events.len() == old_events.len() + 1 && new_events.drop_last() == old_events
}

/// Occam penalty of a form: `0.02 × param_count`.
pub open spec fn occam_penalty(f: Form) -> int {
    mul_bits(ratio_bits(2, 100), int_bits(form_param_count(f) as int))
}

/// Occam-adjusted score of a confidence for a form.
pub open spec fn form_score(conf: int, f: Form) -> int {
    conf - occam_penalty(f)
}

/// Whether position `i` of `avail` is an eligible alternative to the
/// active form: a different form with a fit in the table.
pub open spec fn eligible(avail: Seq<Form>, fits: Seq<Option<FitResult>>, active: Form, i: int) -> bool {
    0 <= i < avail.len() && avail[i] != active && table_fit(fits, avail[i]) is Some
}

/// The score of the alternative at position `i`.
pub open spec fn alt_score(avail: Seq<Form>, fits: Seq<Option<FitResult>>, i: int) -> int {
    form_score(table_fit(fits, avail[i])->Some_0.confidence@, avail[i])
}

/// Position `b` holds the first alternative with the highest score.
pub open spec fn is_best_alternative(avail: Seq<Form>, fits: Seq<Option<FitResult>>, active: Form, b: int) -> bool {
    &&& eligible(avail, fits, active, b)
    &&& forall|j: int| #[trigger] eligible(avail, fits, active, j) ==> alt_score(avail, fits, j) <= alt_score(avail, fits, b)
    &&& forall|j: int| 0 <= j < b && #[trigger] eligible(avail, fits, active, j) ==> alt_score(avail, fits, j) < alt_score(avail, fits, b)
}

/// Every fit in the table has a confidence in `[0, 1]`.
pub open spec fn confidences_ok(fits: Seq<Option<FitResult>>) -> bool {
    fits.len() == 12 && forall|i: int| 0 <= i < 12 ==> (#[trigger] fits[i] matches Some(r) ==> 0 <= r.confidence@ <= scale())
}

/// The Occam penalty of any form is at most `0.08`.
proof fn lemma_occam_small(f: Form)
    ensures
        0 <= occam_penalty(f) <= 400_000_000,
        mul_ok(ratio_bits(2, 100), int_bits(form_param_count(f) as int)),
{
    assert(int_bits(2) == 8589934592);
    assert(int_bits(100) == 429496729600);
    assert(div_bits(8589934592, 429496729600) == 85899345);
    let pc = form_param_count(f) as int;
    assert(1 <= pc <= 4);
    assert(85899345 * int_bits(pc) <= 85899345 * (4 * scale())) by (nonlinear_arith)
        requires int_bits(pc) == pc * scale(), pc <= 4, scale() > 0;
    assert(85899345 * int_bits(pc) >= 0) by (nonlinear_arith)
        requires int_bits(pc) == pc * scale(), pc >= 1, scale() > 0;
    vstd::arithmetic::div_mod::lemma_div_is_ordered(85899345 * int_bits(pc), 85899345 * (4 * scale()), scale());
    vstd::arithmetic::div_mod::lemma_div_pos_is_pos(85899345 * int_bits(pc), scale());
}

/// The best alternative to `active` among `avail`: the first form with
/// the highest Occam-adjusted score among those with a fit.
pub fn best_alternative(avail: &Vec<Form>, fits: &Vec<Option<FitResult>>, active: Form) -> (r: Option<(Form, Real)>)
    requires
        confidences_ok(fits@),
    ensures
        match r {
            None => forall|j: int| !#[trigger] eligible(avail@, fits@, active, j),
            Some((f, score)) => exists|b: int| #[trigger] is_best_alternative(avail@, fits@, active, b) && f == avail@[b]
                && score@ == alt_score(avail@, fits@, b),
        },
{
    let penalty_rate = Real::percent(2);
    let mut best: Option<(Form, Real)> = None;
    let ghost mut bi: int = -1;
    let mut i: usize = 0;
    while i < avail.len()
        invariant
            i <= avail.len(),
            confidences_ok(fits@),
            penalty_rate@ == ratio_bits(2, 100),
            match best {
                None => bi == -1 && forall|j: int| 0 <= j < i ==> !#[trigger] eligible(avail@, fits@, active, j),
                Some((f, score)) => 0 <= bi < i && eligible(avail@, fits@, active, bi) && f == avail@[bi]
                    && score@ == alt_score(avail@, fits@, bi)
                    && (forall|j: int| 0 <= j < i && #[trigger] eligible(avail@, fits@, active, j) ==> alt_score(avail@, fits@, j) <= score@)
                    && (forall|j: int| 0 <= j < bi && #[trigger] eligible(avail@, fits@, active, j) ==> alt_score(avail@, fits@, j) < score@),
            },
        decreases avail.len() - i,
    {
        let f = avail[i];
        if f != active {
            match &fits[f.index()] {
                Some(res) => {
                    proof {
                        lemma_occam_small(f);
                        assert(fits@[form_index(f) as int] matches Some(rr) && 0 <= rr.confidence@ <= scale());
                    }
                    let score = res.confidence.sub(penalty_rate.mul(Real::from_int(f.param_count() as i64)));
                    let better = match best {
                        None => true,
                        Some((_, prev)) => score.to_bits() > prev.to_bits(),
                    };
                    if better {
                        best = Some((f, score));
                        proof {
                            bi = i as int;
                        }
                    }
                },
                None => {},
            }
        }
        i = i + 1;
    }
    proof {
        if let Some((f, score)) = best {
            assert(is_best_alternative(avail@, fits@, active, bi));
        }
    }
    best
}

/// The refinement switch margin for a figure's doubt: `0.05 × (1.5 −
/// doubt)`.
pub open spec fn scaled_margin_bits(doubt: int) -> int {
    mul_bits(ratio_bits(5, 100), ratio_bits(15, 10) - doubt)
}

impl ConfirmedRelation {
    /// Probation step: a confirming fit of the candidate form switches
    /// the relation to it (refinement confirmed, streak and cooldown
    /// cleared); otherwise, once the deadline passes, the candidate is
    /// rejected and a cooldown starts. Returns whether the refinement
    /// was confirmed.
    pub fn step_probation(&mut self, fits: &Vec<Option<FitResult>>, tick: u64, events: &mut Vec<HypothesisEvent>) -> (switched: bool)
        requires
            fits.len() == 12,
            old(self).refinement is Some,
            tick <= u64::MAX - 200,
        ensures
            probation_stepped(*old(self), fits@, tick, old(events)@, final(events)@, *final(self), switched),

    {
        let st = match self.refinement {
            Some(st) => st,
            None => {
                return false;
            },
        };
        let nf = st.new_form;
        match &fits[nf.index()] {
            Some(res) => {
                if res.is_confirmed() {
                    let old_form = self.form;
                    self.form = nf;
                    self.params = copy_params(&res.params);
                    self.residual = res.residual;
                    self.confidence = res.confidence;
                    self.refinement = None;
                    self.low_confidence_streak = 0;
                    self.cooldown_until = 0;
                    events.push(HypothesisEvent::RefinementConfirmed {
                        relation_id: self.relation_id,
                        template_id: self.template_id,
                        channel: self.channel,
                        old_form,
                        new_form: nf,
                        new_params: copy_params(&res.params),
                        new_residual: res.residual,
                        new_confidence: res.confidence,
                        n_samples: res.n_samples,
                    });
                    proof {
                        assert(events@.drop_last() =~= old(events)@);
                    }
                    return true;
                }
            },
            None => {},
        }
        if tick >= st.deadline {
            self.refinement = None;
            self.low_confidence_streak = 0;
            self.cooldown_until = tick + 100;
            events.push(HypothesisEvent::RefinementRejected {
                relation_id: self.relation_id,
                template_id: self.template_id,
                old_form: self.form,
                attempted_form: nf,
                reason: String::from_str("probation_deadline_expired"),
            });
            proof {
                assert(events@.drop_last() =~= old(events)@);
            }
        }
        false
    }
}


/// Steps of sustained low confidence that trigger a refinement search:
/// `⌈50 / attempt_period⌉` (period floored at 1).
pub open spec fn streak_threshold(attempt_period: u64) -> int {
    let p: int = if attempt_period == 0 { 1 } else { attempt_period as int };
    if 50int % p == 0 {
        50int / p
    } else {
        50int / p + 1
    }
}

/// The low-confidence streak after one step.
pub open spec fn next_low_streak(low: u64, active_conf: int) -> u64 {
    if active_conf <= exp_neg_two_bits() {
        low.saturating_add(1)
    } else {
        0
    }
}

impl ConfirmedRelation {
    /// Low-confidence streak and refinement search outside probation.
    /// The streak grows (saturating) while confidence is at most
    /// `exp(-2)` and resets otherwise. Outside the cooldown, once it
    /// reaches the threshold, the best alternative form is proposed when
    /// its score beats the active score by the doubt-scaled margin
    /// (probation until `tick + 200`, streak reset); otherwise the streak
    /// resets and a cooldown of 100 ticks starts. Returns whether a
    /// refinement was proposed.
    pub fn step_refinement(
        &mut self,
        active_conf: Real,
        fits: &Vec<Option<FitResult>>,
        available_forms: &Vec<Form>,
        tick: u64,
        cooldown_until: u64,
        attempt_period: u64,
        doubt: Real,
        events: &mut Vec<HypothesisEvent>,
    ) -> (proposed: bool)
        requires
            confidences_ok(fits@),
            0 <= active_conf@ < 2 * scale(),
            0 <= doubt@ <= scale(),
            tick <= u64::MAX - 200,
        ensures
            refinement_stepped(*old(self), active_conf, fits@, available_forms@, tick, cooldown_until, attempt_period, doubt, old(events)@, final(events)@, *final(self), proposed),

    {
        let threshold_conf = exp_neg_two();
        if active_conf.to_bits() <= threshold_conf.to_bits() {
            self.low_confidence_streak = self.low_confidence_streak.saturating_add(1);
        } else {
            self.low_confidence_streak = 0;
        }
        if tick < cooldown_until {
            return false;
        }
        let p: u64 = if attempt_period == 0 { 1 } else { attempt_period };
        let threshold: u64 = if 50 % p == 0 { 50 / p } else { 50 / p + 1 };
        if self.low_confidence_streak < threshold {
            return false;
        }
        proof {
            lemma_occam_small(self.form);
        }
        let active_score = active_conf.sub(
            Real::percent(2).mul(Real::from_int(self.form.param_count() as i64)),
        );
        match best_alternative(available_forms, fits, self.form) {
            Some((nf, score)) => {
                let doubt_scale = Real::from_ratio(15, 10).sub(doubt);
                proof {
                    assert(ratio_bits(5, 100) == 214748364) by {
                        assert(int_bits(5) == 21474836480);
                        assert(int_bits(100) == 429496729600);
                        assert(div_bits(21474836480, 429496729600) == 214748364);
                    }
                    assert(ratio_bits(15, 10) == 6442450944) by {
                        assert(int_bits(15) == 64424509440);
                        assert(int_bits(10) == 42949672960);
                        assert(div_bits(64424509440, 42949672960) == 6442450944);
                    }
                    crate::transcendental::lemma_mul_bits_bound(214748364, doubt_scale@);
                    assert(0 <= doubt_scale@ <= 6442450944);
                    assert(214748364 * doubt_scale@ <= 214748364 * 6442450944) by (nonlinear_arith)
                        requires 0 <= doubt_scale@ <= 6442450944;
                    assert(214748364 * doubt_scale@ >= 0) by (nonlinear_arith)
                        requires 0 <= doubt_scale@;
                    assert(crate::transcendental::abs_int(214748364 * doubt_scale@) == 214748364 * doubt_scale@);
                    assert(mul_bits(214748364, doubt_scale@) <= 400_000_000) by (nonlinear_arith)
                        requires scale() * crate::transcendental::abs_int(mul_bits(214748364, doubt_scale@)) <= 214748364 * doubt_scale@ + scale(),
                            214748364 * doubt_scale@ <= 214748364 * 6442450944, scale() == 4294967296;
                }
                let scaled_margin = Real::percent(5).mul(doubt_scale);
                let bar = active_score.add(scaled_margin);
                if score.to_bits() > bar.to_bits() {
                    self.refinement = Some(RefinementState { new_form: nf, proposed_at: tick, deadline: tick + 200 });
                    self.low_confidence_streak = 0;
                    events.push(HypothesisEvent::RefinementProposed {
                        relation_id: self.relation_id,
                        template_id: self.template_id,
                        old_form: self.form,
                        new_form: nf,
                        old_confidence: self.confidence,
                        n_samples: self.n_samples,
                    });
                    proof {
                        assert(events@.drop_last() =~= old(events)@);
                    }
                    return true;
                }
            },
            None => {},
        }
        self.low_confidence_streak = 0;
        self.cooldown_until = tick + 100;
        false
    }
}

} // verus!
