//! `Hypothesizer`: the per-civ quantitative-discovery state machine,
//! with its lifecycle constants and the helpers that drive it
//! (trivial-measurement filter, fit selection, form tie-break).
//!
//! Fitting itself is outside this module: the step functions take the
//! fit outcomes for the sample windows they act on (`FitTable`), and
//! are verified for every such outcome.

use crate::arith::{clamp01_bits, div_bits, fits, int_bits, min_bits, mul_bits, mul_ok, ratio_bits, scale, Real};
use crate::cosmology::Cosmology;
use crate::cosmology::{dogmatism_rel, form_distance_raw};
use crate::culture_hooks::{focus_weight_bits, focus_weight_for, suppress_confidence_with, suppression_bits};
use crate::discovery::channels::{
    all_channels, measurement_read_spec, measurement_relation_id, measurement_relation_id_spec,
    relation_id_for, relation_id_spec, Channel, MeasurementChannel, PhysicsView,
};
use std::collections::BTreeSet;
use crate::discovery::events::HypothesisEvent;
use crate::discovery::lifecycle::{
    active_confidence, active_confidence_bits, confidences_ok, drift_tracked, probation_stepped,
    refinement_stepped, revalidated, step_inputs_ok, Revalidation,
};
use crate::discovery::types::{exp_neg_one_bits, residual_relation_id, same_relation, CandidateRelation, ConfirmedMeasurement, ConfirmedRelation, FitResult, MeasurementCandidate, ResidualBasis, Sample};
use crate::forms::{all_forms, available_forms, form_index, form_param_count, Form};
use std::collections::{BTreeMap, VecDeque};
use vstd::prelude::*;

verus! {

broadcast use vstd::laws_cmp::group_laws_cmp;

/// Steps of sustained low confidence (in ticks) before a refinement is
/// sought.
pub const SUSTAINED_TRIGGER_TICKS: u64 = 50;

/// Cooldown after a rejected or fruitless refinement.
pub const REFINEMENT_COOLDOWN_TICKS: u64 = 100;

/// Window after inheritance within which an inherited relation must
/// re-fit on the successor's own samples.
pub const REVALIDATION_WINDOW_TICKS: u64 = 50;

/// Deepest residual-of-residual candidate generated.
pub const MAX_RESIDUAL_DEPTH: u32 = 3;

/// Default prediction-drift trigger, in steps.
pub const DEFAULT_FALSIFICATION_TRIGGER_TICKS: u64 = 30;

/// Probation window for a proposed refinement.
pub const PROBATION_WINDOW_TICKS: u64 = 200;

/// Appending a sample to a rolling window capped at `max`: the oldest
/// sample leaves when the window is full.
pub open spec fn window_push(buf: Seq<Sample>, s: Sample, max: nat) -> Seq<Sample> {
    if buf.len() == max && buf.len() > 0 {
        buf.drop_first().push(s)
    } else {
        buf.push(s)
    }
}

/// Appending several samples in order.
pub open spec fn window_push_all(buf: Seq<Sample>, ss: Seq<Sample>, max: nat) -> Seq<Sample>
    decreases ss.len(),
{
    if ss.len() == 0 {
        buf
    } else {
        window_push(window_push_all(buf, ss.drop_last(), max), ss.last(), max)
    }
}

/// A window never exceeds its cap (once it has reached it).
pub proof fn lemma_window_push_len(buf: Seq<Sample>, s: Sample, max: nat)
    requires
        buf.len() <= max,
    ensures
        window_push(buf, s, max).len() <= if max == 0 { 1 } else { max },
        window_push(buf, s, max).last() == s,
{
}

/// Push one sample onto a rolling window capped at `max`.
fn push_window(buf: &mut VecDeque<Sample>, s: Sample, max: usize)
    ensures
        final(buf)@ == window_push(old(buf)@, s, max as nat),
{
    if buf.len() == max && buf.len() > 0 {
        buf.pop_front();
    }
    buf.push_back(s);
}

/// The candidate list for a template set: every `(template, channel)`
/// pair, templates in the given order, channels in channel order.
pub open spec fn candidates_spec(ids: Seq<u32>) -> Seq<CandidateRelation> {
    Seq::new(
        ids.len() * 10,
        |k: int|
            CandidateRelation {
                relation_id: relation_id_spec(ids[k / 10] as int, all_channels()[k % 10]) as u32,
                template_id: ids[k / 10],
                channel: all_channels()[k % 10],
            },
    )
}

/// Template ids small enough for `relation_id_for`.
pub open spec fn template_ids_ok(ids: Seq<u32>) -> bool {
    forall|i: int| 0 <= i < ids.len() ==> #[trigger] ids[i] * 16 + 15 <= u32::MAX
}

/// The default measurement catalogue: spatial-equilibrium baselines and
/// temporal-derivative (diffusion-law) pairs.
pub open spec fn default_measurement_pairs() -> Seq<(MeasurementChannel, MeasurementChannel)> {
    seq![
        (MeasurementChannel::Direct(Channel::Temperature), MeasurementChannel::NeighbourMean(Channel::Temperature)),
        (MeasurementChannel::Direct(Channel::WaterDepth), MeasurementChannel::NeighbourMean(Channel::WaterDepth)),
        (MeasurementChannel::Direct(Channel::ChargeMagnitude), MeasurementChannel::NeighbourMean(Channel::ChargeMagnitude)),
        (MeasurementChannel::Direct(Channel::Temperature), MeasurementChannel::Direct(Channel::Elevation)),
        (MeasurementChannel::TemporalDelta(Channel::Temperature), MeasurementChannel::Laplacian(Channel::Temperature)),
        (MeasurementChannel::TemporalDelta(Channel::ChargeMagnitude), MeasurementChannel::Laplacian(Channel::ChargeMagnitude)),
        (MeasurementChannel::TemporalDelta(Channel::WaterDepth), MeasurementChannel::Laplacian(Channel::Elevation)),
    ]
}

/// Whether a measurement candidate is the base candidate of a pair.
pub open spec fn is_base_measurement(
    m: MeasurementCandidate,
    pair: (MeasurementChannel, MeasurementChannel),
) -> bool {
    &&& m.y_channel == pair.0
    &&& m.x_channel == pair.1
    &&& m.relation_id == measurement_relation_id_spec(pair.0, pair.1)
    &&& m.residual_basis is None
    &&& m.residual_depth == 0
}

/// Civ-scoped quantitative discovery pipeline: candidate relations
/// with rolling sample windows, the confirmed registry, rival
/// hypotheses, measurement relations, and the refinement lifecycle.
pub struct Hypothesizer {
    /// Candidate relations, each with a unique `relation_id`.
    pub candidates: Vec<CandidateRelation>,
    /// Rolling per-relation sample window, capped at `max_window`.
    pub samples: BTreeMap<u32, VecDeque<Sample>>,
    /// Confirmed relations by `relation_id`.
    pub confirmed: BTreeMap<u32, ConfirmedRelation>,
    /// Competing alternative fits per `relation_id`.
    pub rivals: BTreeMap<u32, Vec<ConfirmedRelation>>,
    /// Earliest tick of the next fit attempt per relation.
    pub next_attempt: BTreeMap<u32, u64>,
    pub intelligence: Real,
    pub max_window: usize,
    pub attempt_period: u64,
    /// Form vocabulary the hypothesizer may propose.
    pub available_forms: Vec<Form>,
    /// Measurement relations, ids in the `1 000 000+` namespace.
    pub measurements: Vec<MeasurementCandidate>,
    /// Per-measurement rolling sample window.
    pub measurement_samples: BTreeMap<u32, VecDeque<Sample>>,
    /// Confirmed measurement relations.
    pub confirmed_measurements: BTreeMap<u32, ConfirmedMeasurement>,
    /// Earliest tick of the next fit attempt per measurement.
    pub measurement_next_attempt: BTreeMap<u32, u64>,
    /// Apparatus samples contributed per measurement relation.
    pub experimental_count_by_relation: BTreeMap<u32, u32>,
    /// Prediction-drift refinement trigger, in steps.
    pub falsification_trigger_ticks: u64,
}

/// The measurement track: sample windows, next attempts, the measurement
/// catalogue and the experimental counts.
pub ghost struct MeasurementTrack {
    pub samples: Map<u32, Seq<Sample>>,
    pub next_attempt: Map<u32, u64>,
    pub measurements: Seq<MeasurementCandidate>,
    pub experimental: Map<u32, u32>,
}

/// The track after one apparatus sample `(x, y)` for the measurement
/// `(y_channel, x_channel)`: the sample is pushed twice into its window
/// (created if absent), the measurement is due at tick 0 if new to the
/// schedule, added to the catalogue if new, and its experimental count
/// rises by two, saturating.
pub open spec fn track_after_record(
    t: MeasurementTrack,
    y_channel: MeasurementChannel,
    x_channel: MeasurementChannel,
    x: Real,
    y: Real,
    max: nat,
) -> MeasurementTrack {
    let rid = measurement_relation_id_spec(y_channel, x_channel) as u32;
    let s = Sample { x, y };
    let old_buf = if t.samples.contains_key(rid) { t.samples[rid] } else { Seq::empty() };
    let old_count: u32 = if t.experimental.contains_key(rid) { t.experimental[rid] } else { 0 };
    MeasurementTrack {
        samples: t.samples.insert(rid, window_push(window_push(old_buf, s, max), s, max)),
        next_attempt: if t.next_attempt.contains_key(rid) { t.next_attempt } else { t.next_attempt.insert(rid, 0) },
        measurements: if exists|i: int| 0 <= i < t.measurements.len() && #[trigger] t.measurements[i].relation_id == rid {
            t.measurements
        } else {
            t.measurements.push(MeasurementCandidate {
                relation_id: rid,
                y_channel,
                x_channel,
                residual_basis: None,
                residual_depth: 0,
            })
        },
        experimental: t.experimental.insert(rid, old_count.saturating_add(2)),
    }
}

impl Hypothesizer {
    /// The measurement track, windows taken by their contents.
    pub open spec fn track(&self) -> MeasurementTrack {
        MeasurementTrack {
            samples: Map::new(|k: u32| self.measurement_samples@.contains_key(k), |k: u32| self.measurement_samples@[k]@),
            next_attempt: self.measurement_next_attempt@,
            measurements: self.measurements@,
            experimental: self.experimental_count_by_relation@,
        }
    }

    /// Every candidate and measurement has its sample window and its
    /// next-attempt entry, and candidate ids are unique.
    pub open spec fn wf(&self) -> bool {
        &&& forall|i: int|
            0 <= i < self.candidates.len() ==> self.samples@.contains_key(
                #[trigger] self.candidates[i].relation_id,
            ) && self.next_attempt@.contains_key(self.candidates[i].relation_id)
        &&& forall|i: int, j: int|
            0 <= i < j < self.candidates.len() ==> #[trigger] self.candidates[i].relation_id
                != #[trigger] self.candidates[j].relation_id
        &&& forall|i: int|
            0 <= i < self.measurements.len() ==> self.measurement_samples@.contains_key(
                #[trigger] self.measurements[i].relation_id,
            ) && self.measurement_next_attempt@.contains_key(self.measurements[i].relation_id)
        &&& forall|i: int, j: int|
            0 <= i < j < self.measurements.len() ==> #[trigger] self.measurements[i].relation_id
                != #[trigger] self.measurements[j].relation_id
    }

    /// Every `(template, channel)` pair becomes a candidate.
    pub fn candidates_for(perceivable_template_ids: &Vec<u32>) -> (out: Vec<CandidateRelation>)
        requires
            template_ids_ok(perceivable_template_ids@),
            perceivable_template_ids.len() * 10 <= usize::MAX,
        ensures
            out@ == candidates_spec(perceivable_template_ids@),
    {
        let ids = perceivable_template_ids;
        let all = Channel::all();
        let mut out: Vec<CandidateRelation> = Vec::new();
        let mut i: usize = 0;
        while i < ids.len()
            invariant
                i <= ids.len(),
                ids.len() * 10 <= usize::MAX,
                all@ == all_channels(),
                template_ids_ok(ids@),
                out@ =~= candidates_spec(ids@.subrange(0, i as int)),
            decreases ids.len() - i,
        {
            let tid = ids[i];
            proof {
                assert(ids@[i as int] * 16 + 15 <= u32::MAX);
            }
            let mut j: usize = 0;
            while j < 10
                invariant
                    i < ids.len(),
                    j <= 10,
                    tid == ids@[i as int],
                    tid * 16 + 15 <= u32::MAX,
                    all@ == all_channels(),
                    out.len() == i * 10 + j,
                    forall|k: int|
                        0 <= k < i * 10 + j ==> #[trigger] out@[k] == candidates_spec(
                            ids@.subrange(0, i + 1),
                        )[k],
                decreases 10 - j,
            {
                let ch = all[j];
                out.push(
                    CandidateRelation {
                        relation_id: relation_id_for(tid, ch),
                        template_id: tid,
                        channel: ch,
                    },
                );
                proof {
                    let k = i * 10 + j;
                    assert(k / 10 == i as int && k % 10 == j as int) by (nonlinear_arith)
                        requires k == i * 10 + j, 0 <= j < 10;
                }
                j = j + 1;
            }
            proof {
                assert forall|k: int| 0 <= k < (i + 1) * 10 implies #[trigger] out@[k]
                    == candidates_spec(ids@.subrange(0, i + 1))[k] by {}
                assert(out@.len() == (i + 1) * 10);
                assert(out@ =~= candidates_spec(ids@.subrange(0, i + 1)));
            }
            i = i + 1;
        }
        proof {
            assert(ids@.subrange(0, i as int) =~= ids@);
        }
        out
    }
}


/// Whether every measurement in `ms` is the base candidate of the pair
/// at the same position.
pub open spec fn base_measurements(ms: Seq<MeasurementCandidate>, pairs: Seq<(MeasurementChannel, MeasurementChannel)>) -> bool {
    ms.len() == pairs.len() && forall|i: int| 0 <= i < ms.len() ==> is_base_measurement(#[trigger] ms[i], pairs[i])
}

/// Sample-window and next-attempt maps with one empty window and a zero
/// next attempt for every id.
pub open spec fn fresh_maps(
    ids: Seq<u32>,
    samples: Map<u32, VecDeque<Sample>>,
    next: Map<u32, u64>,
) -> bool {
    &&& samples.dom() =~= Set::new(|k: u32| ids.contains(k))
    &&& next.dom() =~= Set::new(|k: u32| ids.contains(k))
    &&& forall|k: u32| #[trigger] samples.contains_key(k) ==> samples[k]@.len() == 0
    &&& forall|k: u32| #[trigger] next.contains_key(k) ==> next[k] == 0
}

/// Empty windows and zero next attempts for a list of ids.
fn fresh_windows(ids: &Vec<u32>) -> (r: (BTreeMap<u32, VecDeque<Sample>>, BTreeMap<u32, u64>))
    ensures
        fresh_maps(ids@, r.0@, r.1@),
{
    let mut samples: BTreeMap<u32, VecDeque<Sample>> = BTreeMap::new();
    let mut next: BTreeMap<u32, u64> = BTreeMap::new();
    let mut i: usize = 0;
    while i < ids.len()
        invariant
            i <= ids.len(),
            fresh_maps(ids@.subrange(0, i as int), samples@, next@),
        decreases ids.len() - i,
    {
        let id = ids[i];
        samples.insert(id, VecDeque::new());
        next.insert(id, 0);
        proof {
            let sub = ids@.subrange(0, i + 1);
            assert(sub =~= ids@.subrange(0, i as int).push(id));
            assert forall|k: u32| sub.contains(k) <==> (ids@.subrange(0, i as int).contains(k) || k == id) by {
                crate::discovery::channels::lemma_push_contains(ids@.subrange(0, i as int), id, k);
            }
        }
        i = i + 1;
    }
    proof {
        assert(ids@.subrange(0, i as int) =~= ids@);
    }
    (samples, next)
}

/// The rivals recorded for a relation (none when absent).
pub open spec fn rivals_of(m: Map<u32, Vec<ConfirmedRelation>>, rid: u32) -> Seq<ConfirmedRelation> {
    if m.contains_key(rid) {
        m[rid]@
    } else {
        Seq::empty()
    }
}

/// Whether some relation in the list has form `f`.
pub open spec fn has_form(rs: Seq<ConfirmedRelation>, f: Form) -> bool {
    exists|i: int| 0 <= i < rs.len() && #[trigger] rs[i].form == f
}

impl Hypothesizer {
    /// The default measurement catalogue (`default_measurement_pairs`),
    /// all base candidates.
    pub fn default_measurements(perceivable_template_ids: &Vec<u32>) -> (v: Vec<MeasurementCandidate>)
        ensures
            base_measurements(v@, default_measurement_pairs()),
    {
        let v = vec![
            MeasurementCandidate::new(
                MeasurementChannel::Direct(Channel::Temperature),
                MeasurementChannel::NeighbourMean(Channel::Temperature),
            ),
            MeasurementCandidate::new(
                MeasurementChannel::Direct(Channel::WaterDepth),
                MeasurementChannel::NeighbourMean(Channel::WaterDepth),
            ),
            MeasurementCandidate::new(
                MeasurementChannel::Direct(Channel::ChargeMagnitude),
                MeasurementChannel::NeighbourMean(Channel::ChargeMagnitude),
            ),
            MeasurementCandidate::new(
                MeasurementChannel::Direct(Channel::Temperature),
                MeasurementChannel::Direct(Channel::Elevation),
            ),
            MeasurementCandidate::new(
                MeasurementChannel::TemporalDelta(Channel::Temperature),
                MeasurementChannel::Laplacian(Channel::Temperature),
            ),
            MeasurementCandidate::new(
                MeasurementChannel::TemporalDelta(Channel::ChargeMagnitude),
                MeasurementChannel::Laplacian(Channel::ChargeMagnitude),
            ),
            MeasurementCandidate::new(
                MeasurementChannel::TemporalDelta(Channel::WaterDepth),
                MeasurementChannel::Laplacian(Channel::Elevation),
            ),
        ];
        proof {
            let pairs = default_measurement_pairs();
            assert forall|i: int| 0 <= i < v@.len() implies is_base_measurement(#[trigger] v@[i], pairs[i]) by {
            }
        }
        v
    }

    /// A hypothesizer with an explicit `attempt_period` (floored at 5):
    /// every `(template, channel)` candidate and the default
    /// measurements, with empty windows due at tick 0.
    pub fn with_attempt_period(
        intelligence: Real,
        perceivable_template_ids: &Vec<u32>,
        attempt_period: u64,
    ) -> (h: Self)
        requires
            template_ids_ok(perceivable_template_ids@),
            perceivable_template_ids.len() * 10 <= usize::MAX,
        ensures
            h.candidates@ == candidates_spec(perceivable_template_ids@),
            base_measurements(h.measurements@, default_measurement_pairs()),
            fresh_maps(h.candidates@.map_values(|c: CandidateRelation| c.relation_id), h.samples@, h.next_attempt@),
            fresh_maps(h.measurements@.map_values(|m: MeasurementCandidate| m.relation_id), h.measurement_samples@, h.measurement_next_attempt@),
            h.confirmed@ == Map::<u32, ConfirmedRelation>::empty(),
            h.rivals@ == Map::<u32, Vec<ConfirmedRelation>>::empty(),
            h.confirmed_measurements@ == Map::<u32, ConfirmedMeasurement>::empty(),
            h.experimental_count_by_relation@ == Map::<u32, u32>::empty(),
            h.intelligence == intelligence,
            h.max_window == 200,
            h.attempt_period == if attempt_period < 5 { 5 } else { attempt_period },
            h.available_forms@ == all_forms(),
            h.falsification_trigger_ticks == DEFAULT_FALSIFICATION_TRIGGER_TICKS,
    {
        let candidates = Self::candidates_for(perceivable_template_ids);
        let mut cids: Vec<u32> = Vec::new();
        let mut i: usize = 0;
        while i < candidates.len()
            invariant
                i <= candidates.len(),
                cids@ =~= candidates@.subrange(0, i as int).map_values(|c: CandidateRelation| c.relation_id),
            decreases candidates.len() - i,
        {
            cids.push(candidates[i].relation_id);
            i = i + 1;
        }
        proof {
            assert(candidates@.subrange(0, i as int) =~= candidates@);
        }
        let (samples, next_attempt) = fresh_windows(&cids);
        let measurements = Self::default_measurements(perceivable_template_ids);
        let mut mids: Vec<u32> = Vec::new();
        let mut j: usize = 0;
        while j < measurements.len()
            invariant
                j <= measurements.len(),
                mids@ =~= measurements@.subrange(0, j as int).map_values(|m: MeasurementCandidate| m.relation_id),
            decreases measurements.len() - j,
        {
            mids.push(measurements[j].relation_id);
            j = j + 1;
        }
        proof {
            assert(measurements@.subrange(0, j as int) =~= measurements@);
        }
        let (measurement_samples, measurement_next_attempt) = fresh_windows(&mids);
        Hypothesizer {
            candidates,
            samples,
            confirmed: BTreeMap::new(),
            rivals: BTreeMap::new(),
            next_attempt,
            intelligence,
            max_window: 200,
            attempt_period: if attempt_period < 5 { 5 } else { attempt_period },
            available_forms: available_forms(),
            measurements,
            measurement_samples,
            confirmed_measurements: BTreeMap::new(),
            measurement_next_attempt,
            experimental_count_by_relation: BTreeMap::new(),
            falsification_trigger_ticks: DEFAULT_FALSIFICATION_TRIGGER_TICKS,
        }
    }

    /// A hypothesizer with the baseline attempt period of 20 ticks.
    pub fn new(intelligence: Real, perceivable_template_ids: &Vec<u32>) -> (h: Self)
        requires
            template_ids_ok(perceivable_template_ids@),
            perceivable_template_ids.len() * 10 <= usize::MAX,
        ensures
            h.candidates@ == candidates_spec(perceivable_template_ids@),
            base_measurements(h.measurements@, default_measurement_pairs()),
            fresh_maps(h.candidates@.map_values(|c: CandidateRelation| c.relation_id), h.samples@, h.next_attempt@),
            fresh_maps(h.measurements@.map_values(|m: MeasurementCandidate| m.relation_id), h.measurement_samples@, h.measurement_next_attempt@),
            h.confirmed@ == Map::<u32, ConfirmedRelation>::empty(),
            h.rivals@ == Map::<u32, Vec<ConfirmedRelation>>::empty(),
            h.confirmed_measurements@ == Map::<u32, ConfirmedMeasurement>::empty(),
            h.experimental_count_by_relation@ == Map::<u32, u32>::empty(),
            h.intelligence == intelligence,
            h.max_window == 200,
            h.attempt_period == 20,
            h.available_forms@ == all_forms(),
            h.falsification_trigger_ticks == DEFAULT_FALSIFICATION_TRIGGER_TICKS,
    {
        Self::with_attempt_period(intelligence, perceivable_template_ids, 20)
    }

    /// Rewrite the prediction-drift trigger; zero leaves it unchanged.
    pub fn set_falsification_trigger_ticks(&mut self, ticks: u64)
        ensures
            final(self).falsification_trigger_ticks == if ticks > 0 {
                ticks
            } else {
                old(self).falsification_trigger_ticks
            },
            final(self).candidates@ == old(self).candidates@,
            final(self).confirmed@ == old(self).confirmed@,
    {
        if ticks > 0 {
            self.falsification_trigger_ticks = ticks;
        }
    }

    /// Replace the form vocabulary.
    pub fn set_available_forms(&mut self, forms: Vec<Form>)
        ensures
            final(self).available_forms@ == forms@,
            final(self).candidates@ == old(self).candidates@,
            final(self).confirmed@ == old(self).confirmed@,
    {
        self.available_forms = forms;
    }

    /// Record one apparatus sample for the measurement `(y, x)`: it is
    /// pushed twice into that measurement's window (created if absent),
    /// the measurement is added to the catalogue if new, and its
    /// experimental count rises by two (saturating).
    pub fn record_experimental_measurement(
        &mut self,
        y_channel: MeasurementChannel,
        x_channel: MeasurementChannel,
        x: Real,
        y: Real,
    )
        ensures
            ({
                let rid = measurement_relation_id_spec(y_channel, x_channel) as u32;
                let s = Sample { x, y };
                let old_buf = if old(self).measurement_samples@.contains_key(rid) {
                    old(self).measurement_samples@[rid]@
                } else {
                    Seq::empty()
                };
                let old_count: u32 = if old(self).experimental_count_by_relation@.contains_key(rid) {
                    old(self).experimental_count_by_relation@[rid]
                } else {
                    0
                };
                &&& final(self).measurement_samples@.dom() == old(self).measurement_samples@.dom().insert(rid)
                &&& forall|k: u32| k != rid && #[trigger] old(self).measurement_samples@.contains_key(k)
                    ==> final(self).measurement_samples@[k] == old(self).measurement_samples@[k]
                &&& final(self).measurement_samples@[rid]@ == window_push(
                    window_push(old_buf, s, old(self).max_window as nat),
                    s,
                    old(self).max_window as nat,
                )
                &&& final(self).measurement_next_attempt@ == if old(self).measurement_next_attempt@.contains_key(rid) {
                    old(self).measurement_next_attempt@
                } else {
                    old(self).measurement_next_attempt@.insert(rid, 0)
                }
                &&& final(self).measurements@ == if exists|i: int|
                    0 <= i < old(self).measurements.len()
                        && #[trigger] old(self).measurements[i].relation_id == rid {
                    old(self).measurements@
                } else {
                    old(self).measurements@.push(MeasurementCandidate {
                        relation_id: rid,
                        y_channel,
                        x_channel,
                        residual_basis: None,
                        residual_depth: 0,
                    })
                }
                &&& final(self).experimental_count_by_relation@ == old(self).experimental_count_by_relation@.insert(
                    rid,
                    old_count.saturating_add(2),
                )
            }),
            final(self).track() == track_after_record(old(self).track(), y_channel, x_channel, x, y, old(self).max_window as nat),
            final(self).candidates@ == old(self).candidates@,
            final(self).samples@ == old(self).samples@,
            final(self).confirmed@ == old(self).confirmed@,
            final(self).max_window == old(self).max_window,
    {
        let relation_id = measurement_relation_id(y_channel, x_channel);
        let mut buf = match self.measurement_samples.remove(&relation_id) {
            Some(b) => b,
            None => VecDeque::new(),
        };
        let s = Sample { x, y };
        push_window(&mut buf, s, self.max_window);
        push_window(&mut buf, s, self.max_window);
        self.measurement_samples.insert(relation_id, buf);
        if !self.measurement_next_attempt.contains_key(&relation_id) {
            self.measurement_next_attempt.insert(relation_id, 0);
        }
        let mut found = false;
        let mut i: usize = 0;
        while i < self.measurements.len()
            invariant
                i <= self.measurements.len(),
                found <==> exists|j: int| 0 <= j < i && #[trigger] self.measurements[j].relation_id == relation_id,
            decreases self.measurements.len() - i,
        {
            if self.measurements[i].relation_id == relation_id {
                found = true;
            }
            i = i + 1;
        }
        if !found {
            self.measurements.push(MeasurementCandidate::new(y_channel, x_channel));
        }
        let count = match self.experimental_count_by_relation.get(&relation_id) {
            Some(c) => *c,
            None => 0,
        };
        self.experimental_count_by_relation.insert(relation_id, count.saturating_add(2));
        proof {
            assert(final(self).measurement_samples@.dom() =~= old(self).measurement_samples@.dom().insert(relation_id));
            let t = track_after_record(old(self).track(), y_channel, x_channel, x, y, old(self).max_window as nat);
            assert(self.track().samples =~= t.samples);
        }
    }

    /// Register an alternative fit as a rival hypothesis. Rejected (and
    /// nothing changes) when the primary or an existing rival already
    /// has the same form; otherwise appended to the rivals list.
    pub fn add_rival_hypothesis(&mut self, relation_id: u32, rival: ConfirmedRelation) -> (accepted: bool)
        ensures
            ({
                let primary_same = old(self).confirmed@.contains_key(relation_id)
                    && old(self).confirmed@[relation_id].form == rival.form;
                let existing = rivals_of(old(self).rivals@, relation_id);
                &&& accepted == (!primary_same && !has_form(existing, rival.form))
                &&& accepted ==> final(self).rivals@.contains_key(relation_id)
                    && final(self).rivals@[relation_id]@ == existing.push(rival)
                    && forall|k: u32| k != relation_id ==> #[trigger] final(self).rivals@.contains_key(k)
                        == old(self).rivals@.contains_key(k) && (old(self).rivals@.contains_key(k)
                        ==> final(self).rivals@[k] == old(self).rivals@[k])
                &&& !accepted ==> final(self).rivals@ == old(self).rivals@
            }),
            final(self).confirmed@ == old(self).confirmed@,
            final(self).candidates@ == old(self).candidates@,
    {
        match self.confirmed.get(&relation_id) {
            Some(primary) => {
                if primary.form == rival.form {
                    return false;
                }
            },
            None => {},
        }
        assert(!(old(self).confirmed@.contains_key(relation_id) && old(self).confirmed@[relation_id].form == rival.form));
        let mut dup = false;
        match self.rivals.get(&relation_id) {
            Some(entry) => {
                let mut i: usize = 0;
                while i < entry.len()
                    invariant
                        i <= entry.len(),
                        dup <==> exists|j: int| 0 <= j < i && #[trigger] entry@[j].form == rival.form,
                    decreases entry.len() - i,
                {
                    if entry[i].form == rival.form {
                        dup = true;
                    }
                    i = i + 1;
                }
            },
            None => {},
        }
        proof {
            let existing = rivals_of(old(self).rivals@, relation_id);
            if dup {
                let j = choose|j: int| 0 <= j < old(self).rivals@[relation_id]@.len() && #[trigger] old(self).rivals@[relation_id]@[j].form == rival.form;
                assert(existing[j].form == rival.form);
                assert(has_form(existing, rival.form));
            } else {
                assert(!has_form(existing, rival.form));
            }
        }
        if dup {
            return false;
        }
        let mut entry = match self.rivals.remove(&relation_id) {
            Some(e) => e,
            None => Vec::new(),
        };
        entry.push(rival);
        self.rivals.insert(relation_id, entry);
        true
    }
}


/// Index of the last rival with the highest confidence.
pub open spec fn is_best_rival(rs: Seq<ConfirmedRelation>, b: int) -> bool {
    &&& 0 <= b < rs.len()
    &&& forall|j: int| 0 <= j < rs.len() ==> #[trigger] rs[j].confidence@ <= rs[b].confidence@
    &&& forall|j: int| b < j < rs.len() ==> #[trigger] rs[j].confidence@ < rs[b].confidence@
}

impl Hypothesizer {
    /// When the best rival (highest confidence, the last among equals)
    /// beats the primary, swap them: the rival becomes primary and the
    /// old primary joins the end of the rivals list. Returns the
    /// `(displaced, new)` forms; `None`, with nothing changed, when
    /// there is no rival, no primary, or no rival beats it.
    pub fn displace_primary_with_best_rival(&mut self, relation_id: u32) -> (r: Option<(Form, Form)>)
        ensures
            ({
                let rs = rivals_of(old(self).rivals@, relation_id);
                let has_primary = old(self).confirmed@.contains_key(relation_id);
                match r {
                    None => {
                        &&& final(self).rivals@ == old(self).rivals@
                        &&& final(self).confirmed@ == old(self).confirmed@
                        &&& (rs.len() == 0 || !has_primary || forall|b: int| is_best_rival(rs, b)
                            ==> rs[b].confidence@ <= old(self).confirmed@[relation_id].confidence@)
                    },
                    Some((old_form, new_form)) => exists|b: int| {
                        &&& #[trigger] is_best_rival(rs, b)
                        &&& has_primary
                        &&& rs[b].confidence@ > old(self).confirmed@[relation_id].confidence@
                        &&& old_form == old(self).confirmed@[relation_id].form
                        &&& new_form == rs[b].form
                        &&& final(self).confirmed@ == old(self).confirmed@.insert(relation_id, rs[b])
                        &&& final(self).rivals@.dom() == old(self).rivals@.dom()
                        &&& final(self).rivals@[relation_id]@ == rs.remove(b).push(
                            old(self).confirmed@[relation_id],
                        )
                        &&& forall|k: u32| k != relation_id && #[trigger] old(self).rivals@.contains_key(k)
                            ==> final(self).rivals@[k] == old(self).rivals@[k]
                    },
                }
            }),
            final(self).candidates@ == old(self).candidates@,
    {
        let best: usize;
        match self.rivals.get(&relation_id) {
            None => {
                return None;
            },
            Some(rs) => {
                if rs.len() == 0 {
                    return None;
                }
                let mut b: usize = 0;
                let mut i: usize = 1;
                while i < rs.len()
                    invariant
                        1 <= i <= rs.len(),
                        b < i,
                        forall|j: int| 0 <= j < i ==> #[trigger] rs@[j].confidence@ <= rs@[b as int].confidence@,
                        forall|j: int| b < j < i ==> #[trigger] rs@[j].confidence@ < rs@[b as int].confidence@,
                    decreases rs.len() - i,
                {
                    if rs[i].confidence.to_bits() >= rs[b].confidence.to_bits() {
                        b = i;
                    }
                    i = i + 1;
                }
                best = b;
                proof {
                    assert(is_best_rival(rivals_of(old(self).rivals@, relation_id), best as int));
                }
                match self.confirmed.get(&relation_id) {
                    None => {
                        return None;
                    },
                    Some(primary) => {
                        if rs[best].confidence.to_bits() <= primary.confidence.to_bits() {
                            proof {
                                let rsv = rivals_of(old(self).rivals@, relation_id);
                                assert forall|bb: int| is_best_rival(rsv, bb) implies rsv[bb].confidence@
                                    <= old(self).confirmed@[relation_id].confidence@ by {
                                    assert(rsv[bb].confidence@ <= rsv[best as int].confidence@);
                                }
                            }
                            return None;
                        }
                    },
                }
            },
        }
        let mut rs = self.rivals.remove(&relation_id).unwrap();
        let primary = self.confirmed.remove(&relation_id).unwrap();
        let new_primary = rs.remove(best);
        let old_form = primary.form;
        let new_form = new_primary.form;
        self.confirmed.insert(relation_id, new_primary);
        rs.push(primary);
        self.rivals.insert(relation_id, rs);
        proof {
            assert(final(self).rivals@.dom() =~= old(self).rivals@.dom());
            assert(final(self).confirmed@ =~= old(self).confirmed@.insert(relation_id, rivals_of(old(self).rivals@, relation_id)[best as int]));
            assert(is_best_rival(rivals_of(old(self).rivals@, relation_id), best as int));
        }
        Some((old_form, new_form))
    }
}

/// Stable tie-break among forms with the same parameter count: the more
/// structural form first.
pub open spec fn form_tiebreak(f: Form) -> nat {
    match f {
        Form::Constant => 0,
        Form::Linear => 0,
        Form::InverseSquare => 1,
        Form::Logarithmic => 2,
        Form::ExpDecay => 3,
        Form::ExpGrowth => 4,
        Form::PowerLaw => 5,
        Form::ThresholdStep => 0,
        Form::Polynomial2 => 1,
        Form::Logistic => 2,
        Form::Polynomial3 => 0,
        Form::PeriodicSine => 1,
    }
}

/// Stable tie-break ordering when two forms share a parameter count.
pub fn form_priority_tiebreak(f: Form) -> (r: u8)
    ensures
        r == form_tiebreak(f),
{
    match f {
        Form::Constant => 0,
        Form::Linear => 0,
        Form::InverseSquare => 1,
        Form::Logarithmic => 2,
        Form::ExpDecay => 3,
        Form::ExpGrowth => 4,
        Form::PowerLaw => 5,
        Form::ThresholdStep => 0,
        Form::Polynomial2 => 1,
        Form::Logistic => 2,
        Form::Polynomial3 => 0,
        Form::PeriodicSine => 1,
    }
}

/// The key forms are tried by: low arity first, then the tie-break.
pub open spec fn form_key(f: Form) -> nat {
    form_param_count(f) * 8 + form_tiebreak(f)
}

/// The forms of `avail` with key `k`, in their given order.
pub open spec fn forms_with_key(avail: Seq<Form>, k: nat) -> Seq<Form> {
    avail.filter(|f: Form| form_key(f) == k)
}

/// `avail` stably sorted by key: the forms with key `0`, then key `1`,
/// …, up to key `k - 1`.
pub open spec fn forms_sorted_below(avail: Seq<Form>, k: nat) -> Seq<Form>
    decreases k,
{
    if k == 0 {
        Seq::empty()
    } else {
        forms_sorted_below(avail, (k - 1) as nat) + forms_with_key(avail, (k - 1) as nat)
    }
}

/// `avail` in the order fits are tried (every key is below 40).
pub open spec fn forms_in_priority_order(avail: Seq<Form>) -> Seq<Form> {
    forms_sorted_below(avail, 40)
}

/// Sort forms by `(param_count, tie-break)`, keeping the given order
/// among equal keys.
pub fn sort_forms_by_priority(avail: &Vec<Form>) -> (v: Vec<Form>)
    ensures
        v@ == forms_in_priority_order(avail@),
{
    let mut out: Vec<Form> = Vec::new();
    let mut k: usize = 0;
    while k < 40
        invariant
            k <= 40,
            out@ == forms_sorted_below(avail@, k as nat),
        decreases 40 - k,
    {
        let mut i: usize = 0;
        let ghost start = out@;
        while i < avail.len()
            invariant
                k < 40,
                i <= avail.len(),
                start == forms_sorted_below(avail@, k as nat),
                out@ == start + forms_with_key(avail@.subrange(0, i as int), k as nat),
            decreases avail.len() - i,
        {
            let f = avail[i];
            let key = f.param_count() * 8 + form_priority_tiebreak(f) as usize;
            proof {
                let sub = avail@.subrange(0, i as int);
                assert(avail@.subrange(0, i + 1) =~= sub.push(f));
                reveal(Seq::filter);
                assert(sub.push(f).drop_last() =~= sub);
            }
            if key == k {
                out.push(f);
                proof {
                    assert(out@ =~= start + forms_with_key(avail@.subrange(0, i + 1), k as nat));
                }
            }
            i = i + 1;
        }
        proof {
            assert(avail@.subrange(0, i as int) =~= avail@);
        }
        k = k + 1;
    }
    out
}


/// Sum of a sequence of bit patterns.
pub open spec fn seq_sum(v: Seq<int>) -> int
    decreases v.len(),
{
    if v.len() == 0 {
        0
    } else {
        seq_sum(v.drop_last()) + v.last()
    }
}

/// Sum of the Q32.32 squares of `v[i] − m`.
pub open spec fn seq_sq_dev(v: Seq<int>, m: int) -> int
    decreases v.len(),
{
    if v.len() == 0 {
        0
    } else {
        seq_sq_dev(v.drop_last(), m) + mul_bits(v.last() - m, v.last() - m)
    }
}

/// The mean of `v` as computed: the sum divided by the count.
pub open spec fn seq_mean(v: Seq<int>) -> int {
    div_bits(seq_sum(v), int_bits(v.len() as int))
}

/// The variance of `v` as computed: mean squared deviation.
pub open spec fn seq_variance(v: Seq<int>) -> int {
    div_bits(seq_sq_dev(v, seq_mean(v)), int_bits(v.len() as int))
}

/// The variance of `v` is computed without overflow: every partial sum
/// fits, every deviation and its square fit, every partial sum of
/// squares fits.
pub open spec fn variance_ok(v: Seq<int>) -> bool {
    &&& forall|k: int| 0 <= k <= v.len() ==> fits(#[trigger] seq_sum(v.take(k)))
    &&& forall|i: int|
        0 <= i < v.len() ==> fits(#[trigger] v[i] - seq_mean(v)) && mul_ok(
            v[i] - seq_mean(v),
            v[i] - seq_mean(v),
        )
    &&& forall|k: int| 0 <= k <= v.len() ==> fits(#[trigger] seq_sq_dev(v.take(k), seq_mean(v)))
}

/// The `x` readings of a sample window.
pub open spec fn sample_xs(s: Seq<Sample>) -> Seq<int> {
    Seq::new(s.len(), |i: int| s[i].x@)
}

/// Raw bit patterns as integers.
pub open spec fn bits_of(v: Seq<i64>) -> Seq<int> {
    Seq::new(v.len(), |i: int| v[i] as int)
}

/// The `y` readings of a sample window.
pub open spec fn sample_ys(s: Seq<Sample>) -> Seq<int> {
    Seq::new(s.len(), |i: int| s[i].y@)
}

/// `1e-4` in Q32.32, the trivial-variance threshold.
pub open spec fn trivial_variance_threshold() -> int {
    ratio_bits(1, 10_000)
}

/// A window is trivial when it has fewer than two samples or the
/// variance of either axis is below `1e-4`.
pub open spec fn trivial_spec(s: Seq<Sample>) -> bool {
    s.len() < 2 || seq_variance(sample_xs(s)) < trivial_variance_threshold() || seq_variance(
        sample_ys(s),
    ) < trivial_variance_threshold()
}

/// A constant sequence sums to its length times the constant.
proof fn lemma_constant_sum(v: Seq<int>, c: int)
    requires
        forall|i: int| 0 <= i < v.len() ==> v[i] == c,
    ensures
        seq_sum(v) == v.len() * c,
    decreases v.len(),
{
    if v.len() > 0 {
        lemma_constant_sum(v.drop_last(), c);
        assert(v.len() * c == (v.len() - 1) * c + c) by (nonlinear_arith);
    }
}

/// A constant sequence has no deviation from its constant.
proof fn lemma_constant_sq_dev(v: Seq<int>, c: int)
    requires
        forall|i: int| 0 <= i < v.len() ==> v[i] == c,
    ensures
        seq_sq_dev(v, c) == 0,
    decreases v.len(),
{
    if v.len() > 0 {
        lemma_constant_sq_dev(v.drop_last(), c);
        assert(mul_bits(0, 0) == 0);
    }
}

/// A non-empty constant sequence has zero variance.
proof fn lemma_constant_variance(v: Seq<int>, c: int)
    requires
        v.len() >= 1,
        forall|i: int| 0 <= i < v.len() ==> v[i] == c,
    ensures
        seq_variance(v) == 0,
{
    let n = v.len() as int;
    let s = scale();
    lemma_constant_sum(v, c);
    assert(n * s > 0) by (nonlinear_arith) requires n >= 1, s == 4294967296;
    assert(seq_mean(v) == c) by {
        assert(seq_sum(v) * s == (n * s) * c) by (nonlinear_arith) requires seq_sum(v) == n * c;
        if c >= 0 {
            assert((n * s) * c >= 0) by (nonlinear_arith) requires n * s > 0, c >= 0;
            vstd::arithmetic::div_mod::lemma_div_multiples_vanish(c, n * s);
        } else {
            assert(-(seq_sum(v) * s) == (n * s) * (-c)) by (nonlinear_arith) requires seq_sum(v) * s == (n * s) * c;
            assert((n * s) * c < 0) by (nonlinear_arith) requires n * s > 0, c < 0;
            vstd::arithmetic::div_mod::lemma_div_multiples_vanish(-c, n * s);
        }
    }
    lemma_constant_sq_dev(v, c);
    assert(div_bits(0, int_bits(n)) == 0);
}

/// A window of at least two samples whose `y` readings are all equal is
/// trivial whatever its `x` readings, and one whose `x` readings are all
/// equal is trivial whatever its `y` readings: a flat axis carries no
/// law.
pub proof fn lemma_flat_axis_is_trivial(s: Seq<Sample>)
    requires
        s.len() >= 2,
    ensures
        (forall|i: int| 0 <= i < s.len() ==> #[trigger] s[i].y == s[0].y) ==> trivial_spec(s),
        (forall|i: int| 0 <= i < s.len() ==> #[trigger] s[i].x == s[0].x) ==> trivial_spec(s),
{
    crate::arith::lemma_ratio_value(1, 10_000);
    assert(trivial_variance_threshold() > 0) by {
        assert(scale() / 10_000 > 0);
    }
    if forall|i: int| 0 <= i < s.len() ==> #[trigger] s[i].y == s[0].y {
        let ys = sample_ys(s);
        assert forall|i: int| 0 <= i < ys.len() implies ys[i] == s[0].y@ by {
            assert(s[i].y == s[0].y);
        }
        lemma_constant_variance(ys, s[0].y@);
    }
    if forall|i: int| 0 <= i < s.len() ==> #[trigger] s[i].x == s[0].x {
        let xs = sample_xs(s);
        assert forall|i: int| 0 <= i < xs.len() implies xs[i] == s[0].x@ by {
            assert(s[i].x == s[0].x);
        }
        lemma_constant_variance(xs, s[0].x@);
    }
}

/// The inputs on which the trivial-measurement filter computes without
/// overflow.
pub open spec fn trivial_ok(s: Seq<Sample>) -> bool {
    s.len() < 0x8000_0000 && (s.len() >= 2 ==> variance_ok(sample_xs(s)) && variance_ok(
        sample_ys(s),
    ))
}

/// Variance of one axis of a sample window.
fn axis_variance(v: &Vec<i64>) -> (r: Real)
    requires
        2 <= v.len() < 0x8000_0000,
        variance_ok(bits_of(v@)),
    ensures
        r@ == seq_variance(bits_of(v@)),
{
    let ghost w = bits_of(v@);
    let n = Real::from_int(v.len() as i64);
    let mut sum = Real::zero();
    let mut i: usize = 0;
    while i < v.len()
        invariant
            i <= v.len(),
            w == bits_of(v@),
            variance_ok(w),
            sum@ == seq_sum(w.take(i as int)),
        decreases v.len() - i,
    {
        proof {
            assert(w.take(i + 1).drop_last() =~= w.take(i as int));
            assert(fits(seq_sum(w.take(i + 1))));
        }
        sum = sum.add(Real::from_bits(v[i]));
        i = i + 1;
    }
    proof {
        assert(w.take(i as int) =~= w);
        assert(w.len() == v.len());
        crate::transcendental::lemma_div_int_bound(sum@, v.len() as int);
    }
    let mean = sum.div(n);
    let mut sq = Real::zero();
    let mut j: usize = 0;
    while j < v.len()
        invariant
            j <= v.len(),
            w == bits_of(v@),
            variance_ok(w),
            mean@ == seq_mean(w),
            sq@ == seq_sq_dev(w.take(j as int), mean@),
        decreases v.len() - j,
    {
        proof {
            assert(w.take(j + 1).drop_last() =~= w.take(j as int));
            assert(fits(seq_sq_dev(w.take(j + 1), seq_mean(w))));
            assert(w[j as int] == v@[j as int]);
        }
        let d = Real::from_bits(v[j]).sub(mean);
        sq = sq.add(d.mul(d));
        j = j + 1;
    }
    proof {
        assert(w.take(j as int) =~= w);
        crate::transcendental::lemma_div_int_bound(sq@, v.len() as int);
    }
    sq.div(n)
}

/// Whether a measurement window is degenerate: fewer than two samples,
/// or near-zero variance (below `1e-4`) on either axis, so any
/// confirmed law would be an artefact of sampling identical points.
pub fn is_trivial_measurement(samples: &Vec<Sample>) -> (b: bool)
    requires
        trivial_ok(samples@),
    ensures
        b == trivial_spec(samples@),
{
    if samples.len() < 2 {
        return true;
    }
    let mut xs: Vec<i64> = Vec::new();
    let mut ys: Vec<i64> = Vec::new();
    let mut i: usize = 0;
    while i < samples.len()
        invariant
            i <= samples.len(),
            bits_of(xs@) =~= sample_xs(samples@.take(i as int)),
            bits_of(ys@) =~= sample_ys(samples@.take(i as int)),
            xs.len() == i,
            ys.len() == i,
        decreases samples.len() - i,
    {
        let ghost xs0 = xs@;
        let ghost ys0 = ys@;
        xs.push(samples[i].x.to_bits());
        ys.push(samples[i].y.to_bits());
        proof {
            assert forall|k: int| 0 <= k < i + 1 implies #[trigger] bits_of(xs@)[k]
                == sample_xs(samples@.take(i + 1))[k] by {
                if k < i {
                    assert(bits_of(xs0)[k] == sample_xs(samples@.take(i as int))[k]);
                }
            }
            assert forall|k: int| 0 <= k < i + 1 implies #[trigger] bits_of(ys@)[k]
                == sample_ys(samples@.take(i + 1))[k] by {
                if k < i {
                    assert(bits_of(ys0)[k] == sample_ys(samples@.take(i as int))[k]);
                }
            }
        }
        i = i + 1;
    }
    proof {
        assert(samples@.take(i as int) =~= samples@);
    }
    let var_x = axis_variance(&xs);
    let var_y = axis_variance(&ys);
    let threshold = Real::from_ratio(1, 10_000);
    var_x.to_bits() < threshold.to_bits() || var_y.to_bits() < threshold.to_bits()
}


/// Fit outcomes for one sample window, one entry per form in
/// `all_forms()` order, each confidence in `[0, 1]`.
pub open spec fn fit_table_ok(t: Seq<Option<FitResult>>) -> bool {
    &&& t.len() == 12
    &&& forall|i: int|
        0 <= i < 12 ==> (#[trigger] t[i] matches Some(r) ==> r.form == all_forms()[i] && 0
            <= r.confidence@ <= scale() && 0 <= r.residual@ <= 0x1000_0000_0000_0000)
}

/// A fit's confidence after cosmology suppression `sup` and focus weight
/// `focus`, capped at one.
pub open spec fn adjusted_confidence(conf: int, sup: int, focus: int) -> int {
    min_bits(mul_bits(mul_bits(conf, sup), focus), scale())
}

/// The suppression a cosmology with dogmatism `dog` applies to form `f`.
pub open spec fn form_suppression(f: Form, c: Cosmology, dog: int) -> int {
    suppression_bits(dog, clamp01_bits(form_distance_raw(f, c)))
}

/// Position, in `sorted` from `i` on, of the first form whose fit
/// confirms after adjustment.
pub open spec fn first_confirmable(
    sorted: Seq<Form>,
    table: Seq<Option<FitResult>>,
    c: Cosmology,
    dog: int,
    i: int,
) -> Option<int>
    decreases sorted.len() - i,
{
    if i < 0 || i >= sorted.len() {
        None
    } else {
        match table[form_index(sorted[i]) as int] {
            Some(r) => if adjusted_confidence(
                r.confidence@,
                form_suppression(sorted[i], c, dog),
                focus_weight_bits(c),
            ) >= exp_neg_one_bits() {
                Some(i)
            } else {
                first_confirmable(sorted, table, c, dog, i + 1)
            },
            None => first_confirmable(sorted, table, c, dog, i + 1),
        }
    }
}

/// The outcome of the confirmation search: the fit found at position
/// `p` of the priority order with its adjusted confidence, or nothing.
pub open spec fn confirmable_result(
    r: Option<FitResult>,
    avail: Seq<Form>,
    table: Seq<Option<FitResult>>,
    c: Cosmology,
    dog: int,
) -> bool {
    let sorted = forms_in_priority_order(avail);
    match first_confirmable(sorted, table, c, dog, 0) {
        None => r is None,
        Some(p) => {
            let src = table[form_index(sorted[p]) as int]->Some_0;
            &&& r matches Some(res)
            &&& res.form == src.form
            &&& res.params@ == src.params@
            &&& res.residual == src.residual
            &&& res.n_samples == src.n_samples
            &&& res.confidence@ == adjusted_confidence(
                src.confidence@,
                form_suppression(sorted[p], c, dog),
                focus_weight_bits(c),
            )
        },
    }
}

/// Try the available forms in priority order (low arity first, then
/// the tie-break) and return the first whose fit, after cosmology
/// suppression and the focus weight, clears `exp(-1)`.
pub fn best_confirmable_fit(
    table: &Vec<Option<FitResult>>,
    available_forms: &Vec<Form>,
    cosmology: &Cosmology,
) -> (r: Option<FitResult>)
    requires
        fit_table_ok(table@),
        cosmology.wf(),
    ensures
        exists|dog: int| dogmatism_rel(*cosmology, dog) && #[trigger] confirmable_result(r, available_forms@, table@, *cosmology, dog),
{
    let dog = cosmology.dogmatism();
    let focus = focus_weight_for(0, cosmology);
    let threshold = crate::discovery::types::exp_neg_one();
    let sorted = sort_forms_by_priority(available_forms);
    let mut i: usize = 0;
    while i < sorted.len()
        invariant
            i <= sorted.len(),
            sorted@ == forms_in_priority_order(available_forms@),
            fit_table_ok(table@),
            cosmology.wf(),
            dogmatism_rel(*cosmology, dog@),
            0 <= dog@ <= scale(),
            focus@ == focus_weight_bits(*cosmology),
            scale() / 2 - 2 <= focus@ <= scale() + scale() / 2,
            threshold@ == exp_neg_one_bits(),
            first_confirmable(sorted@, table@, *cosmology, dog@, 0) == first_confirmable(sorted@, table@, *cosmology, dog@, i as int),
        decreases sorted.len() - i,
    {
        let f = sorted[i];
        let k = f.index();
        match &table[k] {
            Some(res) => {
                let sup = suppress_confidence_with(f, cosmology, dog);
                proof {
                    assert(table@[k as int] matches Some(rr) && 0 <= rr.confidence@ <= scale());
                    crate::transcendental::lemma_mul_bits_bound(res.confidence@, sup@);
                    assert(res.confidence@ * sup@ <= scale() * scale()) by (nonlinear_arith)
                        requires 0 <= res.confidence@ <= scale(), 0 <= sup@ <= scale();
                    assert(res.confidence@ * sup@ >= 0) by (nonlinear_arith)
                        requires 0 <= res.confidence@, 0 <= sup@;
                    let m1 = mul_bits(res.confidence@, sup@);
                    assert(0 <= m1 <= scale()) by (nonlinear_arith)
                        requires scale() * m1 <= res.confidence@ * sup@, res.confidence@ * sup@ <= scale() * scale(),
                            m1 >= 0, scale() > 0;
                    assert(m1 * focus@ <= scale() * (2 * scale())) by (nonlinear_arith)
                        requires 0 <= m1 <= scale(), 0 <= focus@ <= 2 * scale();
                    assert(m1 * focus@ >= 0) by (nonlinear_arith) requires 0 <= m1, 0 <= focus@;
                }
                let conf = res.confidence.mul(sup).mul(focus).min(Real::one());
                if conf.to_bits() >= threshold.to_bits() {
                    let out = FitResult {
                        form: res.form,
                        params: res.params.clone(),
                        residual: res.residual,
                        confidence: conf,
                        n_samples: res.n_samples,
                    };
                    proof {
                        assert(out.params@ =~= res.params@);
                        assert(confirmable_result(Some(out), available_forms@, table@, *cosmology, dog@));
                    }
                    return Some(out);
                }
            },
            None => {},
        }
        i = i + 1;
    }
    proof {
        assert(confirmable_result(None, available_forms@, table@, *cosmology, dog@));
    }
    None
}


/// Fit outcomes for one relation's current sample window.
pub struct RelationFits {
    /// Fit of every form, in `all_forms()` order.
    pub fits: Vec<Option<FitResult>>,
    /// RMSE of the relation's current form and parameters on the window
    /// (after any revalidation re-fit).
    pub active_residual: Real,
    /// Fit tolerance for the current form, intelligence and window size.
    pub active_tolerance: Real,
}

/// The fit outcomes for a relation id (empty when none were supplied).
pub open spec fn relation_fits_ok(f: RelationFits) -> bool {
    fit_table_ok(f.fits@)
}

/// An all-empty fit table.
fn empty_fits() -> (v: Vec<Option<FitResult>>)
    ensures
        fit_table_ok(v@),
        forall|i: int| 0 <= i < 12 ==> #[trigger] v@[i] is None,
{
    let mut v: Vec<Option<FitResult>> = Vec::new();
    let mut i: usize = 0;
    while i < 12
        invariant
            i <= 12,
            v.len() == i,
            forall|j: int| 0 <= j < i ==> #[trigger] v@[j] is None,
        decreases 12 - i,
    {
        v.push(None);
        i = i + 1;
    }
    v
}

/// The `next_period` of a step: the attempt period divided by a
/// discovery-rate multiplier above one (floored at one tick).
pub open spec fn next_period_spec(attempt_period: u64, rate: int) -> int {
    if rate <= scale() {
        attempt_period as int
    } else {
        let raw: int = if attempt_period == 0 { 1 } else { attempt_period as int };
        let q = div_bits(int_bits(raw), rate) / scale();
        let floor: int = if q < 0 { 0 } else { q };
        if floor < 1 { 1 } else { floor }
    }
}

/// The step's inputs satisfy the fixed-point preconditions: every
/// supplied fit table is well formed with confidences in `[0, 1]`,
/// every confirmed relation's step is computable, and every measurement
/// window's variance is computable.
pub open spec fn step_ready(h: Hypothesizer, inputs: Map<u32, RelationFits>, tick: u64) -> bool {
    &&& tick <= u64::MAX - 200
    &&& h.measurement_count_ok()
    &&& forall|k: u32| #[trigger] inputs.contains_key(k) ==> relation_fits_ok(inputs[k])
    &&& forall|k: u32|
        #[trigger] h.confirmed@.contains_key(k) && inputs.contains_key(k) ==> step_inputs_ok(
            h.confirmed@[k],
            inputs[k].active_residual@,
            inputs[k].active_tolerance@,
            tick,
        )
    &&& forall|k: u32|
        #[trigger] h.confirmed@.contains_key(k) && !inputs.contains_key(k) ==> step_inputs_ok(
            h.confirmed@[k],
            0,
            0,
            tick,
        )
    &&& forall|k: u32|
        #[trigger] h.measurement_samples@.contains_key(k) ==> trivial_ok(h.measurement_samples@[k]@)
}


/// The inherited-from civ recorded on a relation (zero when native).
pub open spec fn from_civ_of(r: ConfirmedRelation) -> u32 {
    match r.inherited_from_civ_id {
        Some(c) => c,
        None => 0,
    }
}

/// One confirmed relation's step through its phases, with the
/// intermediate relations and event sequences named: revalidation
/// (`r1`, outcome `out`; a lapse drops the relation with a `Lapsed`
/// event, a graduation emits `Revalidated`), drift tracking against the
/// active readings (`r2`; a falsification emits `Falsified`), then the
/// probation step when a refinement was pending after revalidation, or
/// else the refinement search (`r3`, its flag `flag`).
pub open spec fn confirmed_chain(
    old_r: ConfirmedRelation,
    rid: u32,
    fits: Seq<Option<FitResult>>,
    active_residual: Real,
    active_tolerance: Real,
    tick: u64,
    doubt: Real,
    trigger: u64,
    forms: Seq<Form>,
    period: u64,
    window_len: usize,
    ev0: Seq<HypothesisEvent>,
    ev1: Seq<HypothesisEvent>,
    new_r: Option<ConfirmedRelation>,
    r1: ConfirmedRelation,
    out: Revalidation,
    r2: ConfirmedRelation,
    falsified: bool,
    e1: Seq<HypothesisEvent>,
    e2: Seq<HypothesisEvent>,
    r3: ConfirmedRelation,
    flag: bool,
) -> bool {
    &&& revalidated(old_r, fits, tick, r1, out)
    &&& if out == Revalidation::Lapsed {
        &&& new_r is None
        &&& ev1 == ev0.push(
            HypothesisEvent::Lapsed {
                relation_id: rid,
                template_id: r1.template_id,
                from_civ_id: from_civ_of(old_r),
                attempted_form: r1.form,
            },
        )
    } else {
        let ac = Real { bits: active_confidence_bits(active_residual@, active_tolerance@) as i64 };
        &&& e1 == (if out == Revalidation::Graduated {
            ev0.push(
                HypothesisEvent::Revalidated {
                    relation_id: rid,
                    template_id: r1.template_id,
                    from_civ_id: from_civ_of(old_r),
                    new_residual: r1.residual,
                    new_confidence: r1.confidence,
                },
            )
        } else {
            ev0
        })
        &&& drift_tracked(r1, active_residual, ac, window_len, trigger, r1.refinement is Some, r2, falsified)
        &&& e2 == (if falsified {
            e1.push(
                HypothesisEvent::Falsified {
                    relation_id: rid,
                    template_id: r2.template_id,
                    old_form: r2.form,
                    streak_ticks: trigger,
                },
            )
        } else {
            e1
        })
        &&& if r1.refinement is Some {
            probation_stepped(r2, fits, tick, e2, ev1, r3, flag)
        } else {
            refinement_stepped(r2, ac, fits, forms, tick, r1.cooldown_until, period, doubt, e2, ev1, r3, flag)
        }
        &&& new_r == Some(r3)
    }
}

/// Length of a relation's sample window (zero without one).
pub open spec fn window_len_of(samples: Map<u32, VecDeque<Sample>>, k: u32) -> usize {
    if samples.contains_key(k) {
        samples[k]@.len() as usize
    } else {
        0
    }
}

/// A confirmed relation's step takes `old_r` to `new_r` (`None` when it
/// lapsed) and the events from `ev0` to `ev1`, through some chain of
/// phases.
pub open spec fn confirmed_stepped(
    old_r: ConfirmedRelation,
    rid: u32,
    fits: Seq<Option<FitResult>>,
    active_residual: Real,
    active_tolerance: Real,
    tick: u64,
    doubt: Real,
    trigger: u64,
    forms: Seq<Form>,
    period: u64,
    window_len: usize,
    ev0: Seq<HypothesisEvent>,
    ev1: Seq<HypothesisEvent>,
    new_r: Option<ConfirmedRelation>,
) -> bool {
    exists|r1: ConfirmedRelation, out: Revalidation, r2: ConfirmedRelation, falsified: bool,
        e1: Seq<HypothesisEvent>, e2: Seq<HypothesisEvent>, r3: ConfirmedRelation, flag: bool|
        #[trigger] confirmed_chain(old_r, rid, fits, active_residual, active_tolerance, tick, doubt, trigger, forms, period, window_len, ev0, ev1, new_r, r1, out, r2, falsified, e1, e2, r3, flag)
}

/// The entry of a map, if any.
pub open spec fn entry_of(m: Map<u32, ConfirmedRelation>, k: u32) -> Option<ConfirmedRelation> {
    if m.contains_key(k) {
        Some(m[k])
    } else {
        None
    }
}


/// Candidate `j` is the first with id `rid`.
pub open spec fn is_first_candidate(cs: Seq<CandidateRelation>, rid: u32, j: int) -> bool {
    &&& 0 <= j < cs.len()
    &&& cs[j].relation_id == rid
    &&& forall|k: int| 0 <= k < j ==> #[trigger] cs[k].relation_id != rid
}

/// The relation a candidate becomes when confirmed with fit `res` at
/// `tick`: native, with the fit's form, parameters and readings, no
/// streaks, no cooldown and no refinement.
pub open spec fn newly_confirmed(c: CandidateRelation, res: FitResult, tick: u64) -> ConfirmedRelation {
    ConfirmedRelation {
        relation_id: c.relation_id,
        template_id: c.template_id,
        channel: c.channel,
        form: res.form,
        params: res.params,
        residual: res.residual,
        confidence: res.confidence,
        n_samples: res.n_samples,
        confirmed_at_tick: tick,
        low_confidence_streak: 0,
        cooldown_until: 0,
        refinement: None,
        initial_residual: res.residual,
        falsification_streak: 0,
        inherited_from_tick: None,
        inherited_from_civ_id: None,
    }
}

/// An unconfirmed relation's step: with no candidate of that id, or no
/// confirmable fit, nothing changes; otherwise the first candidate of
/// that id is confirmed with the best confirmable fit and a `Confirmed`
/// event carrying it is emitted.
pub open spec fn unconfirmed_stepped(
    cs: Seq<CandidateRelation>,
    rid: u32,
    fits: Seq<Option<FitResult>>,
    forms: Seq<Form>,
    cosmology: Cosmology,
    tick: u64,
    conf0: Map<u32, ConfirmedRelation>,
    conf1: Map<u32, ConfirmedRelation>,
    ev0: Seq<HypothesisEvent>,
    ev1: Seq<HypothesisEvent>,
) -> bool {
    if exists|j: int| #[trigger] is_first_candidate(cs, rid, j) {
        let c = cs[choose|j: int| #[trigger] is_first_candidate(cs, rid, j)];
        exists|dog: int, r: Option<FitResult>|
            dogmatism_rel(cosmology, dog) && #[trigger] confirmable_result(r, forms, fits, cosmology, dog) && match r {
                None => conf1 == conf0 && ev1 == ev0,
                Some(res) => {
                    &&& conf1 == conf0.insert(c.relation_id, newly_confirmed(c, res, tick))
                    &&& ev1.len() == ev0.len() + 1
                    &&& ev1.drop_last() == ev0
                    &&& ev1.last() matches HypothesisEvent::Confirmed(e) && same_relation(e, newly_confirmed(c, res, tick))
                },
            }
    } else {
        conf1 == conf0 && ev1 == ev0
    }
}

impl Hypothesizer {
    /// No state the step depends on is out of range.
    pub open spec fn measurement_count_ok(&self) -> bool {
        self.measurements.len() < 0x1000_0000
    }

    /// Unconfirmed relation: the first candidate with this id is
    /// confirmed with the best confirmable fit, if any, and a
    /// `Confirmed` event is emitted.
    fn step_unconfirmed(
        &mut self,
        relation_id: u32,
        fits: &Vec<Option<FitResult>>,
        tick: u64,
        cosmology: &Cosmology,
        events: &mut Vec<HypothesisEvent>,
    )
        requires
            fit_table_ok(fits@),
            cosmology.wf(),
        ensures
            final(self).candidates@ == old(self).candidates@,
            final(self).samples@ == old(self).samples@,
            final(self).next_attempt@ == old(self).next_attempt@,
            final(self).measurements@ == old(self).measurements@,
            final(self).measurement_samples@ == old(self).measurement_samples@,
            final(self).measurement_next_attempt@ == old(self).measurement_next_attempt@,
            final(self).confirmed_measurements@ == old(self).confirmed_measurements@,
            final(self).confirmed@.dom() <= old(self).confirmed@.dom().insert(relation_id),
            forall|k: u32| k != relation_id ==> (#[trigger] final(self).confirmed@.contains_key(k) == old(self).confirmed@.contains_key(k)),
            forall|k: u32| k != relation_id && #[trigger] old(self).confirmed@.contains_key(k) ==> final(self).confirmed@[k] == old(self).confirmed@[k],
            final(self).rivals@ == old(self).rivals@,
            unconfirmed_stepped(
                old(self).candidates@,
                relation_id,
                fits@,
                old(self).available_forms@,
                *cosmology,
                tick,
                old(self).confirmed@,
                final(self).confirmed@,
                old(events)@,
                final(events)@,
            ),
            final(events)@.len() <= old(events)@.len() + 1,
            final(events)@.subrange(0, old(events)@.len() as int) == old(events)@,
            final(self).experimental_count_by_relation@ == old(self).experimental_count_by_relation@,
            final(self).max_window == old(self).max_window,
            final(self).attempt_period == old(self).attempt_period,
            final(self).falsification_trigger_ticks == old(self).falsification_trigger_ticks,
            final(self).available_forms@ == old(self).available_forms@,
            final(self).intelligence == old(self).intelligence,
    {
        let mut found: Option<CandidateRelation> = None;
        let ghost mut first: int = 0;
        let mut i: usize = 0;
        while i < self.candidates.len()
            invariant
                i <= self.candidates.len(),
                found is None ==> forall|k: int| 0 <= k < i ==> #[trigger] self.candidates@[k].relation_id != relation_id,
                found matches Some(c) ==> is_first_candidate(self.candidates@, relation_id, first) && c == self.candidates@[first],
            decreases self.candidates.len() - i,
        {
            if found.is_none() && self.candidates[i].relation_id == relation_id {
                found = Some(self.candidates[i]);
                proof {
                    first = i as int;
                }
            }
            i = i + 1;
        }
        let c = match found {
            Some(c) => c,
            None => {
                proof {
                    assert(!exists|j: int| #[trigger] is_first_candidate(self.candidates@, relation_id, j));
                }
                return;
            },
        };
        proof {
            let j = choose|j: int| #[trigger] is_first_candidate(self.candidates@, relation_id, j);
            assert(is_first_candidate(self.candidates@, relation_id, first));
            if j < first {
                assert(self.candidates@[j].relation_id != relation_id);
            }
            if first < j {
                assert(self.candidates@[first].relation_id != relation_id);
            }
            assert(j == first);
        }
        let ghost old_conf = self.confirmed@;
        let ghost ev0 = events@;
        let best = best_confirmable_fit(fits, &self.available_forms, cosmology);
        let res = match best {
            Some(r) => r,
            None => {
                return;
            },
        };
        let confirmed = ConfirmedRelation {
            relation_id: c.relation_id,
            template_id: c.template_id,
            channel: c.channel,
            form: res.form,
            params: res.params,
            residual: res.residual,
            confidence: res.confidence,
            n_samples: res.n_samples,
            confirmed_at_tick: tick,
            low_confidence_streak: 0,
            cooldown_until: 0,
            refinement: None,
            initial_residual: res.residual,
            falsification_streak: 0,
            inherited_from_tick: None,
            inherited_from_civ_id: None,
        };
        let copy = confirmed.duplicate();
        self.confirmed.insert(c.relation_id, confirmed);
        events.push(HypothesisEvent::Confirmed(copy));
        proof {
            assert(events@.subrange(0, old(events)@.len() as int) =~= old(events)@);
        }
    }

    /// Confirmed relation: revalidation, drift tracking, probation, and
    /// the refinement search, in that order.
    fn step_confirmed(
        &mut self,
        relation_id: u32,
        inputs: &RelationFits,
        tick: u64,
        doubt: Real,
        events: &mut Vec<HypothesisEvent>,
    )
        requires
            relation_fits_ok(*inputs),
            0 <= doubt@ <= scale(),
            old(self).confirmed@.contains_key(relation_id) ==> step_inputs_ok(
                old(self).confirmed@[relation_id],
                inputs.active_residual@,
                inputs.active_tolerance@,
                tick,
            ),
            tick <= u64::MAX - 200,
        ensures
            final(self).candidates@ == old(self).candidates@,
            final(self).samples@ == old(self).samples@,
            final(self).next_attempt@ == old(self).next_attempt@,
            final(self).measurements@ == old(self).measurements@,
            final(self).measurement_samples@ == old(self).measurement_samples@,
            final(self).measurement_next_attempt@ == old(self).measurement_next_attempt@,
            final(self).confirmed_measurements@ == old(self).confirmed_measurements@,
            final(self).rivals@ == old(self).rivals@,
            final(self).confirmed@.dom() <= old(self).confirmed@.dom(),
            forall|k: u32| k != relation_id ==> (#[trigger] final(self).confirmed@.contains_key(k) == old(self).confirmed@.contains_key(k)),
            forall|k: u32| k != relation_id && #[trigger] old(self).confirmed@.contains_key(k) ==> final(self).confirmed@[k] == old(self).confirmed@[k],
            final(events)@.subrange(0, old(events)@.len() as int) == old(events)@,
            final(events)@.len() <= old(events)@.len() + 3,
            old(self).confirmed@.contains_key(relation_id) ==> confirmed_stepped(
                old(self).confirmed@[relation_id],
                relation_id,
                inputs.fits@,
                inputs.active_residual,
                inputs.active_tolerance,
                tick,
                doubt,
                old(self).falsification_trigger_ticks,
                old(self).available_forms@,
                old(self).attempt_period,
                window_len_of(old(self).samples@, relation_id),
                old(events)@,
                final(events)@,
                entry_of(final(self).confirmed@, relation_id),
            ),
            !old(self).confirmed@.contains_key(relation_id) ==> final(self).confirmed@ == old(self).confirmed@
                && final(events)@ == old(events)@,
            final(self).experimental_count_by_relation@ == old(self).experimental_count_by_relation@,
            final(self).max_window == old(self).max_window,
            final(self).attempt_period == old(self).attempt_period,
            final(self).falsification_trigger_ticks == old(self).falsification_trigger_ticks,
            final(self).available_forms@ == old(self).available_forms@,
            final(self).intelligence == old(self).intelligence,
    {
        let mut rel = match self.confirmed.remove(&relation_id) {
            Some(r) => r,
            None => {
                return;
            },
        };
        let ghost ev0 = events@;
        let ghost r0 = rel;
        let from_civ_id = match rel.inherited_from_civ_id {
            Some(c) => c,
            None => 0,
        };
        proof {
            let f = rel.form;
            assert(inputs.fits@[form_index(f) as int] matches Some(rr) ==> 0 <= rr.residual@ <= 0x1000_0000_0000_0000);
        }
        let out = rel.revalidate(&inputs.fits, tick);
        let ghost r1 = rel;
        match out {
            Revalidation::Lapsed => {
                events.push(HypothesisEvent::Lapsed {
                    relation_id,
                    template_id: rel.template_id,
                    from_civ_id,
                    attempted_form: rel.form,
                });
                proof {
                    assert(events@.subrange(0, ev0.len() as int) =~= ev0);
                    assert(confirmed_chain(r0, relation_id, inputs.fits@, inputs.active_residual, inputs.active_tolerance, tick, doubt, self.falsification_trigger_ticks,
                        self.available_forms@, self.attempt_period, window_len_of(self.samples@, relation_id), ev0, events@, None, r1, out, r1, false, ev0, ev0, r1, false));
                }
                return;
            },
            Revalidation::Graduated => {
                events.push(HypothesisEvent::Revalidated {
                    relation_id,
                    template_id: rel.template_id,
                    from_civ_id,
                    new_residual: rel.residual,
                    new_confidence: rel.confidence,
                });
            },
            Revalidation::Kept => {},
        }
        let ghost ev1 = events@;
        proof {
            crate::discovery::lifecycle::lemma_drift_threshold_ok(rel.initial_residual@);
        }
        let in_probation = rel.refinement.is_some();
        let cooldown_until = rel.cooldown_until;
        let active_conf = active_confidence(inputs.active_residual, inputs.active_tolerance);
        let n = match self.samples.get(&relation_id) {
            Some(buf) => buf.len(),
            None => 0,
        };
        let falsified = rel.track_drift(
            inputs.active_residual,
            active_conf,
            n,
            self.falsification_trigger_ticks,
            in_probation,
        );
        if falsified {
            events.push(HypothesisEvent::Falsified {
                relation_id,
                template_id: rel.template_id,
                old_form: rel.form,
                streak_ticks: self.falsification_trigger_ticks,
            });
        }
        let ghost ev2 = events@;
        let ghost r2 = rel;
        proof {
            assert(active_conf == Real { bits: active_confidence_bits(inputs.active_residual@, inputs.active_tolerance@) as i64 });
        }
        if in_probation {
            let switched = rel.step_probation(&inputs.fits, tick, events);
            let ghost r3 = rel;
            self.confirmed.insert(relation_id, rel);
            proof {
                assert(events@.subrange(0, ev0.len() as int) =~= ev0);
                assert(confirmed_chain(r0, relation_id, inputs.fits@, inputs.active_residual, inputs.active_tolerance, tick, doubt, self.falsification_trigger_ticks,
                    self.available_forms@, self.attempt_period, window_len_of(self.samples@, relation_id), ev0, events@, Some(r3), r1, out, r2, falsified, ev1, ev2, r3, switched));
            }
            return;
        }
        proof {
            assert(confidences_ok(inputs.fits@));
        }
        let proposed = rel.step_refinement(
            active_conf,
            &inputs.fits,
            &self.available_forms,
            tick,
            cooldown_until,
            self.attempt_period,
            doubt,
            events,
        );
        let ghost r3 = rel;
        self.confirmed.insert(relation_id, rel);
        proof {
            assert(events@.subrange(0, ev0.len() as int) =~= ev0);
            assert(confirmed_chain(r0, relation_id, inputs.fits@, inputs.active_residual, inputs.active_tolerance, tick, doubt, self.falsification_trigger_ticks,
                self.available_forms@, self.attempt_period, window_len_of(self.samples@, relation_id), ev0, events@, Some(r3), r1, out, r2, falsified, ev1, ev2, r3, proposed));
        }
    }
}


impl Hypothesizer {
    /// The period to the next fit attempt: `attempt_period`, divided by
    /// a discovery-rate multiplier above one, floored at one tick. The
    /// original panics on a period of `2^31` or more with such a
    /// multiplier; that is excluded.
    pub fn next_period(&self, discovery_rate: Real) -> (p: u64)
        requires
            discovery_rate@ > scale() ==> self.attempt_period < 0x8000_0000,
        ensures
            p == next_period_spec(self.attempt_period, discovery_rate@),
    {
        if discovery_rate.to_bits() <= Real::one().to_bits() {
            return self.attempt_period;
        }
        let raw: u64 = if self.attempt_period == 0 { 1 } else { self.attempt_period };
        let raw_i: i64 = raw as i64;
        let raw_real = Real::from_int(raw_i);
        proof {
            let n = raw_real@ * scale();
            assert(raw_real@ == raw_i * scale());
            assert(0 < n <= 0x8000_0000int * scale() * scale()) by (nonlinear_arith)
                requires n == raw_real@ * scale(), raw_real@ == raw_i * scale(), 1 <= raw_i < 0x8000_0000, scale() == 4294967296;
            vstd::arithmetic::div_mod::lemma_div_pos_is_pos(n, discovery_rate@);
            vstd::arithmetic::div_mod::lemma_div_is_ordered_by_denominator(n, scale(), discovery_rate@);
            assert(n / scale() == raw_real@) by {
                vstd::arithmetic::div_mod::lemma_div_multiples_vanish(raw_real@, scale());
                assert(n == scale() * raw_real@) by (nonlinear_arith) requires n == raw_real@ * scale();
            }
        }
        let scaled = raw_real.div(discovery_rate);
        let q = scaled.to_bits() / 4294967296;
        let floor: u64 = q as u64;
        if floor < 1 { 1 } else { floor }
    }
}


/// Copy a sample window into a vector.
fn window_to_vec(buf: &VecDeque<Sample>) -> (v: Vec<Sample>)
    ensures
        v@ == buf@,
{
    let mut v: Vec<Sample> = Vec::new();
    let mut i: usize = 0;
    while i < buf.len()
        invariant
            i <= buf.len(),
            v@ == buf@.subrange(0, i as int),
        decreases buf.len() - i,
    {
        v.push(buf[i]);
        proof {
            assert(v@ =~= buf@.subrange(0, i + 1));
        }
        i = i + 1;
    }
    proof {
        assert(buf@.subrange(0, i as int) =~= buf@);
    }
    v
}

/// The due tick recorded for a relation (zero when absent).
pub open spec fn due_tick(m: Map<u32, u64>, k: u32) -> u64 {
    if m.contains_key(k) {
        m[k]
    } else {
        0
    }
}


/// The measurement pass's view of the hypothesizer, with the events so
/// far: confirmed measurements, schedule, windows, catalogue, events.
pub ghost struct MeasPass {
    pub confirmed: Map<u32, ConfirmedMeasurement>,
    pub next_attempt: Map<u32, u64>,
    pub samples: Map<u32, Seq<Sample>>,
    pub measurements: Seq<MeasurementCandidate>,
    pub events: Seq<HypothesisEvent>,
}

/// The measurement pass's view of `h` with events `events`.
pub open spec fn meas_pass_of(h: Hypothesizer, events: Seq<HypothesisEvent>) -> MeasPass {
    MeasPass {
        confirmed: h.confirmed_measurements@,
        next_attempt: h.measurement_next_attempt@,
        samples: Map::new(|k: u32| h.measurement_samples@.contains_key(k), |k: u32| h.measurement_samples@[k]@),
        measurements: h.measurements@,
        events,
    }
}

/// Measurement `q` is the first in the catalogue with id `rid`.
pub open spec fn is_first_measurement(ms: Seq<MeasurementCandidate>, rid: u32, q: int) -> bool {
    &&& 0 <= q < ms.len()
    &&& ms[q].relation_id == rid
    &&& forall|k: int| 0 <= k < q ==> #[trigger] ms[k].relation_id != rid
}

/// `cm` records measurement `m` (id `rid`) confirmed with fit `res` at
/// `tick`, experimental or not (parameters by value).
pub open spec fn measurement_is(
    cm: ConfirmedMeasurement,
    rid: u32,
    m: MeasurementCandidate,
    res: FitResult,
    tick: u64,
    experimental: bool,
) -> bool {
    &&& cm.relation_id == rid
    &&& cm.y_channel == m.y_channel
    &&& cm.x_channel == m.x_channel
    &&& cm.form == res.form
    &&& cm.params@ == res.params@
    &&& cm.residual == res.residual
    &&& cm.confidence == res.confidence
    &&& cm.n_samples == res.n_samples
    &&& cm.confirmed_at_tick == tick
    &&& cm.is_experimental == experimental
}

/// `c` is the residual child of measurement `m` (id `rid`) confirmed
/// with form `form` and parameters `params`: `m`'s `y` against elevation,
/// one level deeper.
pub open spec fn residual_child(
    c: MeasurementCandidate,
    rid: u32,
    m: MeasurementCandidate,
    form: Form,
    params: Seq<Real>,
) -> bool {
    &&& c.relation_id == residual_relation_id(
        m.y_channel,
        MeasurementChannel::Direct(Channel::Elevation),
        rid,
        (m.residual_depth + 1) as u32,
    )
    &&& c.y_channel == m.y_channel
    &&& c.x_channel == MeasurementChannel::Direct(Channel::Elevation)
    &&& c.residual_basis matches Some(b) && b.source_relation_id == rid && b.source_form == form
        && b.source_params@ == params && b.source_x_channel == m.x_channel
    &&& c.residual_depth == m.residual_depth + 1
}

/// The part of a confirmation after the fit: the measurement is recorded
/// confirmed with a `MeasurementConfirmed` event; below depth three a
/// residual child against elevation joins the catalogue with an empty
/// window due now, unless its id already has a window.
pub open spec fn measurement_confirmed_step(
    p0: MeasPass,
    p1: MeasPass,
    rid: u32,
    m: MeasurementCandidate,
    res: FitResult,
    tick: u64,
    experimental: bool,
) -> bool {
    &&& p1.confirmed.dom() == p0.confirmed.dom().insert(rid)
    &&& forall|k: u32| k != rid && #[trigger] p0.confirmed.contains_key(k) ==> p1.confirmed[k] == p0.confirmed[k]
    &&& measurement_is(p1.confirmed[rid], rid, m, res, tick, experimental)
    &&& p1.events.len() == p0.events.len() + 1
    &&& p1.events.drop_last() == p0.events
    &&& p1.events.last() matches HypothesisEvent::MeasurementConfirmed(e) && measurement_is(e, rid, m, res, tick, experimental)
    &&& if m.residual_depth >= 3 {
        &&& p1.next_attempt == p0.next_attempt
        &&& p1.samples == p0.samples
        &&& p1.measurements == p0.measurements
    } else {
        let cid = residual_relation_id(
            m.y_channel,
            MeasurementChannel::Direct(Channel::Elevation),
            rid,
            (m.residual_depth + 1) as u32,
        ) as u32;
        if p0.samples.contains_key(cid) {
            &&& p1.next_attempt == p0.next_attempt
            &&& p1.samples == p0.samples
            &&& p1.measurements == p0.measurements
        } else {
            &&& p1.next_attempt == p0.next_attempt.insert(cid, tick)
            &&& p1.samples == p0.samples.insert(cid, Seq::empty())
            &&& p1.measurements.len() == p0.measurements.len() + 1
            &&& p1.measurements.drop_last() == p0.measurements
            &&& residual_child(p1.measurements.last(), rid, m, res.form, res.params@)
        }
    }
}

/// One measurement's part of the pass: a confirmed or not-yet-due
/// measurement changes nothing; a due one is rescheduled `next_period`
/// ahead and, when it is in the catalogue, has a confirmable fit and a
/// window that is not trivial, confirmed (experimental when apparatus
/// samples contributed).
pub open spec fn measurement_stepped(
    p0: MeasPass,
    p1: MeasPass,
    rid: u32,
    tick: u64,
    next_period: u64,
    inputs: Map<u32, RelationFits>,
    forms: Seq<Form>,
    cosmology: Cosmology,
    counts: Map<u32, u32>,
) -> bool {
    if p0.confirmed.contains_key(rid) || tick < due_tick(p0.next_attempt, rid) {
        p1 == p0
    } else {
        let sched = MeasPass { next_attempt: p0.next_attempt.insert(rid, (tick + next_period) as u64), ..p0 };
        let window = if p0.samples.contains_key(rid) { p0.samples[rid] } else { Seq::<Sample>::empty() };
        let table = fits_for(inputs, rid).0;
        if exists|q: int| #[trigger] is_first_measurement(p0.measurements, rid, q) {
            let m = p0.measurements[choose|q: int| #[trigger] is_first_measurement(p0.measurements, rid, q)];
            exists|dog: int, r: Option<FitResult>|
                dogmatism_rel(cosmology, dog) && #[trigger] confirmable_result(r, forms, table, cosmology, dog)
                    && match r {
                    None => p1 == sched,
                    Some(res) => if trivial_spec(window) {
                        p1 == sched
                    } else {
                        measurement_confirmed_step(
                            sched,
                            p1,
                            rid,
                            m,
                            res,
                            tick,
                            counts.contains_key(rid) && counts[rid] > 0,
                        )
                    },
                }
        } else {
            p1 == sched
        }
    }
}

/// The ids of a measurement catalogue, in order.
pub open spec fn measurement_ids(ms: Seq<MeasurementCandidate>) -> Seq<u32> {
    ms.map_values(|m: MeasurementCandidate| m.relation_id)
}

/// The measurement pass over `ids` in order: `ps[j]` is the view before
/// measurement `ids[j]`.
pub open spec fn meas_trace(
    ps: Seq<MeasPass>,
    ids: Seq<u32>,
    tick: u64,
    next_period: u64,
    inputs: Map<u32, RelationFits>,
    forms: Seq<Form>,
    cosmology: Cosmology,
    counts: Map<u32, u32>,
) -> bool {
    &&& ps.len() == ids.len() + 1
    &&& forall|j: int|
        0 <= j < ids.len() ==> #[trigger] measurement_stepped(
            ps[j],
            ps[j + 1],
            ids[j],
            tick,
            next_period,
            inputs,
            forms,
            cosmology,
            counts,
        )
}

/// Every measurement in the catalogue sits at most `MAX_RESIDUAL_DEPTH`
/// levels deep.
pub open spec fn depths_bounded(ms: Seq<MeasurementCandidate>) -> bool {
    forall|i: int| 0 <= i < ms.len() ==> (#[trigger] ms[i]).residual_depth <= MAX_RESIDUAL_DEPTH
}

/// One measurement's step keeps the residual depth bound: a residual
/// child is added only below the maximum depth, one level deeper than
/// its source.
pub proof fn lemma_measurement_step_keeps_depth(
    p0: MeasPass,
    p1: MeasPass,
    rid: u32,
    tick: u64,
    next_period: u64,
    inputs: Map<u32, RelationFits>,
    forms: Seq<Form>,
    cosmology: Cosmology,
    counts: Map<u32, u32>,
)
    requires
        measurement_stepped(p0, p1, rid, tick, next_period, inputs, forms, cosmology, counts),
        depths_bounded(p0.measurements),
    ensures
        depths_bounded(p1.measurements),
{
    if !(p0.confirmed.contains_key(rid) || tick < due_tick(p0.next_attempt, rid)) {
        if exists|q: int| #[trigger] is_first_measurement(p0.measurements, rid, q) {
            let table = fits_for(inputs, rid).0;
            let m = p0.measurements[choose|q: int| #[trigger] is_first_measurement(p0.measurements, rid, q)];
            let (dog, r) = choose|dog: int, r: Option<FitResult>|
                dogmatism_rel(cosmology, dog) && #[trigger] confirmable_result(r, forms, table, cosmology, dog)
                    && match r {
                    None => p1 == MeasPass { next_attempt: p0.next_attempt.insert(rid, (tick + next_period) as u64), ..p0 },
                    Some(res) => if trivial_spec(if p0.samples.contains_key(rid) { p0.samples[rid] } else { Seq::<Sample>::empty() }) {
                        p1 == MeasPass { next_attempt: p0.next_attempt.insert(rid, (tick + next_period) as u64), ..p0 }
                    } else {
                        measurement_confirmed_step(
                            MeasPass { next_attempt: p0.next_attempt.insert(rid, (tick + next_period) as u64), ..p0 },
                            p1,
                            rid,
                            m,
                            res,
                            tick,
                            counts.contains_key(rid) && counts[rid] > 0,
                        )
                    },
                };
            if p1.measurements.len() == p0.measurements.len() + 1 {
                assert forall|i: int| 0 <= i < p1.measurements.len() implies (#[trigger] p1.measurements[i]).residual_depth
                    <= MAX_RESIDUAL_DEPTH by {
                    if i < p0.measurements.len() {
                        assert(p1.measurements[i] == p1.measurements.drop_last()[i]);
                    }
                }
            }
        }
    }
}

/// `m1` extends `m0`, and each measurement it adds is a residual whose
/// source was confirmed going from `c0` to `c1`, one level deeper than
/// that source in `m1`.
pub open spec fn added_residuals(
    m0: Seq<MeasurementCandidate>,
    m1: Seq<MeasurementCandidate>,
    c0: Map<u32, ConfirmedMeasurement>,
    c1: Map<u32, ConfirmedMeasurement>,
) -> bool {
    &&& m0.len() <= m1.len()
    &&& m1.subrange(0, m0.len() as int) == m0
    &&& c0.dom() <= c1.dom()
    &&& forall|i: int| m0.len() <= i < m1.len() ==> #[trigger] residual_added(m1, c0, c1, i)
}

/// Measurement `i` of `m1` is a residual whose source was confirmed
/// going from `c0` to `c1`, one level deeper than that source in `m1`.
pub open spec fn residual_added(
    m1: Seq<MeasurementCandidate>,
    c0: Map<u32, ConfirmedMeasurement>,
    c1: Map<u32, ConfirmedMeasurement>,
    i: int,
) -> bool {
    &&& m1[i].residual_basis is Some
    &&& c1.contains_key(m1[i].residual_basis->Some_0.source_relation_id)
    &&& !c0.contains_key(m1[i].residual_basis->Some_0.source_relation_id)
    &&& exists|q: int| 0 <= q < m1.len() && #[trigger] m1[q].relation_id == m1[i].residual_basis->Some_0.source_relation_id
        && m1[i].residual_depth == m1[q].residual_depth + 1
}

/// One measurement's step adds at most its own residual child, whose
/// source it confirms in that step.
pub proof fn lemma_measurement_step_adds(
    p0: MeasPass,
    p1: MeasPass,
    rid: u32,
    tick: u64,
    next_period: u64,
    inputs: Map<u32, RelationFits>,
    forms: Seq<Form>,
    cosmology: Cosmology,
    counts: Map<u32, u32>,
)
    requires
        measurement_stepped(p0, p1, rid, tick, next_period, inputs, forms, cosmology, counts),
    ensures
        added_residuals(p0.measurements, p1.measurements, p0.confirmed, p1.confirmed),
{
    if p0.confirmed.contains_key(rid) || tick < due_tick(p0.next_attempt, rid) {
        assert(p1.measurements.subrange(0, p0.measurements.len() as int) =~= p0.measurements);
    } else if exists|q: int| #[trigger] is_first_measurement(p0.measurements, rid, q) {
        let sched = MeasPass { next_attempt: p0.next_attempt.insert(rid, (tick + next_period) as u64), ..p0 };
        let table = fits_for(inputs, rid).0;
        let q = choose|q: int| #[trigger] is_first_measurement(p0.measurements, rid, q);
        let m = p0.measurements[q];
        let window = if p0.samples.contains_key(rid) { p0.samples[rid] } else { Seq::<Sample>::empty() };
        let (dog, r) = choose|dog: int, r: Option<FitResult>|
            dogmatism_rel(cosmology, dog) && #[trigger] confirmable_result(r, forms, table, cosmology, dog)
                && match r {
                None => p1 == sched,
                Some(res) => if trivial_spec(window) {
                    p1 == sched
                } else {
                    measurement_confirmed_step(sched, p1, rid, m, res, tick, counts.contains_key(rid) && counts[rid] > 0)
                },
            };
        if p1.measurements.len() == p0.measurements.len() + 1 {
            assert(p1.measurements.subrange(0, p0.measurements.len() as int) =~= p1.measurements.drop_last());
            let i = p0.measurements.len() as int;
            assert(p1.measurements[i] == p1.measurements.last());
            assert(p1.measurements[q] == p0.measurements[q]) by {
                assert(p1.measurements.drop_last()[q] == p1.measurements[q]);
            }
        } else {
            assert(p1.measurements.subrange(0, p0.measurements.len() as int) =~= p0.measurements);
        }
    } else {
        assert(p1.measurements.subrange(0, p0.measurements.len() as int) =~= p0.measurements);
    }
}

/// Extensions chain: what two steps add is what the pair adds.
proof fn lemma_added_residuals_chain(
    m0: Seq<MeasurementCandidate>,
    m1: Seq<MeasurementCandidate>,
    m2: Seq<MeasurementCandidate>,
    c0: Map<u32, ConfirmedMeasurement>,
    c1: Map<u32, ConfirmedMeasurement>,
    c2: Map<u32, ConfirmedMeasurement>,
)
    requires
        added_residuals(m0, m1, c0, c1),
        added_residuals(m1, m2, c1, c2),
    ensures
        added_residuals(m0, m2, c0, c2),
{
    assert forall|i: int| 0 <= i < m1.len() implies m2[i] == m1[i] by {
        assert(m2.subrange(0, m1.len() as int)[i] == m2[i]);
    }
    assert(m2.subrange(0, m0.len() as int) =~= m0) by {
        assert forall|i: int| 0 <= i < m0.len() implies m2.subrange(0, m0.len() as int)[i] == m0[i] by {
            assert(m1.subrange(0, m0.len() as int)[i] == m1[i]);
            assert(m2[i] == m1[i]);
        }
    }
    assert forall|i: int| m0.len() <= i < m2.len() implies #[trigger] residual_added(m2, c0, c2, i) by {
        if i < m1.len() {
            assert(residual_added(m1, c0, c1, i));
            assert(m2[i] == m1[i]);
            let q = choose|q: int| 0 <= q < m1.len() && #[trigger] m1[q].relation_id == m1[i].residual_basis->Some_0.source_relation_id
                && m1[i].residual_depth == m1[q].residual_depth + 1;
            assert(m2[q] == m1[q]);
            assert(c1.dom().contains(m1[i].residual_basis->Some_0.source_relation_id));
        } else {
            assert(residual_added(m2, c1, c2, i));
            let src = m2[i].residual_basis->Some_0.source_relation_id;
            if c0.contains_key(src) {
                assert(c0.dom().contains(src));
                assert(c1.dom().contains(src));
            }
        }
    }
}

/// The whole measurement pass: every measurement it adds is a residual
/// of a measurement confirmed during the pass, one level deeper than its
/// source.
pub proof fn lemma_measurement_pass_adds(
    ps: Seq<MeasPass>,
    ids: Seq<u32>,
    tick: u64,
    next_period: u64,
    inputs: Map<u32, RelationFits>,
    forms: Seq<Form>,
    cosmology: Cosmology,
    counts: Map<u32, u32>,
    n: int,
)
    requires
        meas_trace(ps, ids, tick, next_period, inputs, forms, cosmology, counts),
        0 <= n <= ids.len(),
    ensures
        added_residuals(ps[0].measurements, ps[n].measurements, ps[0].confirmed, ps[n].confirmed),
    decreases n,
{
    if n == 0 {
        assert(ps[0].measurements.subrange(0, ps[0].measurements.len() as int) =~= ps[0].measurements);
    } else {
        lemma_measurement_pass_adds(ps, ids, tick, next_period, inputs, forms, cosmology, counts, n - 1);
        let j = n - 1;
        assert(measurement_stepped(ps[j], ps[j + 1], ids[j], tick, next_period, inputs, forms, cosmology, counts));
        lemma_measurement_step_adds(ps[j], ps[j + 1], ids[j], tick, next_period, inputs, forms, cosmology, counts);
        lemma_added_residuals_chain(
            ps[0].measurements,
            ps[j].measurements,
            ps[n].measurements,
            ps[0].confirmed,
            ps[j].confirmed,
            ps[n].confirmed,
        );
    }
}

/// The whole measurement pass keeps the residual depth bound.
pub proof fn lemma_measurement_pass_keeps_depth(
    ps: Seq<MeasPass>,
    ids: Seq<u32>,
    tick: u64,
    next_period: u64,
    inputs: Map<u32, RelationFits>,
    forms: Seq<Form>,
    cosmology: Cosmology,
    counts: Map<u32, u32>,
    n: int,
)
    requires
        meas_trace(ps, ids, tick, next_period, inputs, forms, cosmology, counts),
        depths_bounded(ps[0].measurements),
        0 <= n <= ids.len(),
    ensures
        depths_bounded(ps[n].measurements),
    decreases n,
{
    if n > 0 {
        lemma_measurement_pass_keeps_depth(ps, ids, tick, next_period, inputs, forms, cosmology, counts, n - 1);
        let j = n - 1;
        assert(measurement_stepped(ps[j], ps[j + 1], ids[j], tick, next_period, inputs, forms, cosmology, counts));
        lemma_measurement_step_keeps_depth(ps[j], ps[j + 1], ids[j], tick, next_period, inputs, forms, cosmology, counts);
    }
}

impl Hypothesizer {
    /// Measurement pass: each unconfirmed measurement that is due is
    /// rescheduled; when its best confirmable fit exists and its window
    /// is not trivial it is confirmed (marked experimental when apparatus
    /// samples contributed), and, below the maximum depth, a residual
    /// child against `Elevation` is added.
    fn step_measurements(
        &mut self,
        tick: u64,
        next_period: u64,
        inputs: &BTreeMap<u32, RelationFits>,
        cosmology: &Cosmology,
        events: &mut Vec<HypothesisEvent>,
    )
        requires
            old(self).wf(),
            tick as int + next_period <= u64::MAX,
            cosmology.wf(),
            forall|k: u32| #[trigger] inputs@.contains_key(k) ==> relation_fits_ok(inputs@[k]),
            forall|k: u32| #[trigger] old(self).measurement_samples@.contains_key(k) ==> trivial_ok(old(self).measurement_samples@[k]@),
        ensures
            final(self).wf(),
            final(self).candidates@ == old(self).candidates@,
            final(self).samples@ == old(self).samples@,
            final(self).next_attempt@ == old(self).next_attempt@,
            final(self).confirmed@ == old(self).confirmed@,
            final(self).rivals@ == old(self).rivals@,
            old(events)@.len() <= final(events)@.len(),
            final(events)@.subrange(0, old(events)@.len() as int) == old(events)@,
            forall|k: u32| #[trigger] old(self).measurement_samples@.contains_key(k) ==> final(self).measurement_samples@.contains_key(k)
                && final(self).measurement_samples@[k] == old(self).measurement_samples@[k],
            forall|k: u32| #[trigger] final(self).measurement_samples@.contains_key(k) ==> trivial_ok(final(self).measurement_samples@[k]@),
            exists|ps: Seq<MeasPass>|
                #[trigger] meas_trace(
                    ps,
                    measurement_ids(old(self).measurements@),
                    tick,
                    next_period,
                    inputs@,
                    old(self).available_forms@,
                    *cosmology,
                    old(self).experimental_count_by_relation@,
                ) && ps[0] == meas_pass_of(*old(self), old(events)@) && ps.last() == meas_pass_of(*final(self), final(events)@),
            final(self).experimental_count_by_relation@ == old(self).experimental_count_by_relation@,
            final(self).max_window == old(self).max_window,
            final(self).attempt_period == old(self).attempt_period,
            final(self).falsification_trigger_ticks == old(self).falsification_trigger_ticks,
            final(self).available_forms@ == old(self).available_forms@,
            final(self).intelligence == old(self).intelligence,
    {
        let mut ids: Vec<u32> = Vec::new();
        let mut i: usize = 0;
        while i < self.measurements.len()
            invariant
                i <= self.measurements.len(),
                ids@ =~= self.measurements@.subrange(0, i as int).map_values(|m: MeasurementCandidate| m.relation_id),
            decreases self.measurements.len() - i,
        {
            ids.push(self.measurements[i].relation_id);
            i = i + 1;
        }
        proof {
            assert(self.measurements@.subrange(0, i as int) =~= self.measurements@);
        }
        let ghost ev0 = events@;
        let ghost mut ps: Seq<MeasPass> = seq![meas_pass_of(*self, events@)];
        let mut j: usize = 0;
        while j < ids.len()
            invariant
                j <= ids.len(),
                ids@ == measurement_ids(old(self).measurements@),
                ps.len() == j + 1,
                ps[0] == meas_pass_of(*old(self), old(events)@),
                ps.last() == meas_pass_of(*self, events@),
                forall|q: int|
                    0 <= q < j ==> #[trigger] measurement_stepped(
                        ps[q],
                        ps[q + 1],
                        ids@[q],
                        tick,
                        next_period,
                        inputs@,
                        old(self).available_forms@,
                        *cosmology,
                        old(self).experimental_count_by_relation@,
                    ),
                self.experimental_count_by_relation@ == old(self).experimental_count_by_relation@,
                self.wf(),
                tick as int + next_period <= u64::MAX,
                cosmology.wf(),
                forall|k: u32| #[trigger] inputs@.contains_key(k) ==> relation_fits_ok(inputs@[k]),
                forall|k: u32| #[trigger] self.measurement_samples@.contains_key(k) ==> trivial_ok(self.measurement_samples@[k]@),
                forall|k: u32| #[trigger] old(self).measurement_samples@.contains_key(k) ==> self.measurement_samples@.contains_key(k)
                    && self.measurement_samples@[k] == old(self).measurement_samples@[k],
                self.candidates@ == old(self).candidates@,
                self.samples@ == old(self).samples@,
                self.next_attempt@ == old(self).next_attempt@,
                self.confirmed@ == old(self).confirmed@,
                self.rivals@ == old(self).rivals@,
                ev0.len() <= events@.len(),
                events@.subrange(0, ev0.len() as int) == ev0,
                ev0 == old(events)@,
                self.max_window == old(self).max_window,
                self.attempt_period == old(self).attempt_period,
                self.falsification_trigger_ticks == old(self).falsification_trigger_ticks,
                self.available_forms@ == old(self).available_forms@,
                self.intelligence == old(self).intelligence,
            decreases ids.len() - j,
        {
            let rid = ids[j];
            let ghost evb = events@;
            self.step_one_measurement(rid, tick, next_period, inputs, cosmology, events);
            proof {
                ps = ps.push(meas_pass_of(*self, events@));
                assert(measurement_stepped(ps[j as int], ps[j + 1], ids@[j as int], tick, next_period, inputs@,
                    old(self).available_forms@, *cosmology, old(self).experimental_count_by_relation@));
                assert forall|q: int| 0 <= q < ev0.len() implies events@.subrange(0, ev0.len() as int)[q] == ev0[q] by {
                    assert(events@.subrange(0, evb.len() as int)[q] == evb[q]);
                    assert(evb.subrange(0, ev0.len() as int)[q] == ev0[q]);
                }
                assert(events@.subrange(0, ev0.len() as int) =~= ev0);
            }
            j = j + 1;
        }
        proof {
            assert(meas_trace(ps, measurement_ids(old(self).measurements@), tick,
                next_period, inputs@, old(self).available_forms@, *cosmology, old(self).experimental_count_by_relation@));
        }
    }

    /// One measurement's part of the pass (see `measurement_stepped`).
    fn step_one_measurement(
        &mut self,
        rid: u32,
        tick: u64,
        next_period: u64,
        inputs: &BTreeMap<u32, RelationFits>,
        cosmology: &Cosmology,
        events: &mut Vec<HypothesisEvent>,
    )
        requires
            old(self).wf(),
            tick as int + next_period <= u64::MAX,
            cosmology.wf(),
            forall|k: u32| #[trigger] inputs@.contains_key(k) ==> relation_fits_ok(inputs@[k]),
            forall|k: u32| #[trigger] old(self).measurement_samples@.contains_key(k) ==> trivial_ok(old(self).measurement_samples@[k]@),
        ensures
            measurement_stepped(
                meas_pass_of(*old(self), old(events)@),
                meas_pass_of(*final(self), final(events)@),
                rid,
                tick,
                next_period,
                inputs@,
                old(self).available_forms@,
                *cosmology,
                old(self).experimental_count_by_relation@,
            ),
            final(self).experimental_count_by_relation@ == old(self).experimental_count_by_relation@,
            final(self).wf(),
            final(self).candidates@ == old(self).candidates@,
            final(self).samples@ == old(self).samples@,
            final(self).next_attempt@ == old(self).next_attempt@,
            final(self).confirmed@ == old(self).confirmed@,
            final(self).rivals@ == old(self).rivals@,
            old(events)@.len() <= final(events)@.len(),
            final(events)@.subrange(0, old(events)@.len() as int) == old(events)@,
            forall|k: u32| #[trigger] old(self).measurement_samples@.contains_key(k) ==> final(self).measurement_samples@.contains_key(k)
                && final(self).measurement_samples@[k] == old(self).measurement_samples@[k],
            forall|k: u32| #[trigger] final(self).measurement_samples@.contains_key(k) ==> trivial_ok(final(self).measurement_samples@[k]@),
            final(self).max_window == old(self).max_window,
            final(self).attempt_period == old(self).attempt_period,
            final(self).falsification_trigger_ticks == old(self).falsification_trigger_ticks,
            final(self).available_forms@ == old(self).available_forms@,
            final(self).intelligence == old(self).intelligence,
    {
        let ghost p0 = meas_pass_of(*self, events@);
        let ghost ev0 = events@;
        proof {
            assert(events@.subrange(0, ev0.len() as int) =~= ev0);
        }
        if self.confirmed_measurements.contains_key(&rid) {
            return;
        }
        let due = match self.measurement_next_attempt.get(&rid) {
            Some(d) => *d,
            None => 0,
        };
        if tick < due {
            return;
        }
        self.measurement_next_attempt.insert(rid, tick + next_period);
        let ghost sched = meas_pass_of(*self, events@);
        assert(sched == MeasPass { next_attempt: p0.next_attempt.insert(rid, (tick + next_period) as u64), ..p0 });
        let samples = match self.measurement_samples.get(&rid) {
            Some(b) => window_to_vec(b),
            None => Vec::new(),
        };
        let mut found: Option<(MeasurementChannel, MeasurementChannel, u32)> = None;
        let ghost mut first: int = 0;
        let mut k: usize = 0;
        while k < self.measurements.len()
            invariant
                k <= self.measurements.len(),
                found is None ==> forall|q: int| 0 <= q < k ==> #[trigger] self.measurements@[q].relation_id != rid,
                found matches Some(t) ==> is_first_measurement(self.measurements@, rid, first) && t == (
                    self.measurements@[first].y_channel,
                    self.measurements@[first].x_channel,
                    self.measurements@[first].residual_depth,
                ),
            decreases self.measurements.len() - k,
        {
            if found.is_none() && self.measurements[k].relation_id == rid {
                let m = &self.measurements[k];
                found = Some((m.y_channel, m.x_channel, m.residual_depth));
                proof {
                    first = k as int;
                }
            }
            k = k + 1;
        }
        let (y_channel, x_channel, depth) = match found {
            Some(t) => t,
            None => {
                proof {
                    assert(!exists|q: int| #[trigger] is_first_measurement(self.measurements@, rid, q));
                }
                return;
            },
        };
        proof {
            let q = choose|q: int| #[trigger] is_first_measurement(self.measurements@, rid, q);
            assert(is_first_measurement(self.measurements@, rid, first));
            if q < first {
                assert(self.measurements@[q].relation_id != rid);
            }
            if first < q {
                assert(self.measurements@[first].relation_id != rid);
            }
            assert(q == first);
        }
        let ghost m = self.measurements@[first];
        let empty = empty_fits();
        proof {
            assert(empty@ =~= Seq::new(12, |i: int| None::<FitResult>));
        }
        let table = match inputs.get(&rid) {
            Some(f) => &f.fits,
            None => &empty,
        };
        assert(table@ == fits_for(inputs@, rid).0);
        let best = best_confirmable_fit(table, &self.available_forms, cosmology);
        let res = match best {
            Some(r) => r,
            None => {
                return;
            },
        };
        proof {
            if self.measurement_samples@.contains_key(rid) {
                assert(trivial_ok(self.measurement_samples@[rid]@));
            }
            assert(samples@ == (if p0.samples.contains_key(rid) { p0.samples[rid] } else { Seq::<Sample>::empty() }));
        }
        if is_trivial_measurement(&samples) {
            return;
        }
        let count = match self.experimental_count_by_relation.get(&rid) {
            Some(c) => *c,
            None => 0,
        };
        let form = res.form;
        let params_copy = crate::discovery::types::copy_params(&res.params);
        let confirmed = ConfirmedMeasurement {
            relation_id: rid,
            y_channel,
            x_channel,
            form: res.form,
            params: res.params,
            residual: res.residual,
            confidence: res.confidence,
            n_samples: res.n_samples,
            confirmed_at_tick: tick,
            is_experimental: count > 0,
        };
        let event_copy = ConfirmedMeasurement {
            relation_id: rid,
            y_channel,
            x_channel,
            form: confirmed.form,
            params: crate::discovery::types::copy_params(&confirmed.params),
            residual: confirmed.residual,
            confidence: confirmed.confidence,
            n_samples: confirmed.n_samples,
            confirmed_at_tick: tick,
            is_experimental: confirmed.is_experimental,
        };
        self.confirmed_measurements.insert(rid, confirmed);
        let ghost evb = events@;
        events.push(HypothesisEvent::MeasurementConfirmed(event_copy));
        proof {
            assert(events@.drop_last() =~= evb);
            assert forall|q: int| 0 <= q < ev0.len() implies events@.subrange(0, ev0.len() as int)[q] == ev0[q] by {
                assert(events@[q] == evb[q]);
            }
            assert(events@.subrange(0, ev0.len() as int) =~= ev0);
        }
        let ghost p_conf = meas_pass_of(*self, events@);
        if depth >= 3 {
            proof {
                assert(p_conf.confirmed.dom() =~= sched.confirmed.dom().insert(rid));
            }
            return;
        }
        let basis = ResidualBasis {
            source_relation_id: rid,
            source_form: form,
            source_params: params_copy,
            source_x_channel: x_channel,
        };
        let candidate = MeasurementCandidate::residual(
            y_channel,
            MeasurementChannel::Direct(Channel::Elevation),
            basis,
            depth + 1,
        );
        let cid = candidate.relation_id;
        if self.measurement_samples.contains_key(&cid) {
            proof {
                assert(p_conf.confirmed.dom() =~= sched.confirmed.dom().insert(rid));
            }
            return;
        }
        self.measurement_samples.insert(cid, VecDeque::new());
        self.measurement_next_attempt.insert(cid, tick);
        let ghost ms0 = self.measurements@;
        self.measurements.push(candidate);
        proof {
            assert forall|q: int| 0 <= q < ms0.len() implies #[trigger] ms0[q].relation_id != cid by {
                assert(self.measurement_samples@.contains_key(ms0[q].relation_id));
            }
            assert(trivial_ok(Seq::<Sample>::empty()));
            let p1 = meas_pass_of(*self, events@);
            assert(p1.confirmed.dom() =~= sched.confirmed.dom().insert(rid));
            assert(p1.samples =~= sched.samples.insert(cid, Seq::empty()));
            assert(self.measurements@.drop_last() =~= ms0);
        }
    }
}


/// The preconditions of a full step on `h` at `tick`.
pub open spec fn step_requires(
    h: Hypothesizer,
    inputs: Map<u32, RelationFits>,
    tick: u64,
    cosmology: Cosmology,
    doubt: int,
    rate: int,
) -> bool {
    &&& h.wf()
    &&& step_ready(h, inputs, tick)
    &&& cosmology.wf()
    &&& 0 <= doubt <= scale()
    &&& (rate > scale() ==> h.attempt_period < 0x8000_0000)
    &&& tick as int + h.attempt_period + 1 <= u64::MAX
}


/// The fit outcomes a step hands relation `k`: the supplied table and
/// active readings, or an empty table with zero readings.
pub open spec fn fits_for(inputs: Map<u32, RelationFits>, k: u32) -> (Seq<Option<FitResult>>, Real, Real) {
    if inputs.contains_key(k) {
        (inputs[k].fits@, inputs[k].active_residual, inputs[k].active_tolerance)
    } else {
        (Seq::new(12, |i: int| None::<FitResult>), Real { bits: 0 }, Real { bits: 0 })
    }
}

/// Candidate `j`'s part of a step from hypothesizer `h`: a relation not
/// yet due changes nothing; a due confirmed relation steps through its
/// phases (and may lapse); a due unconfirmed one may be confirmed. The
/// events go from `ev0` to `ev1` and the confirmed registry from `conf0`
/// to `conf1`.
pub open spec fn candidate_stepped(
    h: Hypothesizer,
    inputs: Map<u32, RelationFits>,
    tick: u64,
    cosmology: Cosmology,
    doubt: Real,
    j: int,
    ev0: Seq<HypothesisEvent>,
    ev1: Seq<HypothesisEvent>,
    conf0: Map<u32, ConfirmedRelation>,
    conf1: Map<u32, ConfirmedRelation>,
) -> bool {
    let k = h.candidates@[j].relation_id;
    let (fits, ar, at) = fits_for(inputs, k);
    if tick < due_tick(h.next_attempt@, k) {
        ev1 == ev0 && conf1 == conf0
    } else if conf0.contains_key(k) {
        &&& confirmed_stepped(
            conf0[k],
            k,
            fits,
            ar,
            at,
            tick,
            doubt,
            h.falsification_trigger_ticks,
            h.available_forms@,
            h.attempt_period,
            window_len_of(h.samples@, k),
            ev0,
            ev1,
            entry_of(conf1, k),
        )
        &&& conf1 == match entry_of(conf1, k) {
            Some(r) => conf0.insert(k, r),
            None => conf0.remove(k),
        }
    } else {
        unconfirmed_stepped(h.candidates@, k, fits, h.available_forms@, cosmology, tick, conf0, conf1, ev0, ev1)
    }
}

/// The candidate pass of a step, in candidate order: `evs[j]` and
/// `confs[j]` are the events so far and the confirmed registry before
/// candidate `j`.
pub open spec fn step_trace(
    h: Hypothesizer,
    inputs: Map<u32, RelationFits>,
    tick: u64,
    cosmology: Cosmology,
    doubt: Real,
    evs: Seq<Seq<HypothesisEvent>>,
    confs: Seq<Map<u32, ConfirmedRelation>>,
) -> bool {
    &&& evs.len() == h.candidates.len() + 1
    &&& confs.len() == h.candidates.len() + 1
    &&& evs[0] == Seq::<HypothesisEvent>::empty()
    &&& confs[0] == h.confirmed@
    &&& forall|j: int|
        0 <= j < h.candidates.len() ==> #[trigger] candidate_stepped(
            h,
            inputs,
            tick,
            cosmology,
            doubt,
            j,
            evs[j],
            evs[j + 1],
            confs[j],
            confs[j + 1],
        )
}

/// What a step leaves as it was: the rival fits, the window and period
/// settings, the refinement trigger, the form vocabulary, the
/// intelligence and the apparatus counts.
pub open spec fn settings_kept(a: Hypothesizer, b: Hypothesizer) -> bool {
    &&& b.rivals@ == a.rivals@
    &&& b.max_window == a.max_window
    &&& b.attempt_period == a.attempt_period
    &&& b.falsification_trigger_ticks == a.falsification_trigger_ticks
    &&& b.available_forms@ == a.available_forms@
    &&& b.intelligence == a.intelligence
    &&& b.experimental_count_by_relation@ == a.experimental_count_by_relation@
}

impl Hypothesizer {
    /// One hypothesizer step. Every candidate relation whose next attempt
    /// is due is rescheduled `next_period` ticks ahead and stepped with
    /// its fit outcomes from `inputs` (none when absent): unconfirmed
    /// relations are confirmed by their best confirmable fit; confirmed
    /// ones go through revalidation, drift tracking, probation and the
    /// refinement search. Then the measurement pass runs. Returns the
    /// events in order.
    pub fn step_with_cosmology_doubt_and_rate(
        &mut self,
        tick: u64,
        inputs: &BTreeMap<u32, RelationFits>,
        cosmology: &Cosmology,
        doubt: Real,
        discovery_rate: Real,
    ) -> (events: Vec<HypothesisEvent>)
        requires
            step_requires(*old(self), inputs@, tick, *cosmology, doubt@, discovery_rate@),
        ensures
            final(self).wf(),
            final(self).candidates@ == old(self).candidates@,
            final(self).samples@ == old(self).samples@,
            settings_kept(*old(self), *final(self)),
            depths_bounded(old(self).measurements@) ==> depths_bounded(final(self).measurements@),
            added_residuals(
                old(self).measurements@,
                final(self).measurements@,
                old(self).confirmed_measurements@,
                final(self).confirmed_measurements@,
            ),
            forall|i: int| 0 <= i < old(self).candidates.len() ==> {
                let k = #[trigger] old(self).candidates[i].relation_id;
                final(self).next_attempt@[k] == if tick >= due_tick(old(self).next_attempt@, k) {
                    (tick + next_period_spec(old(self).attempt_period, discovery_rate@)) as u64
                } else {
                    old(self).next_attempt@[k]
                }
            },
            forall|k: u32| #[trigger] old(self).confirmed@.contains_key(k) && tick < due_tick(old(self).next_attempt@, k)
                ==> final(self).confirmed@.contains_key(k) && final(self).confirmed@[k] == old(self).confirmed@[k],
            exists|evs: Seq<Seq<HypothesisEvent>>, confs: Seq<Map<u32, ConfirmedRelation>>|
                #[trigger] step_trace(*old(self), inputs@, tick, *cosmology, doubt, evs, confs)
                    && final(self).confirmed@ == confs.last()
                    && evs.last().len() <= events@.len()
                    && events@.subrange(0, evs.last().len() as int) == evs.last(),
            exists|evs: Seq<Seq<HypothesisEvent>>, confs: Seq<Map<u32, ConfirmedRelation>>, ps: Seq<MeasPass>|
                #![trigger step_trace(*old(self), inputs@, tick, *cosmology, doubt, evs, confs), meas_trace(ps, measurement_ids(old(self).measurements@), tick, next_period_spec(old(self).attempt_period, discovery_rate@) as u64, inputs@, old(self).available_forms@, *cosmology, old(self).experimental_count_by_relation@)]
                step_trace(*old(self), inputs@, tick, *cosmology, doubt, evs, confs)
                    && meas_trace(
                        ps,
                        measurement_ids(old(self).measurements@),
                        tick,
                        next_period_spec(old(self).attempt_period, discovery_rate@) as u64,
                        inputs@,
                        old(self).available_forms@,
                        *cosmology,
                        old(self).experimental_count_by_relation@,
                    )
                    && final(self).confirmed@ == confs.last()
                    && ps[0] == meas_pass_of(*old(self), evs.last())
                    && ps.last() == meas_pass_of(*final(self), events@),
    {
        let next_period = self.next_period(discovery_rate);
        proof {
            assert(next_period <= self.attempt_period + 1) by {
                if discovery_rate@ > scale() {
                    let raw: int = if self.attempt_period == 0 { 1 } else { self.attempt_period as int };
                    let n = int_bits(raw) * scale();
                    assert(0 < n) by (nonlinear_arith) requires n == int_bits(raw) * scale(), int_bits(raw) == raw * scale(), raw >= 1, scale() > 0;
                    vstd::arithmetic::div_mod::lemma_div_is_ordered_by_denominator(n, scale(), discovery_rate@);
                    vstd::arithmetic::div_mod::lemma_div_multiples_vanish(int_bits(raw), scale());
                    assert(n == scale() * int_bits(raw)) by (nonlinear_arith) requires n == int_bits(raw) * scale();
                    vstd::arithmetic::div_mod::lemma_div_is_ordered(div_bits(int_bits(raw), discovery_rate@), int_bits(raw), scale());
                    vstd::arithmetic::div_mod::lemma_div_multiples_vanish(raw, scale());
                    assert(int_bits(raw) == scale() * raw) by (nonlinear_arith) requires int_bits(raw) == raw * scale();
                }
            }
        }
        let mut events: Vec<HypothesisEvent> = Vec::new();
        let mut ids: Vec<u32> = Vec::new();
        let mut i: usize = 0;
        while i < self.candidates.len()
            invariant
                i <= self.candidates.len(),
                ids@ =~= self.candidates@.subrange(0, i as int).map_values(|c: CandidateRelation| c.relation_id),
            decreases self.candidates.len() - i,
        {
            ids.push(self.candidates[i].relation_id);
            i = i + 1;
        }
        proof {
            assert(self.candidates@.subrange(0, i as int) =~= self.candidates@);
        }
        let ghost old_self = *self;
        let ghost mut evs: Seq<Seq<HypothesisEvent>> = seq![events@];
        let ghost mut confs: Seq<Map<u32, ConfirmedRelation>> = seq![self.confirmed@];
        let mut j: usize = 0;
        while j < ids.len()
            invariant
                j <= ids.len(),
                evs.len() == j + 1,
                confs.len() == j + 1,
                evs[0] == Seq::<HypothesisEvent>::empty(),
                confs[0] == old_self.confirmed@,
                evs.last() == events@,
                confs.last() == self.confirmed@,
                forall|q: int|
                    0 <= q < j ==> #[trigger] candidate_stepped(
                        old_self,
                        inputs@,
                        tick,
                        *cosmology,
                        doubt,
                        q,
                        evs[q],
                        evs[q + 1],
                        confs[q],
                        confs[q + 1],
                    ),
                ids.len() == old_self.candidates.len(),
                forall|q: int| 0 <= q < ids.len() ==> #[trigger] ids@[q] == old_self.candidates[q].relation_id,
                old_self == *old(self),
                self.wf(),
                step_requires(old_self, inputs@, tick, *cosmology, doubt@, discovery_rate@),
                next_period == next_period_spec(old_self.attempt_period, discovery_rate@),
                next_period <= old_self.attempt_period + 1,
                self.candidates@ == old_self.candidates@,
                self.samples@ == old_self.samples@,
                self.measurements@ == old_self.measurements@,
                self.measurement_samples@ == old_self.measurement_samples@,
                self.measurement_next_attempt@ == old_self.measurement_next_attempt@,
                self.confirmed_measurements@ == old_self.confirmed_measurements@,
                self.experimental_count_by_relation@ == old_self.experimental_count_by_relation@,
                self.max_window == old_self.max_window,
                self.attempt_period == old_self.attempt_period,
                self.falsification_trigger_ticks == old_self.falsification_trigger_ticks,
                self.available_forms@ == old_self.available_forms@,
                self.intelligence == old_self.intelligence,
                self.rivals@ == old_self.rivals@,
                forall|q: int| j <= q < ids.len() ==> {
                    let k = #[trigger] ids@[q];
                    &&& self.next_attempt@.contains_key(k) == old_self.next_attempt@.contains_key(k)
                    &&& self.next_attempt@[k] == old_self.next_attempt@[k]
                    &&& self.confirmed@.contains_key(k) == old_self.confirmed@.contains_key(k)
                    &&& (old_self.confirmed@.contains_key(k) ==> self.confirmed@[k] == old_self.confirmed@[k])
                },
                forall|q: int| 0 <= q < j ==> {
                    let k = #[trigger] ids@[q];
                    self.next_attempt@[k] == if tick >= due_tick(old_self.next_attempt@, k) {
                        (tick + next_period) as u64
                    } else {
                        old_self.next_attempt@[k]
                    }
                },
                forall|k: u32| #[trigger] old_self.confirmed@.contains_key(k) && tick < due_tick(old_self.next_attempt@, k)
                    ==> self.confirmed@.contains_key(k) && self.confirmed@[k] == old_self.confirmed@[k],
            decreases ids.len() - j,
        {
            let rid = ids[j];
            proof {
                assert(old_self.next_attempt@.contains_key(rid));
            }
            let due = match self.next_attempt.get(&rid) {
                Some(d) => *d,
                None => 0,
            };
            if tick < due {
                proof {
                    evs = evs.push(events@);
                    confs = confs.push(self.confirmed@);
                    assert(candidate_stepped(old_self, inputs@, tick, *cosmology, doubt, j as int, evs[j as int], evs[j + 1], confs[j as int], confs[j + 1]));
                }
                j = j + 1;
                continue;
            }
            self.next_attempt.insert(rid, tick + next_period);
            let default_inputs = RelationFits {
                fits: empty_fits(),
                active_residual: Real::zero(),
                active_tolerance: Real::zero(),
            };
            proof {
                assert(default_inputs.fits@ =~= Seq::new(12, |i: int| None::<FitResult>));
            }
            let f = match inputs.get(&rid) {
                Some(f) => f,
                None => &default_inputs,
            };
            let ghost conf0 = self.confirmed@;
            let ghost ev0 = events@;
            assert(fits_for(inputs@, rid) == (f.fits@, f.active_residual, f.active_tolerance));
            if self.confirmed.contains_key(&rid) {
                self.step_confirmed(rid, f, tick, doubt, &mut events);
                proof {
                    let conf1 = self.confirmed@;
                    match entry_of(conf1, rid) {
                        Some(r) => {
                            assert(conf1 =~= conf0.insert(rid, r));
                        },
                        None => {
                            assert(conf1 =~= conf0.remove(rid));
                        },
                    }
                }
            } else {
                self.step_unconfirmed(rid, &f.fits, tick, cosmology, &mut events);
            }
            proof {
                evs = evs.push(events@);
                confs = confs.push(self.confirmed@);
                assert(candidate_stepped(old_self, inputs@, tick, *cosmology, doubt, j as int, evs[j as int], evs[j + 1], confs[j as int], confs[j + 1]));
            }
            proof {
                assert forall|q: int| j < q < ids.len() implies #[trigger] ids@[q] != rid by {
                    assert(old_self.candidates[q].relation_id != old_self.candidates[j as int].relation_id);
                }
            }
            j = j + 1;
        }
        proof {
            assert forall|i: int| 0 <= i < old(self).candidates.len() implies {
                let k = #[trigger] old(self).candidates[i].relation_id;
                self.next_attempt@[k] == if tick >= due_tick(old(self).next_attempt@, k) {
                    (tick + next_period) as u64
                } else {
                    old(self).next_attempt@[k]
                }
            } by {
                assert(ids@[i] == old_self.candidates[i].relation_id);
            }
        }
        let ghost ev_c = events@;
        let ghost before_meas = *self;
        assert(step_trace(old_self, inputs@, tick, *cosmology, doubt, evs, confs));
        assert(meas_pass_of(before_meas, ev_c) == meas_pass_of(old_self, evs.last()));
        self.step_measurements(tick, next_period, inputs, cosmology, &mut events);
        proof {
            assert(events@.subrange(0, ev_c.len() as int) == ev_c);
            let ps = choose|ps: Seq<MeasPass>|
                #[trigger] meas_trace(
                    ps,
                    measurement_ids(before_meas.measurements@),
                    tick,
                    next_period,
                    inputs@,
                    before_meas.available_forms@,
                    *cosmology,
                    before_meas.experimental_count_by_relation@,
                ) && ps[0] == meas_pass_of(before_meas, ev_c) && ps.last() == meas_pass_of(*self, events@);
            assert(next_period == next_period_spec(old_self.attempt_period, discovery_rate@) as u64);
            assert(meas_trace(
                ps,
                measurement_ids(old_self.measurements@),
                tick,
                next_period_spec(old_self.attempt_period, discovery_rate@) as u64,
                inputs@,
                old_self.available_forms@,
                *cosmology,
                old_self.experimental_count_by_relation@,
            ));
            if depths_bounded(old_self.measurements@) {
                assert(measurement_ids(old_self.measurements@).len() == old_self.measurements@.len());
                lemma_measurement_pass_keeps_depth(
                    ps,
                    measurement_ids(old_self.measurements@),
                    tick,
                    next_period,
                    inputs@,
                    old_self.available_forms@,
                    *cosmology,
                    old_self.experimental_count_by_relation@,
                    old_self.measurements@.len() as int,
                );
                assert(ps.last() == ps[old_self.measurements@.len() as int]);
            }
            assert(measurement_ids(old_self.measurements@).len() == old_self.measurements@.len());
            lemma_measurement_pass_adds(
                ps,
                measurement_ids(old_self.measurements@),
                tick,
                next_period,
                inputs@,
                old_self.available_forms@,
                *cosmology,
                old_self.experimental_count_by_relation@,
                old_self.measurements@.len() as int,
            );
            assert(ps.last() == ps[old_self.measurements@.len() as int]);
        }
        events
    }
}


/// The neutral cosmology: every axis zero.
pub open spec fn neutral_cosmology() -> Cosmology {
    Cosmology {
        empirical: Real { bits: 0 },
        communitarian: Real { bits: 0 },
        reformist: Real { bits: 0 },
        mystical: Real { bits: 0 },
        hierarchical: Real { bits: 0 },
    }
}

impl Hypothesizer {
    /// `step_with_cosmology_doubt_and_rate` with a discovery rate of one.
    pub fn step_with_cosmology_and_doubt(
        &mut self,
        tick: u64,
        inputs: &BTreeMap<u32, RelationFits>,
        cosmology: &Cosmology,
        doubt: Real,
    ) -> (events: Vec<HypothesisEvent>)
        requires
            step_requires(*old(self), inputs@, tick, *cosmology, doubt@, scale()),
        ensures
            final(self).wf(),
            final(self).candidates@ == old(self).candidates@,
            settings_kept(*old(self), *final(self)),
            depths_bounded(old(self).measurements@) ==> depths_bounded(final(self).measurements@),
            added_residuals(
                old(self).measurements@,
                final(self).measurements@,
                old(self).confirmed_measurements@,
                final(self).confirmed_measurements@,
            ),
            forall|i: int| 0 <= i < old(self).candidates.len() ==> {
                let k = #[trigger] old(self).candidates[i].relation_id;
                final(self).next_attempt@[k] == if tick >= due_tick(old(self).next_attempt@, k) {
                    (tick + old(self).attempt_period) as u64
                } else {
                    old(self).next_attempt@[k]
                }
            },
            exists|evs: Seq<Seq<HypothesisEvent>>, confs: Seq<Map<u32, ConfirmedRelation>>, ps: Seq<MeasPass>|
                #![trigger step_trace(*old(self), inputs@, tick, *cosmology, doubt, evs, confs), meas_trace(ps, measurement_ids(old(self).measurements@), tick, old(self).attempt_period, inputs@, old(self).available_forms@, *cosmology, old(self).experimental_count_by_relation@)]
                step_trace(*old(self), inputs@, tick, *cosmology, doubt, evs, confs)
                    && meas_trace(
                        ps,
                        measurement_ids(old(self).measurements@),
                        tick,
                        old(self).attempt_period,
                        inputs@,
                        old(self).available_forms@,
                        *cosmology,
                        old(self).experimental_count_by_relation@,
                    )
                    && final(self).confirmed@ == confs.last()
                    && ps[0] == meas_pass_of(*old(self), evs.last())
                    && ps.last() == meas_pass_of(*final(self), events@),
    {
        self.step_with_cosmology_doubt_and_rate(tick, inputs, cosmology, doubt, Real::one())
    }

    /// `step_with_cosmology_and_doubt` with the neutral doubt of one half.
    pub fn step_with_cosmology(
        &mut self,
        tick: u64,
        inputs: &BTreeMap<u32, RelationFits>,
        cosmology: &Cosmology,
    ) -> (events: Vec<HypothesisEvent>)
        requires
            step_requires(*old(self), inputs@, tick, *cosmology, scale() / 2, scale()),
        ensures
            final(self).wf(),
            final(self).candidates@ == old(self).candidates@,
            settings_kept(*old(self), *final(self)),
            depths_bounded(old(self).measurements@) ==> depths_bounded(final(self).measurements@),
            added_residuals(
                old(self).measurements@,
                final(self).measurements@,
                old(self).confirmed_measurements@,
                final(self).confirmed_measurements@,
            ),
            forall|i: int| 0 <= i < old(self).candidates.len() ==> {
                let k = #[trigger] old(self).candidates[i].relation_id;
                final(self).next_attempt@[k] == if tick >= due_tick(old(self).next_attempt@, k) {
                    (tick + old(self).attempt_period) as u64
                } else {
                    old(self).next_attempt@[k]
                }
            },
            exists|evs: Seq<Seq<HypothesisEvent>>, confs: Seq<Map<u32, ConfirmedRelation>>, ps: Seq<MeasPass>|
                #![trigger step_trace(*old(self), inputs@, tick, *cosmology, Real { bits: 2147483648 }, evs, confs), meas_trace(ps, measurement_ids(old(self).measurements@), tick, old(self).attempt_period, inputs@, old(self).available_forms@, *cosmology, old(self).experimental_count_by_relation@)]
                step_trace(*old(self), inputs@, tick, *cosmology, Real { bits: 2147483648 }, evs, confs)
                    && meas_trace(
                        ps,
                        measurement_ids(old(self).measurements@),
                        tick,
                        old(self).attempt_period,
                        inputs@,
                        old(self).available_forms@,
                        *cosmology,
                        old(self).experimental_count_by_relation@,
                    )
                    && final(self).confirmed@ == confs.last()
                    && ps[0] == meas_pass_of(*old(self), evs.last())
                    && ps.last() == meas_pass_of(*final(self), events@),
    {
        let half = Real::from_ratio(5, 10);
        proof {
            assert(ratio_bits(5, 10) == 2147483648) by {
                assert(int_bits(5) == 21474836480);
                assert(int_bits(10) == 42949672960);
                assert(div_bits(21474836480, 42949672960) == 2147483648);
            }
        }
        self.step_with_cosmology_and_doubt(tick, inputs, cosmology, half)
    }

    /// `step_with_cosmology` under the neutral cosmology.
    pub fn step(&mut self, tick: u64, inputs: &BTreeMap<u32, RelationFits>) -> (events: Vec<HypothesisEvent>)
        requires
            step_requires(*old(self), inputs@, tick, neutral_cosmology(), scale() / 2, scale()),
        ensures
            final(self).wf(),
            final(self).candidates@ == old(self).candidates@,
            settings_kept(*old(self), *final(self)),
            depths_bounded(old(self).measurements@) ==> depths_bounded(final(self).measurements@),
            added_residuals(
                old(self).measurements@,
                final(self).measurements@,
                old(self).confirmed_measurements@,
                final(self).confirmed_measurements@,
            ),
            forall|i: int| 0 <= i < old(self).candidates.len() ==> {
                let k = #[trigger] old(self).candidates[i].relation_id;
                final(self).next_attempt@[k] == if tick >= due_tick(old(self).next_attempt@, k) {
                    (tick + old(self).attempt_period) as u64
                } else {
                    old(self).next_attempt@[k]
                }
            },
            exists|evs: Seq<Seq<HypothesisEvent>>, confs: Seq<Map<u32, ConfirmedRelation>>, ps: Seq<MeasPass>|
                #![trigger step_trace(*old(self), inputs@, tick, neutral_cosmology(), Real { bits: 2147483648 }, evs, confs), meas_trace(ps, measurement_ids(old(self).measurements@), tick, old(self).attempt_period, inputs@, old(self).available_forms@, neutral_cosmology(), old(self).experimental_count_by_relation@)]
                step_trace(*old(self), inputs@, tick, neutral_cosmology(), Real { bits: 2147483648 }, evs, confs)
                    && meas_trace(
                        ps,
                        measurement_ids(old(self).measurements@),
                        tick,
                        old(self).attempt_period,
                        inputs@,
                        old(self).available_forms@,
                        neutral_cosmology(),
                        old(self).experimental_count_by_relation@,
                    )
                    && final(self).confirmed@ == confs.last()
                    && ps[0] == meas_pass_of(*old(self), evs.last())
                    && ps.last() == meas_pass_of(*final(self), events@),
    {
        let neutral = Cosmology::neutral();
        self.step_with_cosmology(tick, inputs, &neutral)
    }
}


/// A recognition firing: template `template_id` fired at `cell`.
#[derive(Debug, Clone, Copy, PartialEq, Eq, Structural)]
pub struct Firing {
    pub template_id: u32,
    pub cell: u32,
}

/// Whether some firing is of `template_id` at `cell`.
pub open spec fn fired(firings: Seq<Firing>, template_id: u32, cell: int) -> bool {
    exists|i: int| 0 <= i < firings.len() && #[trigger] firings[i].template_id == template_id && firings[i].cell == cell
}

/// Key of a `(template, cell)` firing.
pub open spec fn firing_key(template_id: u32, cell: int) -> u64 {
    (template_id as int * 0x1_0000_0000 + cell) as u64
}

/// The samples a candidate collects from one tick: one per accepted
/// cell below `n`, `x` the channel's fit-space reading, `y` one on a
/// firing of its template there and zero otherwise.
pub open spec fn candidate_samples(
    c: CandidateRelation,
    state: PhysicsView,
    firings: Seq<Firing>,
    accept: Seq<bool>,
    n: int,
) -> Seq<Sample>
    decreases n,
{
    if n <= 0 {
        Seq::empty()
    } else {
        let prev = candidate_samples(c, state, firings, accept, n - 1);
        if accept[n - 1] {
            prev.push(Sample {
                x: Real { bits: state.read_spec(c.channel, n - 1) as i64 },
                y: Real { bits: if fired(firings, c.template_id, n - 1) { 4294967296 } else { 0 } },
            })
        } else {
            prev
        }
    }
}

/// The set of firing keys built from a firing list.
fn firing_set(firings: &Vec<Firing>) -> (s: BTreeSet<u64>)
    ensures
        forall|t: u32, c: u32| #[trigger] s@.contains(firing_key(t, c as int)) <==> fired(firings@, t, c as int),
{
    let mut s: BTreeSet<u64> = BTreeSet::new();
    let mut i: usize = 0;
    while i < firings.len()
        invariant
            i <= firings.len(),
            forall|t: u32, c: u32| #[trigger] s@.contains(firing_key(t, c as int)) <==> fired(firings@.subrange(0, i as int), t, c as int),
            forall|k: u64| #[trigger] s@.contains(k) ==> exists|t: u32, c: u32| k == firing_key(t, c as int),
        decreases firings.len() - i,
    {
        let f = firings[i];
        let key: u64 = (f.template_id as u64) * 0x1_0000_0000 + (f.cell as u64);
        s.insert(key);
        proof {
            assert(key == firing_key(f.template_id, f.cell as int));
            let sub = firings@.subrange(0, i + 1);
            assert forall|t: u32, c: u32| #[trigger] s@.contains(firing_key(t, c as int)) <==> fired(sub, t, c as int) by {
                lemma_firing_key_injective(t, c, f.template_id, f.cell);
                if fired(firings@.subrange(0, i as int), t, c as int) {
                    let w = choose|w: int| 0 <= w < i && #[trigger] firings@.subrange(0, i as int)[w].template_id == t && firings@.subrange(0, i as int)[w].cell == c;
                    assert(sub[w] == firings@.subrange(0, i as int)[w]);
                }
                if t == f.template_id && c == f.cell {
                    assert(sub[i as int] == f);
                }
                if fired(sub, t, c as int) {
                    let w = choose|w: int| 0 <= w < i + 1 && #[trigger] sub[w].template_id == t && sub[w].cell == c;
                    if w < i {
                        assert(firings@.subrange(0, i as int)[w] == sub[w]);
                    }
                }
            }
        }
        i = i + 1;
    }
    proof {
        assert(firings@.subrange(0, i as int) =~= firings@);
    }
    s
}

/// Different `(template, cell)` pairs have different keys.
proof fn lemma_firing_key_injective(t1: u32, c1: u32, t2: u32, c2: u32)
    ensures
        firing_key(t1, c1 as int) == firing_key(t2, c2 as int) ==> t1 == t2 && c1 == c2,
{
    let a = t1 as int * 0x1_0000_0000 + c1;
    let b = t2 as int * 0x1_0000_0000 + c2;
    assert(0 <= a < 0x1_0000_0000_0000_0000) by (nonlinear_arith) requires a == t1 as int * 0x1_0000_0000 + c1, t1 < 0x1_0000_0000, c1 < 0x1_0000_0000;
    assert(0 <= b < 0x1_0000_0000_0000_0000) by (nonlinear_arith) requires b == t2 as int * 0x1_0000_0000 + c2, t2 < 0x1_0000_0000, c2 < 0x1_0000_0000;
    if a == b {
        if t1 < t2 {
            assert(t1 as int * 0x1_0000_0000 + 0x1_0000_0000 <= t2 as int * 0x1_0000_0000) by (nonlinear_arith) requires t1 < t2;
        }
        if t2 < t1 {
            assert(t2 as int * 0x1_0000_0000 + 0x1_0000_0000 <= t1 as int * 0x1_0000_0000) by (nonlinear_arith) requires t2 < t1;
        }
    }
}


/// The samples a base measurement collects from one tick: one per
/// accepted cell below `n` where both axes are readable.
pub open spec fn measurement_samples_spec(
    m: MeasurementCandidate,
    state: PhysicsView,
    prev: Option<PhysicsView>,
    accept: Seq<bool>,
    n: int,
) -> Seq<Sample>
    decreases n,
{
    if n <= 0 {
        Seq::empty()
    } else {
        let earlier = measurement_samples_spec(m, state, prev, accept, n - 1);
        let y = measurement_read_spec(m.y_channel, state, prev, n - 1);
        let x = measurement_read_spec(m.x_channel, state, prev, n - 1);
        if accept[n - 1] && y is Some && x is Some {
            earlier.push(Sample { x: Real { bits: x->Some_0 as i64 }, y: Real { bits: y->Some_0 as i64 } })
        } else {
            earlier
        }
    }
}

/// The samples a residual measurement collects from one tick, given the
/// basis prediction `preds[i]` made at each cell `i`: one per accepted
/// cell below `n` where both axes and the basis's `x` axis are
/// readable, `y` being the reading less the prediction (the Q32.32
/// difference wraps, as the original's release build does).
pub open spec fn residual_samples_spec(
    m: MeasurementCandidate,
    state: PhysicsView,
    prev: Option<PhysicsView>,
    accept: Seq<bool>,
    n: int,
    preds: Seq<i64>,
) -> Seq<Sample>
    recommends
        m.residual_basis is Some,
    decreases n,
{
    if n <= 0 {
        Seq::empty()
    } else {
        let earlier = residual_samples_spec(m, state, prev, accept, n - 1, preds);
        let y = measurement_read_spec(m.y_channel, state, prev, n - 1);
        let x = measurement_read_spec(m.x_channel, state, prev, n - 1);
        let bx = measurement_read_spec(m.residual_basis->Some_0.source_x_channel, state, prev, n - 1);
        if accept[n - 1] && y is Some && x is Some && bx is Some {
            earlier.push(
                Sample {
                    x: Real { bits: x->Some_0 as i64 },
                    y: Real { bits: (y->Some_0 as i64).wrapping_sub(preds[n - 1]) },
                },
            )
        } else {
            earlier
        }
    }
}

/// `preds[i]` is what the evaluator `f` can give for the basis form and
/// parameters at the basis's own `x` reading, at every accepted cell
/// below `n` where the residual measurement takes a sample.
pub open spec fn predictions_from<E: Fn(Form, &Vec<Real>, Real) -> Real>(
    f: E,
    m: MeasurementCandidate,
    state: PhysicsView,
    prev: Option<PhysicsView>,
    accept: Seq<bool>,
    n: int,
    preds: Seq<i64>,
) -> bool {
    forall|i: int|
        0 <= i < n && #[trigger] residual_takes(m, state, prev, accept, i) ==> call_ensures(
            f,
            (
                m.residual_basis->Some_0.source_form,
                &m.residual_basis->Some_0.source_params,
                Real { bits: measurement_read_spec(m.residual_basis->Some_0.source_x_channel, state, prev, i)->Some_0 as i64 },
            ),
            Real { bits: preds[i] },
        )
}

/// A residual measurement takes a sample at cell `i`: the cell is
/// accepted and both axes and the basis's `x` axis are readable.
pub open spec fn residual_takes(
    m: MeasurementCandidate,
    state: PhysicsView,
    prev: Option<PhysicsView>,
    accept: Seq<bool>,
    i: int,
) -> bool {
    &&& accept[i]
    &&& measurement_read_spec(m.y_channel, state, prev, i) is Some
    &&& measurement_read_spec(m.x_channel, state, prev, i) is Some
    &&& measurement_read_spec(m.residual_basis->Some_0.source_x_channel, state, prev, i) is Some
}

/// The residual samples below `n` read only the predictions below `n`.
proof fn lemma_residual_prefix(
    m: MeasurementCandidate,
    state: PhysicsView,
    prev: Option<PhysicsView>,
    accept: Seq<bool>,
    n: int,
    preds: Seq<i64>,
    more: Seq<i64>,
)
    requires
        0 <= n <= preds.len(),
        preds.len() <= more.len(),
        forall|i: int| 0 <= i < preds.len() ==> preds[i] == more[i],
    ensures
        residual_samples_spec(m, state, prev, accept, n, preds) == residual_samples_spec(m, state, prev, accept, n, more),
    decreases n,
{
    if n > 0 {
        lemma_residual_prefix(m, state, prev, accept, n - 1, preds, more);
    }
}

/// A window capped at `max ≥ 1` stays within its cap however many
/// samples are pushed.
pub proof fn lemma_window_push_all_len(buf: Seq<Sample>, ss: Seq<Sample>, max: nat)
    requires
        buf.len() <= max,
        max >= 1,
    ensures
        window_push_all(buf, ss, max).len() <= max,
    decreases ss.len(),
{
    if ss.len() > 0 {
        lemma_window_push_all_len(buf, ss.drop_last(), max);
        lemma_window_push_len(window_push_all(buf, ss.drop_last(), max), ss.last(), max);
    }
}

/// Without a previous state, a measurement with a time-delta axis reads
/// nothing: it collects no samples, plain or residual.
pub proof fn lemma_no_delta_without_previous(
    m: MeasurementCandidate,
    state: PhysicsView,
    accept: Seq<bool>,
    n: int,
    preds: Seq<i64>,
)
    requires
        m.y_channel is TemporalDelta || m.x_channel is TemporalDelta,
    ensures
        measurement_samples_spec(m, state, None, accept, n).len() == 0,
        residual_samples_spec(m, state, None, accept, n, preds).len() == 0,
    decreases n,
{
    if n > 0 {
        lemma_no_delta_without_previous(m, state, accept, n - 1, preds);
    }
}

/// Pushing one more sample extends the batch push.
proof fn lemma_window_push_all_step(buf: Seq<Sample>, ss: Seq<Sample>, s: Sample, max: nat)
    ensures
        window_push_all(buf, ss.push(s), max) == window_push(window_push_all(buf, ss, max), s, max),
{
    assert(ss.push(s).drop_last() =~= ss);
}

/// The previous state, by value.
pub open spec fn prev_view(prev: Option<&PhysicsView>) -> Option<PhysicsView> {
    match prev {
        Some(p) => Some(*p),
        None => None,
    }
}

impl Hypothesizer {
    /// Per-tick sample collection over the accepted cells. Each candidate
    /// appends, per accepted cell, its channel reading and whether its
    /// template fired there; each measurement appends the readings of its
    /// axes where both are readable (a residual measurement, where its
    /// basis's `x` axis is readable too, subtracts the basis's prediction
    /// from `y`; the Q32.32 difference wraps). Time-delta axes read
    /// nothing without a previous state. Windows stay capped at
    /// `max_window` (when it is at least one).
    pub fn observe_cells<E: Fn(Form, &Vec<Real>, Real) -> Real>(
        &mut self,
        state: &PhysicsView,
        prev_state: Option<&PhysicsView>,
        firings: &Vec<Firing>,
        accept: &Vec<bool>,
        evaluator: &E,
    )
        requires
            old(self).wf(),
            state.wf(),
            state.n_cells() < 0x1_0000_0000,
            accept.len() == state.n_cells(),
            prev_state matches Some(p) ==> p.wf() && p.n_cells() == state.n_cells(),
            forall|f: Form, params: &Vec<Real>, x: Real| #[trigger] call_requires(*evaluator, (f, params, x)),
        ensures
            final(self).wf(),
            final(self).candidates@ == old(self).candidates@,
            final(self).measurements@ == old(self).measurements@,
            final(self).samples@.dom() == old(self).samples@.dom(),
            final(self).measurement_samples@.dom() == old(self).measurement_samples@.dom(),
            forall|i: int| 0 <= i < old(self).candidates.len() ==> {
                let c = #[trigger] old(self).candidates[i];
                final(self).samples@[c.relation_id]@ == window_push_all(
                    old(self).samples@[c.relation_id]@,
                    candidate_samples(c, *state, firings@, accept@, state.n_cells() as int),
                    old(self).max_window as nat,
                )
            },
            forall|i: int| 0 <= i < old(self).measurements.len() && (#[trigger] old(self).measurements[i]).residual_basis is None ==> {
                let m = old(self).measurements[i];
                final(self).measurement_samples@[m.relation_id]@ == window_push_all(
                    old(self).measurement_samples@[m.relation_id]@,
                    measurement_samples_spec(m, *state, prev_view(prev_state), accept@, state.n_cells() as int),
                    old(self).max_window as nat,
                )
            },
            forall|i: int| 0 <= i < old(self).measurements.len() && (#[trigger] old(self).measurements[i]).residual_basis is Some ==> {
                let m = old(self).measurements[i];
                exists|preds: Seq<i64>|
                    preds.len() == state.n_cells() && predictions_from(*evaluator, m, *state, prev_view(prev_state), accept@, state.n_cells() as int, preds) && #[trigger] window_push_all(
                        old(self).measurement_samples@[m.relation_id]@,
                        residual_samples_spec(m, *state, prev_view(prev_state), accept@, state.n_cells() as int, preds),
                        old(self).max_window as nat,
                    ) == final(self).measurement_samples@[m.relation_id]@
            },
            old(self).max_window >= 1 ==> forall|i: int|
                0 <= i < old(self).candidates.len() && (#[trigger] old(self).samples@[old(self).candidates[i].relation_id])@.len()
                    <= old(self).max_window ==> final(self).samples@[old(self).candidates[i].relation_id]@.len() <= old(self).max_window,
            old(self).max_window >= 1 ==> forall|i: int|
                0 <= i < old(self).measurements.len() && (#[trigger] old(self).measurement_samples@[old(self).measurements[i].relation_id])@.len()
                    <= old(self).max_window ==> final(self).measurement_samples@[old(self).measurements[i].relation_id]@.len() <= old(self).max_window,
            final(self).confirmed@ == old(self).confirmed@,
            final(self).next_attempt@ == old(self).next_attempt@,
            final(self).measurement_next_attempt@ == old(self).measurement_next_attempt@,
            final(self).max_window == old(self).max_window,
    {
        let set = firing_set(firings);
        let n_cells = state.temperature.len();
        let max = self.max_window;
        let mut i: usize = 0;
        while i < self.candidates.len()
            invariant
                i <= self.candidates.len(),
                self.wf(),
                state.wf(),
                n_cells == state.n_cells(),
                n_cells < 0x1_0000_0000,
                accept.len() == n_cells,
                max == self.max_window,
                max == old(self).max_window,
                self.candidates@ == old(self).candidates@,
                self.measurements@ == old(self).measurements@,
                self.samples@.dom() == old(self).samples@.dom(),
                self.measurement_samples@ == old(self).measurement_samples@,
                self.confirmed@ == old(self).confirmed@,
                self.next_attempt@ == old(self).next_attempt@,
                self.measurement_next_attempt@ == old(self).measurement_next_attempt@,
                forall|t: u32, c: u32| #[trigger] set@.contains(firing_key(t, c as int)) <==> fired(firings@, t, c as int),
                forall|q: int| 0 <= q < i ==> {
                    let c = #[trigger] old(self).candidates[q];
                    self.samples@[c.relation_id]@ == window_push_all(
                        old(self).samples@[c.relation_id]@,
                        candidate_samples(c, *state, firings@, accept@, n_cells as int),
                        max as nat,
                    )
                },
                forall|q: int| i <= q < self.candidates.len() ==> #[trigger] self.samples@[self.candidates[q].relation_id] == old(self).samples@[old(self).candidates[q].relation_id],
            decreases self.candidates.len() - i,
        {
            let c = self.candidates[i];
            let mut buf = self.samples.remove(&c.relation_id).unwrap();
            let ghost orig = buf@;
            let mut cell: usize = 0;
            while cell < n_cells
                invariant
                    cell <= n_cells,
                    state.wf(),
                    n_cells == state.n_cells(),
                    n_cells < 0x1_0000_0000,
                    accept.len() == n_cells,
                    forall|t: u32, cc: u32| #[trigger] set@.contains(firing_key(t, cc as int)) <==> fired(firings@, t, cc as int),
                    buf@ == window_push_all(orig, candidate_samples(c, *state, firings@, accept@, cell as int), max as nat),
                decreases n_cells - cell,
            {
                if accept[cell] {
                    let x = c.channel.read(state, cell);
                    let key: u64 = (c.template_id as u64) * 0x1_0000_0000 + (cell as u64);
                    proof {
                        assert(key == firing_key(c.template_id, (cell as u32) as int));
                    }
                    let y = if set.contains(&key) { Real::one() } else { Real::zero() };
                    let smp = Sample { x, y };
                    proof {
                        lemma_window_push_all_step(orig, candidate_samples(c, *state, firings@, accept@, cell as int), smp, max as nat);
                    }
                    push_window(&mut buf, smp, max);
                }
                cell = cell + 1;
            }
            self.samples.insert(c.relation_id, buf);
            proof {
                assert forall|q: int| i < q < self.candidates.len() implies #[trigger] self.samples@[self.candidates[q].relation_id] == old(self).samples@[old(self).candidates[q].relation_id] by {
                    assert(self.candidates[q].relation_id != self.candidates[i as int].relation_id);
                }
                assert forall|q: int| 0 <= q < i implies {
                    let cq = #[trigger] old(self).candidates[q];
                    self.samples@[cq.relation_id]@ == window_push_all(
                        old(self).samples@[cq.relation_id]@,
                        candidate_samples(cq, *state, firings@, accept@, n_cells as int),
                        max as nat,
                    )
                } by {
                    assert(old(self).candidates[q].relation_id != old(self).candidates[i as int].relation_id);
                }
                assert(self.samples@.dom() =~= old(self).samples@.dom());
            }
            i = i + 1;
        }
        let mut j: usize = 0;
        while j < self.measurements.len()
            invariant
                j <= self.measurements.len(),
                self.wf(),
                state.wf(),
                n_cells == state.n_cells(),
                n_cells < 0x1_0000_0000,
                accept.len() == n_cells,
                prev_state matches Some(p) ==> p.wf() && p.n_cells() == state.n_cells(),
                forall|f: Form, params: &Vec<Real>, x: Real| #[trigger] call_requires(*evaluator, (f, params, x)),
                max == self.max_window,
                max == old(self).max_window,
                self.candidates@ == old(self).candidates@,
                self.measurements@ == old(self).measurements@,
                self.samples@.dom() == old(self).samples@.dom(),
                self.measurement_samples@.dom() == old(self).measurement_samples@.dom(),
                self.confirmed@ == old(self).confirmed@,
                self.next_attempt@ == old(self).next_attempt@,
                self.measurement_next_attempt@ == old(self).measurement_next_attempt@,
                forall|q: int| 0 <= q < old(self).candidates.len() ==> {
                    let c = #[trigger] old(self).candidates[q];
                    self.samples@[c.relation_id]@ == window_push_all(
                        old(self).samples@[c.relation_id]@,
                        candidate_samples(c, *state, firings@, accept@, n_cells as int),
                        max as nat,
                    )
                },
                forall|q: int| 0 <= q < j && (#[trigger] old(self).measurements[q]).residual_basis is None ==> {
                    let m = old(self).measurements[q];
                    self.measurement_samples@[m.relation_id]@ == window_push_all(
                        old(self).measurement_samples@[m.relation_id]@,
                        measurement_samples_spec(m, *state, prev_view(prev_state), accept@, n_cells as int),
                        max as nat,
                    )
                },
                forall|q: int| 0 <= q < j && (#[trigger] old(self).measurements[q]).residual_basis is Some ==> {
                    let m = old(self).measurements[q];
                    exists|preds: Seq<i64>|
                        preds.len() == n_cells && predictions_from(*evaluator, m, *state, prev_view(prev_state), accept@, n_cells as int, preds) && #[trigger] window_push_all(
                            old(self).measurement_samples@[m.relation_id]@,
                            residual_samples_spec(m, *state, prev_view(prev_state), accept@, n_cells as int, preds),
                            max as nat,
                        ) == self.measurement_samples@[m.relation_id]@
                },
                forall|q: int| j <= q < self.measurements.len() ==> #[trigger] self.measurement_samples@[self.measurements[q].relation_id] == old(self).measurement_samples@[old(self).measurements[q].relation_id],
            decreases self.measurements.len() - j,
        {
            let m = &self.measurements[j];
            let rid = m.relation_id;
            let y_ch = m.y_channel;
            let x_ch = m.x_channel;
            let basis_none = m.residual_basis.is_none();
            let mut buf = self.measurement_samples.remove(&rid).unwrap();
            let ghost orig = buf@;
            let ghost mv = self.measurements@[j as int];
            let ghost mut preds: Seq<i64> = Seq::empty();
            let mut cell: usize = 0;
            while cell < n_cells
                invariant
                    cell <= n_cells,
                    preds.len() == cell,
                    forall|f: Form, params: &Vec<Real>, x: Real| #[trigger] call_requires(*evaluator, (f, params, x)),
                    !basis_none ==> predictions_from(*evaluator, mv, *state, prev_view(prev_state), accept@, cell as int, preds),
                    !basis_none ==> buf@ == window_push_all(orig, residual_samples_spec(mv, *state, prev_view(prev_state), accept@, cell as int, preds), max as nat),
                    j < self.measurements.len(),
                    mv == self.measurements@[j as int],
                    mv.y_channel == y_ch && mv.x_channel == x_ch,
                    basis_none == mv.residual_basis is None,
                    state.wf(),
                    n_cells == state.n_cells(),
                    accept.len() == n_cells,
                    prev_state matches Some(p) ==> p.wf() && p.n_cells() == state.n_cells(),
                    basis_none ==> buf@ == window_push_all(orig, measurement_samples_spec(mv, *state, prev_view(prev_state), accept@, cell as int), max as nat),
                decreases n_cells - cell,
            {
                let ghost mut pc: i64 = 0;
                proof {
                    lemma_residual_prefix(mv, *state, prev_view(prev_state), accept@, cell as int, preds, preds.push(0));
                }
                if accept[cell] {
                    let yr = y_ch.read(state, prev_state, cell);
                    let xr = x_ch.read(state, prev_state, cell);
                    match (yr, xr) {
                        (Some(y), Some(x)) => {
                            match &self.measurements[j].residual_basis {
                                Some(basis) => {
                                    match basis.source_x_channel.read(state, prev_state, cell) {
                                        Some(bx) => {
                                            let predicted = evaluator(basis.source_form, &basis.source_params, bx);
                                            let smp = Sample { x, y: Real::from_bits(y.to_bits().wrapping_sub(predicted.to_bits())) };
                                            proof {
                                                pc = predicted.bits;
                                                assert(bx == Real { bits: measurement_read_spec(mv.residual_basis->Some_0.source_x_channel, *state, prev_view(prev_state), cell as int)->Some_0 as i64 });
                                                assert(predicted == Real { bits: pc });
                                                lemma_residual_prefix(mv, *state, prev_view(prev_state), accept@, cell as int, preds, preds.push(pc));
                                                let ss = residual_samples_spec(mv, *state, prev_view(prev_state), accept@, cell as int, preds);
                                                assert(residual_samples_spec(mv, *state, prev_view(prev_state), accept@, cell + 1, preds.push(pc)) == ss.push(smp));
                                                lemma_window_push_all_step(orig, ss, smp, max as nat);
                                            }
                                            push_window(&mut buf, smp, max);
                                        },
                                        None => {},
                                    }
                                },
                                None => {
                                    let smp = Sample { x, y };
                                    proof {
                                        lemma_window_push_all_step(orig, measurement_samples_spec(mv, *state, prev_view(prev_state), accept@, cell as int), smp, max as nat);
                                    }
                                    push_window(&mut buf, smp, max);
                                },
                            }
                        },
                        _ => {},
                    }
                }
                proof {
                    let np = preds.push(pc);
                    if !basis_none {
                        assert forall|i: int| 0 <= i < cell + 1 && #[trigger] residual_takes(mv, *state, prev_view(prev_state), accept@, i) implies call_ensures(
                            *evaluator,
                            (
                                mv.residual_basis->Some_0.source_form,
                                &mv.residual_basis->Some_0.source_params,
                                Real { bits: measurement_read_spec(mv.residual_basis->Some_0.source_x_channel, *state, prev_view(prev_state), i)->Some_0 as i64 },
                            ),
                            Real { bits: np[i] },
                        ) by {
                            if i < cell {
                                assert(np[i] == preds[i]);
                            }
                        }
                    }
                    preds = np;
                }
                cell = cell + 1;
            }
            self.measurement_samples.insert(rid, buf);
            proof {
                assert forall|q: int| 0 <= q < j && (#[trigger] old(self).measurements[q]).residual_basis is Some implies {
                    let mq = old(self).measurements[q];
                    exists|ps: Seq<i64>|
                        ps.len() == n_cells && predictions_from(*evaluator, mq, *state, prev_view(prev_state), accept@, n_cells as int, ps) && #[trigger] window_push_all(
                            old(self).measurement_samples@[mq.relation_id]@,
                            residual_samples_spec(mq, *state, prev_view(prev_state), accept@, n_cells as int, ps),
                            max as nat,
                        ) == self.measurement_samples@[mq.relation_id]@
                } by {
                    assert(old(self).measurements[q].relation_id != old(self).measurements[j as int].relation_id);
                }
                if !basis_none {
                    assert(window_push_all(
                        old(self).measurement_samples@[mv.relation_id]@,
                        residual_samples_spec(mv, *state, prev_view(prev_state), accept@, n_cells as int, preds),
                        max as nat,
                    ) == self.measurement_samples@[mv.relation_id]@);
                }
                assert forall|q: int| j < q < self.measurements.len() implies #[trigger] self.measurement_samples@[self.measurements[q].relation_id] == old(self).measurement_samples@[old(self).measurements[q].relation_id] by {
                    assert(self.measurements[q].relation_id != self.measurements[j as int].relation_id);
                }
                assert forall|q: int| 0 <= q < j && (#[trigger] old(self).measurements[q]).residual_basis is None implies {
                    let mq = old(self).measurements[q];
                    self.measurement_samples@[mq.relation_id]@ == window_push_all(
                        old(self).measurement_samples@[mq.relation_id]@,
                        measurement_samples_spec(mq, *state, prev_view(prev_state), accept@, n_cells as int),
                        max as nat,
                    )
                } by {
                    assert(old(self).measurements[q].relation_id != old(self).measurements[j as int].relation_id);
                }
                assert(self.measurement_samples@.dom() =~= old(self).measurement_samples@.dom());
            }
            j = j + 1;
        }
        proof {
            if max >= 1 {
                assert forall|i: int|
                    0 <= i < old(self).candidates.len() && (#[trigger] old(self).samples@[old(self).candidates[i].relation_id])@.len()
                        <= max implies self.samples@[old(self).candidates[i].relation_id]@.len() <= max by {
                    let c = old(self).candidates[i];
                    lemma_window_push_all_len(
                        old(self).samples@[c.relation_id]@,
                        candidate_samples(c, *state, firings@, accept@, n_cells as int),
                        max as nat,
                    );
                }
                assert forall|i: int|
                    0 <= i < old(self).measurements.len() && (#[trigger] old(self).measurement_samples@[old(self).measurements[i].relation_id])@.len()
                        <= max implies self.measurement_samples@[old(self).measurements[i].relation_id]@.len() <= max by {
                    let m = old(self).measurements[i];
                    if m.residual_basis is None {
                        lemma_window_push_all_len(
                            old(self).measurement_samples@[m.relation_id]@,
                            measurement_samples_spec(m, *state, prev_view(prev_state), accept@, n_cells as int),
                            max as nat,
                        );
                    } else {
                        let preds = choose|preds: Seq<i64>|
                            preds.len() == n_cells && #[trigger] window_push_all(
                                old(self).measurement_samples@[m.relation_id]@,
                                residual_samples_spec(m, *state, prev_view(prev_state), accept@, n_cells as int, preds),
                                max as nat,
                            ) == self.measurement_samples@[m.relation_id]@;
                        lemma_window_push_all_len(
                            old(self).measurement_samples@[m.relation_id]@,
                            residual_samples_spec(m, *state, prev_view(prev_state), accept@, n_cells as int, preds),
                            max as nat,
                        );
                    }
                }
            }
        }
    }
}


/// Whether some candidate in the list has relation id `k`.
pub open spec fn has_candidate(cs: Seq<CandidateRelation>, k: u32) -> bool {
    exists|i: int| 0 <= i < cs.len() && #[trigger] cs[i].relation_id == k
}

impl Hypothesizer {
    /// `observe_cells` over every cell, with no previous state.
    pub fn observe<E: Fn(Form, &Vec<Real>, Real) -> Real>(&mut self, state: &PhysicsView, firings: &Vec<Firing>, evaluator: &E)
        requires
            old(self).wf(),
            state.wf(),
            state.n_cells() < 0x1_0000_0000,
            forall|f: Form, params: &Vec<Real>, x: Real| #[trigger] call_requires(*evaluator, (f, params, x)),
        ensures
            final(self).wf(),
            final(self).candidates@ == old(self).candidates@,
            forall|i: int| 0 <= i < old(self).candidates.len() ==> {
                let c = #[trigger] old(self).candidates[i];
                final(self).samples@[c.relation_id]@ == window_push_all(
                    old(self).samples@[c.relation_id]@,
                    candidate_samples(c, *state, firings@, Seq::new(state.n_cells(), |k: int| true), state.n_cells() as int),
                    old(self).max_window as nat,
                )
            },
    {
        let n = state.temperature.len();
        let mut accept: Vec<bool> = Vec::new();
        let mut k: usize = 0;
        while k < n
            invariant
                k <= n,
                accept@ =~= Seq::new(k as nat, |q: int| true),
            decreases n - k,
        {
            accept.push(true);
            k = k + 1;
        }
        self.observe_cells(state, None, firings, &accept, evaluator);
    }

    /// Refresh the candidate list against a new perceivable-template set.
    /// Windows, next attempts and confirmations of relations still in
    /// scope are kept; new relations get empty windows due at tick 0;
    /// relations out of scope lose their state.
    pub fn refresh_perceivable(&mut self, perceivable_template_ids: &Vec<u32>)
        requires
            template_ids_ok(perceivable_template_ids@),
            perceivable_template_ids.len() * 10 <= usize::MAX,
        ensures
            final(self).candidates@ == candidates_spec(perceivable_template_ids@),
            forall|k: u32| #[trigger] final(self).samples@.contains_key(k) <==> has_candidate(final(self).candidates@, k),
            forall|k: u32| #[trigger] final(self).next_attempt@.contains_key(k) <==> has_candidate(final(self).candidates@, k),
            forall|k: u32| #[trigger] final(self).confirmed@.contains_key(k) <==> (has_candidate(final(self).candidates@, k) && old(self).confirmed@.contains_key(k)),
            forall|k: u32| #[trigger] final(self).samples@.contains_key(k) ==> final(self).samples@[k]@ == if old(self).samples@.contains_key(k) { old(self).samples@[k]@ } else { Seq::<Sample>::empty() },
            forall|k: u32| #[trigger] final(self).next_attempt@.contains_key(k) ==> final(self).next_attempt@[k] == due_tick(old(self).next_attempt@, k),
            forall|k: u32| #[trigger] final(self).confirmed@.contains_key(k) ==> final(self).confirmed@[k] == old(self).confirmed@[k],
            final(self).measurements@ == old(self).measurements@,
            final(self).measurement_samples@ == old(self).measurement_samples@,
    {
        let new_candidates = Self::candidates_for(perceivable_template_ids);
        let mut samples: BTreeMap<u32, VecDeque<Sample>> = BTreeMap::new();
        let mut next: BTreeMap<u32, u64> = BTreeMap::new();
        let mut confirmed: BTreeMap<u32, ConfirmedRelation> = BTreeMap::new();
        let mut i: usize = 0;
        while i < new_candidates.len()
            invariant
                i <= new_candidates.len(),
                forall|k: u32| #[trigger] samples@.contains_key(k) <==> has_candidate(new_candidates@.subrange(0, i as int), k),
                forall|k: u32| #[trigger] next@.contains_key(k) <==> has_candidate(new_candidates@.subrange(0, i as int), k),
                forall|k: u32| #[trigger] confirmed@.contains_key(k) <==> (has_candidate(new_candidates@.subrange(0, i as int), k) && old(self).confirmed@.contains_key(k)),
                forall|k: u32| #[trigger] samples@.contains_key(k) ==> samples@[k]@ == if old(self).samples@.contains_key(k) { old(self).samples@[k]@ } else { Seq::<Sample>::empty() },
                forall|k: u32| #[trigger] next@.contains_key(k) ==> next@[k] == due_tick(old(self).next_attempt@, k),
                forall|k: u32| #[trigger] confirmed@.contains_key(k) ==> confirmed@[k] == old(self).confirmed@[k],
                forall|k: u32| #[trigger] self.samples@.contains_key(k) ==> old(self).samples@.contains_key(k) && !samples@.contains_key(k) && self.samples@[k] == old(self).samples@[k],
                forall|k: u32| #[trigger] old(self).samples@.contains_key(k) && !samples@.contains_key(k) ==> self.samples@.contains_key(k),
                forall|k: u32| #[trigger] self.confirmed@.contains_key(k) ==> old(self).confirmed@.contains_key(k) && !confirmed@.contains_key(k) && self.confirmed@[k] == old(self).confirmed@[k],
                forall|k: u32| #[trigger] old(self).confirmed@.contains_key(k) && !samples@.contains_key(k) ==> self.confirmed@.contains_key(k),
                forall|k: u32| #[trigger] old(self).confirmed@.contains_key(k) && !confirmed@.contains_key(k) ==> self.confirmed@.contains_key(k),
                self.next_attempt@ == old(self).next_attempt@,
                self.measurements@ == old(self).measurements@,
                self.measurement_samples@ == old(self).measurement_samples@,
            decreases new_candidates.len() - i,
        {
            let id = new_candidates[i].relation_id;
            let ghost pre = new_candidates@.subrange(0, i as int);
            let ghost post = new_candidates@.subrange(0, i + 1);
            proof {
                assert forall|k: u32| has_candidate(post, k) <==> (has_candidate(pre, k) || k == id) by {
                    if has_candidate(pre, k) {
                        let w = choose|w: int| 0 <= w < pre.len() && #[trigger] pre[w].relation_id == k;
                        assert(post[w] == pre[w]);
                    }
                    if k == id {
                        assert(post[i as int].relation_id == id);
                    }
                    if has_candidate(post, k) {
                        let w = choose|w: int| 0 <= w < post.len() && #[trigger] post[w].relation_id == k;
                        if w < i {
                            assert(pre[w] == post[w]);
                        }
                    }
                }
            }
            if !samples.contains_key(&id) {
                let buf = match self.samples.remove(&id) {
                    Some(b) => b,
                    None => VecDeque::new(),
                };
                samples.insert(id, buf);
                let due = match self.next_attempt.get(&id) {
                    Some(d) => *d,
                    None => 0,
                };
                next.insert(id, due);
                match self.confirmed.remove(&id) {
                    Some(r) => {
                        confirmed.insert(id, r);
                    },
                    None => {},
                }
            }
            i = i + 1;
        }
        proof {
            assert(new_candidates@.subrange(0, i as int) =~= new_candidates@);
        }
        self.samples = samples;
        self.next_attempt = next;
        self.confirmed = confirmed;
        self.candidates = new_candidates;
    }
}

} // verus!
