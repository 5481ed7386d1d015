use std::collections::{BTreeMap, BTreeSet, VecDeque};

use ages::arith::Real;
use ages::demographics::streak_ticks_for_metabolism;
use ages::discovery::channels::{measurement_relation_id, relation_id_for, Channel, MeasurementChannel, PhysicsView};
use ages::discovery::events::HypothesisEvent;
use ages::discovery::hypothesizer::{is_trivial_measurement, Firing, Hypothesizer, RelationFits};
use ages::discovery::types::{ConfirmedRelation, FitResult, MeasurementCandidate, ResidualBasis, Sample};
use ages::forms::Form;

fn baseline_templates() -> Vec<u32> {
    vec![1, 2, 3, 4, 5]
}

fn zero_evaluator(_form: Form, _params: &Vec<Real>, _x: Real) -> Real {
    Real::zero()
}

fn flat_state(n: usize) -> PhysicsView {
    let zeros = vec![Real::zero(); n];
    PhysicsView {
        temperature: zeros.clone(),
        water_depth: zeros.clone(),
        charge: zeros.clone(),
        elevation: zeros.clone(),
        fuel: zeros.clone(),
        oxidiser: zeros.clone(),
        vapour: zeros.clone(),
        ice: zeros.clone(),
        fossil: zeros.clone(),
        magnetic_magnitude: zeros,
        neighbours: vec![vec![]; n],
    }
}

fn relation(relation_id: u32, form: Form, residual_pct: i64, confidence_pct: i64) -> ConfirmedRelation {
    ConfirmedRelation {
        relation_id,
        template_id: 1,
        channel: Channel::Temperature,
        form,
        params: vec![],
        residual: Real::percent(residual_pct),
        confidence: Real::percent(confidence_pct),
        n_samples: 32,
        confirmed_at_tick: 0,
        low_confidence_streak: 0,
        cooldown_until: 0,
        refinement: None,
        initial_residual: Real::percent(residual_pct),
        falsification_streak: 0,
        inherited_from_tick: None,
        inherited_from_civ_id: None,
    }
}

#[test]
fn falsification_trigger_default_30_civ_aware_uses_metabolism_scaled() {
    let h = Hypothesizer::new(Real::one(), &baseline_templates());
    assert_eq!(h.falsification_trigger_ticks, 30);
    let mut h2 = Hypothesizer::new(Real::one(), &baseline_templates());
    let ticks = streak_ticks_for_metabolism(120, Real::from_ratio(2, 10));
    h2.set_falsification_trigger_ticks(ticks);
    assert_eq!(h2.falsification_trigger_ticks, 600);
    let mut h3 = Hypothesizer::new(Real::one(), &baseline_templates());
    h3.set_falsification_trigger_ticks(0);
    assert_eq!(h3.falsification_trigger_ticks, 30);
}

#[test]
fn cross_product_candidates_have_unique_stable_ids() {
    let cs = Hypothesizer::candidates_for(&baseline_templates());
    let ids: BTreeSet<u32> = cs.iter().map(|c| c.relation_id).collect();
    assert_eq!(ids.len(), cs.len(), "relation_ids must be unique");
    assert_eq!(cs.len(), 5 * Channel::all().len());
    for c in &cs {
        assert_eq!(c.relation_id, relation_id_for(c.template_id, c.channel));
    }
}

#[test]
fn refresh_perceivable_preserves_existing_state() {
    let mut h = Hypothesizer::new(Real::one(), &vec![1, 2]);
    let rid = relation_id_for(1, Channel::Temperature);
    h.samples.get_mut(&rid).unwrap().push_back(Sample { x: Real::zero(), y: Real::zero() });
    h.refresh_perceivable(&vec![1, 2, 3]);
    assert!(!h.samples.get(&rid).unwrap().is_empty());
    let new_rid = relation_id_for(3, Channel::Temperature);
    assert!(h.samples.contains_key(&new_rid));
    assert!(h.samples.get(&new_rid).unwrap().is_empty());
}

#[test]
fn observe_collects_one_sample_per_cell_per_relation() {
    let mut h = Hypothesizer::new(Real::one(), &baseline_templates());
    let state = flat_state(9);
    h.observe(&state, &vec![], &zero_evaluator);
    for c in &h.candidates {
        let buf = h.samples.get(&c.relation_id).unwrap();
        assert_eq!(buf.len(), 9);
        for s in buf {
            assert_eq!(s.y, Real::zero());
        }
    }
}

#[test]
fn observe_marks_fired_cells_as_y_one() {
    let mut h = Hypothesizer::new(Real::one(), &baseline_templates());
    let state = flat_state(4);
    let firings = vec![Firing { template_id: 1, cell: 0 }];
    h.observe(&state, &firings, &zero_evaluator);
    for c in &h.candidates {
        if c.template_id != 1 {
            continue;
        }
        let buf = h.samples.get(&c.relation_id).unwrap();
        assert_eq!(buf[0].y, Real::one());
        for s in buf.iter().skip(1) {
            assert_eq!(s.y, Real::zero());
        }
    }
}

#[test]
fn step_throttles_attempts_per_relation() {
    let mut h = Hypothesizer::new(Real::one(), &baseline_templates());
    let rid = h.candidates[0].relation_id;
    for _ in 0..50 {
        h.samples.get_mut(&rid).unwrap().push_back(Sample { x: Real::zero(), y: Real::zero() });
    }
    h.step(0, &BTreeMap::new());
    let after = h.next_attempt.get(&rid).copied().unwrap();
    assert_eq!(after, h.attempt_period);
}

#[test]
fn step_confirms_a_supplied_constant_fit() {
    let mut h = Hypothesizer::new(Real::one(), &baseline_templates());
    let rid = h.candidates[0].relation_id;
    let mut fits: Vec<Option<FitResult>> = vec![None; 12];
    fits[0] = Some(FitResult {
        form: Form::Constant,
        params: vec![Real::zero()],
        residual: Real::zero(),
        confidence: Real::one(),
        n_samples: 50,
    });
    let mut inputs = BTreeMap::new();
    inputs.insert(rid, RelationFits { fits, active_residual: Real::zero(), active_tolerance: Real::one() });
    let events = h.step(0, &inputs);
    assert!(events.iter().any(|e| matches!(e, HypothesisEvent::Confirmed(_))));
    let r = h.confirmed.get(&rid).expect("must be confirmed");
    assert_eq!(r.form, Form::Constant);
    assert!(r.confidence > Real::zero());
}

#[test]
fn trivial_measurement_rejects_uniform_field() {
    let samples: Vec<Sample> = (0..32).map(|_| Sample { x: Real::from_int(5), y: Real::from_int(5) }).collect();
    assert!(is_trivial_measurement(&samples));
}

#[test]
fn trivial_measurement_rejects_identity_uniform() {
    let v = Real::from_ratio(7, 10);
    let samples: Vec<Sample> = (0..32).map(|_| Sample { x: v, y: v }).collect();
    assert!(is_trivial_measurement(&samples));
}

#[test]
fn trivial_measurement_accepts_real_gradient() {
    let samples: Vec<Sample> = (0..32)
        .map(|i| {
            let x = Real::from_int(i);
            Sample { x, y: x }
        })
        .collect();
    assert!(!is_trivial_measurement(&samples));
}

#[test]
fn add_rival_rejects_same_form_as_primary() {
    let mut h = Hypothesizer::new(Real::one(), &vec![1]);
    let primary = relation(100, Form::Linear, 1, 80);
    h.confirmed.insert(100, primary.clone());
    assert!(!h.add_rival_hypothesis(100, primary.clone()));
    let mut alt = primary.clone();
    alt.form = Form::ThresholdStep;
    alt.confidence = Real::percent(70);
    assert!(h.add_rival_hypothesis(100, alt));
    assert_eq!(h.rivals.get(&100).map(Vec::len), Some(1));
}

#[test]
fn displace_swaps_when_rival_confidence_higher() {
    let mut h = Hypothesizer::new(Real::one(), &vec![1]);
    let primary = relation(200, Form::Linear, 2, 60);
    h.confirmed.insert(200, primary.clone());
    let mut high_conf_rival = primary.clone();
    high_conf_rival.form = Form::ThresholdStep;
    high_conf_rival.confidence = Real::percent(90);
    assert!(h.add_rival_hypothesis(200, high_conf_rival));
    let swap = h.displace_primary_with_best_rival(200);
    assert!(swap.is_some());
    let (old, new) = swap.unwrap();
    assert_eq!(old, Form::Linear);
    assert_eq!(new, Form::ThresholdStep);
    assert!(h.rivals.get(&200).is_some_and(|r| !r.is_empty()));
    assert!(h.displace_primary_with_best_rival(200).is_none());
}

#[test]
fn record_experimental_pushes_each_sample_twice() {
    let mut h = Hypothesizer::new(Real::one(), &vec![]);
    let y = MeasurementChannel::Direct(Channel::Temperature);
    let x = MeasurementChannel::Direct(Channel::Temperature);
    let rid = measurement_relation_id(y, x);
    h.record_experimental_measurement(y, x, Real::from_int(3), Real::from_int(2));
    assert_eq!(h.measurement_samples.get(&rid).map(|b| b.len()), Some(2));
    assert_eq!(h.experimental_count_by_relation.get(&rid).copied(), Some(2));
}

#[test]
fn apparatus_relation_pair_added_to_measurements() {
    let mut h = Hypothesizer::new(Real::one(), &vec![]);
    let y = MeasurementChannel::Direct(Channel::Fuel);
    let x = MeasurementChannel::Direct(Channel::Fuel);
    let before = h.measurements.len();
    h.record_experimental_measurement(y, x, Real::one(), Real::one());
    assert_eq!(h.measurements.len(), before + 1);
}

/// Predicts three plus the basis's own `x` reading.
fn shifted_evaluator(_form: Form, _params: &Vec<Real>, x: Real) -> Real {
    Real::from_int(3).add(x)
}

#[test]
fn residual_measurement_records_reading_less_prediction() {
    let mut h = Hypothesizer::new(Real::one(), &baseline_templates());
    let rid = 2_000_001;
    h.measurements.push(MeasurementCandidate {
        relation_id: rid,
        y_channel: MeasurementChannel::Direct(Channel::Temperature),
        x_channel: MeasurementChannel::Direct(Channel::Elevation),
        residual_basis: Some(ResidualBasis {
            source_relation_id: 1_000_000,
            source_form: Form::Linear,
            source_params: vec![Real::zero(), Real::one()],
            source_x_channel: MeasurementChannel::Direct(Channel::WaterDepth),
        }),
        residual_depth: 1,
    });
    h.measurement_samples.insert(rid, VecDeque::new());
    h.measurement_next_attempt.insert(rid, 0);
    let mut state = flat_state(4);
    state.temperature = vec![Real::from_int(10), Real::from_int(20), Real::from_int(30), Real::from_int(40)];
    state.water_depth = vec![Real::from_int(100), Real::from_int(200), Real::from_int(300), Real::from_int(400)];
    state.elevation = vec![Real::from_int(7), Real::from_int(7), Real::from_int(7), Real::from_int(7)];
    let accept = vec![true, false, true, true];
    h.observe_cells(&state, None, &vec![], &accept, &shifted_evaluator);
    let buf: Vec<_> = h.measurement_samples.get(&rid).unwrap().iter().map(|s| s.y).collect();
    let y_axis = MeasurementChannel::Direct(Channel::Temperature);
    let basis_axis = MeasurementChannel::Direct(Channel::WaterDepth);
    // Each sample is the reading less the basis prediction at the
    // basis's own `x` (water depth), not at the measurement's `x`.
    let expected: Vec<Real> = [0usize, 2, 3]
        .iter()
        .map(|&c| {
            let bx = basis_axis.read(&state, None, c).unwrap();
            y_axis.read(&state, None, c).unwrap().sub(Real::from_int(3).add(bx))
        })
        .collect();
    assert_eq!(buf, expected);
    assert_ne!(expected[0], expected[1]);
}

#[test]
fn delta_measurements_skip_without_previous_state() {
    let mut h = Hypothesizer::new(Real::one(), &baseline_templates());
    let m = MeasurementCandidate::new(
        MeasurementChannel::TemporalDelta(Channel::Temperature),
        MeasurementChannel::Direct(Channel::Elevation),
    );
    let rid = m.relation_id;
    if !h.measurement_samples.contains_key(&rid) {
        h.measurements.push(m);
        h.measurement_samples.insert(rid, VecDeque::new());
        h.measurement_next_attempt.insert(rid, 0);
    }
    let state = flat_state(4);
    let before = h.measurement_samples.get(&rid).unwrap().len();
    h.observe_cells(&state, None, &vec![], &vec![true; 4], &zero_evaluator);
    assert_eq!(h.measurement_samples.get(&rid).unwrap().len(), before);
    h.observe_cells(&state, Some(&state), &vec![], &vec![true; 4], &zero_evaluator);
    assert_eq!(h.measurement_samples.get(&rid).unwrap().len(), before + 4);
}

/// What fitting makes of a window: one outcome per form (none where the
/// form does not fit).
fn fit_table(entries: &[(Form, Vec<Real>, Real, Real, usize)]) -> Vec<Option<FitResult>> {
    let order = [
        Form::Constant,
        Form::Linear,
        Form::ThresholdStep,
        Form::Polynomial2,
        Form::Polynomial3,
        Form::PeriodicSine,
        Form::ExpDecay,
        Form::ExpGrowth,
        Form::Logistic,
        Form::PowerLaw,
        Form::Logarithmic,
        Form::InverseSquare,
    ];
    let mut fits: Vec<Option<FitResult>> = vec![None; 12];
    for (form, params, residual, confidence, n) in entries {
        let k = order.iter().position(|f| f == form).unwrap();
        fits[k] = Some(FitResult {
            form: *form,
            params: params.clone(),
            residual: *residual,
            confidence: *confidence,
            n_samples: *n,
        });
    }
    fits
}

fn count_confirmed_events(events: &[HypothesisEvent]) -> usize {
    events.iter().filter(|e| matches!(e, HypothesisEvent::Confirmed(_))).count()
}

#[test]
fn step_confirms_constant_for_all_zero_relation() {
    let mut h = Hypothesizer::new(Real::one(), &baseline_templates());
    let rid = h.candidates[0].relation_id;
    let buf = h.samples.get_mut(&rid).unwrap();
    for i in 0..50 {
        buf.push_back(Sample { x: Real::from_int(i), y: Real::zero() });
    }
    // Fitting an all-zero window: the constant 0 fits exactly.
    let fits = fit_table(&[(Form::Constant, vec![Real::zero()], Real::zero(), Real::one(), 50)]);
    let mut inputs = BTreeMap::new();
    inputs.insert(rid, RelationFits { fits, active_residual: Real::zero(), active_tolerance: Real::one() });
    let events = h.step(0, &inputs);
    assert!(count_confirmed_events(&events) >= 1, "expected the all-zero relation to confirm");
    let r = h.confirmed.get(&rid).expect("must be confirmed");
    assert_eq!(r.form, Form::Constant);
    assert!(r.confidence > Real::zero());
}

#[test]
fn step_confirms_threshold_for_step_signal() {
    let mut h = Hypothesizer::new(Real::one(), &baseline_templates());
    let rid = h.candidates[0].relation_id;
    let buf = h.samples.get_mut(&rid).unwrap();
    for i in 0..10 {
        buf.push_back(Sample { x: Real::from_int(i), y: if i < 5 { Real::zero() } else { Real::one() } });
    }
    // A clean step: the constant misses by half, the threshold step fits.
    let fits = fit_table(&[
        (Form::Constant, vec![Real::from_ratio(1, 2)], Real::from_ratio(1, 2), Real::from_ratio(1, 10), 10),
        (Form::ThresholdStep, vec![Real::from_int(5), Real::zero(), Real::one()], Real::zero(), Real::one(), 10),
    ]);
    let mut inputs = BTreeMap::new();
    inputs.insert(rid, RelationFits { fits, active_residual: Real::zero(), active_tolerance: Real::one() });
    let events = h.step(0, &inputs);
    assert!(count_confirmed_events(&events) >= 1, "expected step signal to confirm");
    let r = h.confirmed.get(&rid).expect("must be confirmed");
    assert!(matches!(r.form, Form::ThresholdStep | Form::Linear | Form::Constant));
}

#[test]
fn measurement_confirms_temperature_smoothing_law() {
    let mut h = Hypothesizer::new(Real::one(), &baseline_templates());
    let rid = measurement_relation_id(
        MeasurementChannel::Direct(Channel::Temperature),
        MeasurementChannel::NeighbourMean(Channel::Temperature),
    );
    let buf = h.measurement_samples.get_mut(&rid).unwrap();
    for i in 0..50 {
        let v = Real::from_int(i).div(Real::from_int(100));
        buf.push_back(Sample { x: v, y: v });
    }
    // y = x exactly: the line through the origin with slope one fits.
    let fits = fit_table(&[
        (Form::Constant, vec![Real::from_ratio(1, 4)], Real::from_ratio(14, 100), Real::from_ratio(1, 10), 50),
        (Form::Linear, vec![Real::zero(), Real::one()], Real::zero(), Real::one(), 50),
    ]);
    let mut inputs = BTreeMap::new();
    inputs.insert(rid, RelationFits { fits, active_residual: Real::zero(), active_tolerance: Real::one() });
    let events = h.step(0, &inputs);
    assert!(
        events.iter().any(|e| matches!(e, HypothesisEvent::MeasurementConfirmed(m) if m.relation_id == rid)),
        "expected the temperature-smoothing measurement to confirm",
    );
    let m = h.confirmed_measurements.get(&rid).expect("confirmed");
    assert!(matches!(m.form, Form::Linear | Form::Constant));
}

#[test]
fn confirmed_measurement_flags_experimental_when_apparatus_contributed() {
    let mut h = Hypothesizer::new(Real::one(), &vec![]);
    let y = MeasurementChannel::Direct(Channel::Temperature);
    let x = MeasurementChannel::Direct(Channel::Temperature);
    let rid = measurement_relation_id(y, x);
    for tick_step in 0..40_i64 {
        let xv = Real::from_int(tick_step % 4);
        let yv = xv.mul(Real::from_int(2));
        h.record_experimental_measurement(y, x, xv, yv);
    }
    // The clean y = 2x ladder: the line fits.
    let fits = fit_table(&[(Form::Linear, vec![Real::zero(), Real::from_int(2)], Real::zero(), Real::one(), 80)]);
    let mut inputs = BTreeMap::new();
    inputs.insert(rid, RelationFits { fits, active_residual: Real::zero(), active_tolerance: Real::one() });
    let neutral = ages::cosmology::Cosmology::neutral();
    for tick in 0..200 {
        let _ = h.step_with_cosmology(tick, &inputs, &neutral);
        if h.confirmed_measurements.contains_key(&rid) {
            break;
        }
    }
    let conf = h.confirmed_measurements.get(&rid).expect("apparatus-only fit should confirm");
    assert!(conf.is_experimental, "apparatus contribution must flip flag");
}

#[test]
fn refinement_triggers_when_active_form_drifts() {
    let mut h = Hypothesizer::new(Real::one(), &baseline_templates());
    h.attempt_period = 1;
    let rid = h.candidates[0].relation_id;
    for i in 0..50 {
        h.samples.get_mut(&rid).unwrap().push_back(Sample { x: Real::from_int(i), y: Real::zero() });
    }
    let zero_fit = fit_table(&[(Form::Constant, vec![Real::zero()], Real::zero(), Real::one(), 50)]);
    let mut inputs = BTreeMap::new();
    inputs.insert(rid, RelationFits { fits: zero_fit, active_residual: Real::zero(), active_tolerance: Real::one() });
    let _ = h.step(0, &inputs);
    assert!(h.confirmed.contains_key(&rid));
    assert_eq!(h.confirmed.get(&rid).unwrap().form, Form::Constant);

    h.samples.get_mut(&rid).unwrap().clear();
    for i in 0..20 {
        h.samples
            .get_mut(&rid)
            .unwrap()
            .push_back(Sample { x: Real::from_int(i), y: if i < 10 { Real::zero() } else { Real::one() } });
    }
    // The poisoned window: the active constant misses by half and has
    // near-zero confidence; the threshold step fits it exactly.
    let drift_fit = fit_table(&[
        (Form::Constant, vec![Real::from_ratio(1, 2)], Real::from_ratio(1, 2), Real::from_ratio(1, 100), 20),
        (Form::ThresholdStep, vec![Real::from_int(10), Real::zero(), Real::one()], Real::zero(), Real::one(), 20),
    ]);
    let mut inputs = BTreeMap::new();
    inputs.insert(rid, RelationFits { fits: drift_fit, active_residual: Real::from_ratio(1, 2), active_tolerance: Real::from_ratio(1, 10) });
    let mut saw_proposed = false;
    let mut saw_resolution = false;
    for tick in 1..=400 {
        let events = h.step(tick, &inputs);
        for e in &events {
            match e {
                HypothesisEvent::RefinementProposed { .. } => saw_proposed = true,
                HypothesisEvent::RefinementConfirmed { .. } | HypothesisEvent::RefinementRejected { .. } => {
                    saw_resolution = true
                }
                _ => {}
            }
        }
        if saw_proposed && saw_resolution {
            break;
        }
    }
    assert!(saw_proposed, "expected RefinementProposed under drift");
    assert!(saw_resolution, "expected RefinementConfirmed or Rejected within 400 ticks");
}
