use ages::arith::Real;
use ages::cosmology::{form_distance, push_for_civ_collapsed, push_for_relation_confirmed, Cosmology};
use ages::culture_hooks::{
    allow_observation, allow_observation_suppression, focus_weight_for, suppress_confidence_for,
};
use ages::forms::Form;

fn neutral() -> Cosmology {
    Cosmology::neutral()
}

#[test]
fn neutral_cosmology_has_zero_dogmatism() {
    assert_eq!(neutral().dogmatism(), Real::zero());
}

#[test]
fn fully_aligned_cosmology_has_dogmatism_one() {
    let c = Cosmology {
        empirical: Real::one(),
        communitarian: Real::one(),
        reformist: Real::one(),
        mystical: Real::one(),
        hierarchical: Real::one(),
    };
    let dog = c.dogmatism();
    assert!(dog > Real::from_ratio(99, 100));
    assert!(dog <= Real::one());
}

#[test]
fn push_clamps_to_unit_range() {
    let mut c = neutral();
    let big = Cosmology { empirical: Real::from_int(2), ..neutral() };
    c.push(&big, Real::from_int(10));
    assert_eq!(c.empirical, Real::one());
}

#[test]
fn push_negative_clamps_to_minus_one() {
    let mut c = neutral();
    let neg = Cosmology { mystical: Real::from_int(2).neg(), ..neutral() };
    c.push(&neg, Real::from_int(10));
    assert_eq!(c.mystical, Real::one().neg());
}

#[test]
fn relation_confirmed_push_increments_empirical() {
    let mut c = neutral();
    c.push(&push_for_relation_confirmed(), Real::one());
    assert!(c.empirical > Real::zero());
    assert!(c.mystical < Real::zero());
}

#[test]
fn collapse_push_drives_toward_mysticism() {
    let mut c = neutral();
    c.push(&push_for_civ_collapsed(), Real::one());
    assert!(c.mystical > Real::zero());
    assert!(c.hierarchical > Real::zero());
    assert!(c.reformist < Real::zero());
}

#[test]
fn neutral_form_distance_zero_for_linear() {
    assert_eq!(form_distance(Form::Linear, &neutral()), Real::zero());
}

#[test]
fn mystical_civ_finds_periodic_sine_close() {
    let mystical = Cosmology { mystical: Real::from_ratio(8, 10), ..neutral() };
    let neutral_dist = form_distance(Form::PeriodicSine, &neutral());
    let mystical_dist = form_distance(Form::PeriodicSine, &mystical);
    assert!(mystical_dist < neutral_dist);
}

#[test]
fn empirical_civ_finds_threshold_step_close() {
    let empirical = Cosmology { empirical: Real::from_ratio(8, 10), ..neutral() };
    let neutral_dist = form_distance(Form::ThresholdStep, &neutral());
    let empirical_dist = form_distance(Form::ThresholdStep, &empirical);
    assert!(empirical_dist < neutral_dist);
}

#[test]
fn allow_observation_pass_through_in_m4_min() {
    for tid in 1..=5 {
        for cell in 0..16 {
            assert_eq!(allow_observation_suppression(tid, cell, Real::one()), Real::zero());
            assert!(allow_observation(tid, cell));
        }
    }
}

#[test]
fn focus_weight_neutral_returns_one() {
    let f = focus_weight_for(0, &neutral());
    assert_eq!(f, Real::one());
}

#[test]
fn focus_weight_empirical_civ_amplifies() {
    let cos = Cosmology { empirical: Real::from_ratio(8, 10), ..neutral() };
    let f = focus_weight_for(0, &cos);
    assert!(f > Real::one());
}

#[test]
fn suppress_confidence_neutral_passes_through() {
    let m = suppress_confidence_for(Form::Linear, &neutral());
    assert_eq!(m, Real::one());
}

#[test]
fn suppress_confidence_mystical_civ_suppresses_threshold_step() {
    let mystical = Cosmology { mystical: Real::from_ratio(9, 10), ..neutral() };
    let pass = suppress_confidence_for(Form::PeriodicSine, &mystical);
    let suppressed = suppress_confidence_for(Form::ThresholdStep, &mystical);
    assert!(suppressed < pass);
    assert!(suppressed >= Real::zero());
}

#[test]
fn dogmatism_of_a_single_full_axis() {
    let c = Cosmology { empirical: Real::one(), ..neutral() };
    let d = c.dogmatism();
    assert!(d > Real::from_ratio(44, 100) && d < Real::from_ratio(45, 100));
    assert_eq!(c.distance_to(&c), Real::zero());
    assert_eq!(c.distance_to(&neutral()), Real::one());
}
