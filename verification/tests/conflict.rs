use std::collections::{BTreeMap, BTreeSet};

use ages::arith::Real;
use ages::cohort::Cohort;
use ages::conflict::alliance::{
    alliance_drifted_apart, cosmology_distance, propose_alliance, religion_distance, step_alliance_trust,
    AllianceParty,
};
use ages::conflict::assessment::{assess_pair, decide_war, kinship_pair, WarDecision};
use ages::conflict::grudge::{bump_grudge, decayed_grudge};
use ages::conflict::war::{hierarchical_strength, hierarchy_size_factor, is_peaceful_pair, overlap, resolve, WarParty};
use ages::cosmology::Cosmology;
use ages::religion::Religion;

fn party(id: u32, pop: i64) -> WarParty {
    WarParty {
        id,
        population: Real::from_int(pop),
        literacy: Real::zero(),
        cosmology: Cosmology::neutral(),
        religion: Religion::neutral(),
        cohesion: Real::one(),
        surplus: Real::zero(),
        tool_war_multiplier: Real::one(),
        claimed_cells: vec![],
        region_cohorts: BTreeMap::new(),
        grudges: BTreeMap::new(),
        allied_with: BTreeSet::new(),
        lineage_depth: 0,
        carrying_capacity: Real::from_int(10_000),
    }
}

/// Claim `cells` (ascending) and spread the population evenly over them.
fn claim(p: &mut WarParty, cells: &[u32]) {
    p.claimed_cells = cells.to_vec();
    p.region_cohorts.clear();
    let share = p.population.div(Real::from_int(cells.len() as i64));
    for &c in cells {
        let mut cohort = Cohort::zero();
        cohort.add_fertile(share);
        p.region_cohorts.insert(c, cohort);
    }
}

fn absdiff(a: Real, b: Real) -> Real {
    if a > b { a.sub(b) } else { b.sub(a) }
}

fn alliance_party(id: u32) -> AllianceParty {
    AllianceParty {
        id,
        cosmology: Cosmology::neutral(),
        religion: Religion::neutral(),
        allied_with: BTreeSet::new(),
        contact_history: BTreeSet::new(),
        alliance_cooldown: BTreeMap::new(),
    }
}

#[test]
fn no_outcome_when_no_overlap() {
    let mut a = party(1, 100);
    let mut b = party(2, 100);
    claim(&mut a, &[0]);
    claim(&mut b, &[1]);
    assert!(resolve(&mut a, &mut b, 100).is_none());
}

#[test]
fn larger_civ_wins_when_overlap_exists() {
    let mut a = party(1, 1000);
    let mut b = party(2, 100);
    claim(&mut a, &[0]);
    claim(&mut b, &[0]);
    let r = resolve(&mut a, &mut b, 100).unwrap();
    assert_eq!(r.winner_id, 1);
    assert_eq!(r.loser_id, 2);
}

#[test]
fn hierarchical_strength_composes_four_channels() {
    let mut civ = party(1, 100);
    civ.cosmology.hierarchical = Real::one();
    let h_pure = hierarchical_strength(&civ);
    let expected = Real::from_ratio(65, 100);
    assert!(absdiff(h_pure, expected) < Real::from_ratio(1, 100), "pure-cosmology civ should land at ~0.65; got {h_pure:?}");
    civ.religion.theology = Real::one();
    civ.religion.ritual = Real::one().neg();
    let h_religion = hierarchical_strength(&civ);
    assert!(h_religion > h_pure);
    civ.cohesion = Real::zero();
    let h_fragmented = hierarchical_strength(&civ);
    assert!(h_fragmented < h_religion);
    civ.surplus = Real::from_int(10_000);
    let h_full = hierarchical_strength(&civ);
    assert!(h_full > h_fragmented);
    assert!(h_full <= Real::one());
}

#[test]
fn hierarchical_strength_clamps_negative_cosmology() {
    let mut civ = party(1, 100);
    civ.cosmology.hierarchical = Real::one().neg();
    civ.cohesion = Real::zero();
    assert_eq!(hierarchical_strength(&civ), Real::zero());
}

#[test]
fn defeated_loser_surrenders_cells() {
    let mut a = party(1, 1_000_000);
    let mut b = party(2, 30);
    let a_cells: Vec<u32> = (0..100u32).collect();
    claim(&mut a, &a_cells);
    claim(&mut b, &[0]);
    a.cosmology.hierarchical = Real::one();
    let r = resolve(&mut a, &mut b, 100).unwrap();
    assert!(r.loser_defeated);
    assert!(!b.claimed_cells.contains(&0));
    assert!(a.claimed_cells.contains(&0));
}

#[test]
fn hierarchy_size_factor_scales_with_civ_size() {
    let f1 = hierarchy_size_factor(1);
    assert!(f1 < Real::from_ratio(1, 1000));
    let f100 = hierarchy_size_factor(100);
    assert!(Real::one().sub(f100) < Real::from_ratio(1, 100));
    let f14 = hierarchy_size_factor(14);
    assert!(absdiff(f14, Real::from_ratio(57, 100)) < Real::from_ratio(5, 100), "14-cell factor should be ~0.57; got {f14:?}");
    let f1000 = hierarchy_size_factor(1000);
    assert!(Real::one().sub(f1000) < Real::from_ratio(1, 1000));
}

#[test]
fn small_band_does_not_get_hierarchy_casualty_edge() {
    let mut a = party(1, 10_000_000);
    let mut b = party(2, 200);
    claim(&mut a, &[0]);
    claim(&mut b, &[0]);
    a.cosmology.hierarchical = Real::one();
    let r = resolve(&mut a, &mut b, 100).unwrap();
    assert!(!r.loser_defeated, "1-cell winner shouldn't one-shot");
    assert!(b.claimed_cells.contains(&0));
}

#[test]
fn peaceful_pair_requires_both_low_hierarchy() {
    let mut a = Cosmology::neutral();
    let b = Cosmology::neutral();
    assert!(is_peaceful_pair(&a, &b));
    a.hierarchical = Real::from_ratio(7, 10);
    assert!(!is_peaceful_pair(&a, &b));
}

fn check_declare_threshold() {
    assert_eq!(decide_war(false, Real::percent(24)), WarDecision::StayPeaceful);
    assert_eq!(decide_war(false, Real::percent(25)), WarDecision::DeclareWar);
    assert_eq!(decide_war(false, Real::percent(70)), WarDecision::DeclareWar);
}

fn check_end_threshold() {
    assert_eq!(decide_war(true, Real::percent(20)), WarDecision::ContinueWar);
    assert_eq!(decide_war(true, Real::percent(14)), WarDecision::ConcludePeace);
    assert_eq!(decide_war(true, Real::percent(15)), WarDecision::ContinueWar);
}

#[test]
fn conflict_decide_war_respects_declare_threshold_when_at_peace() {
    check_declare_threshold();
}

#[test]
fn assessment_decide_war_respects_declare_threshold_when_at_peace() {
    check_declare_threshold();
}

#[test]
fn conflict_decide_war_respects_end_threshold_when_at_war() {
    check_end_threshold();
}

#[test]
fn assessment_decide_war_respects_end_threshold_when_at_war() {
    check_end_threshold();
}

fn check_kinship_identical() {
    let a = party(1, 100);
    let b = party(2, 100);
    let kin = kinship_pair(&a, &b, 100);
    assert!(kin > Real::from_ratio(999, 1000), "identical civs should have near-1 kinship; got {kin:?}");
}

#[test]
fn conflict_kinship_is_one_for_identical_civs() {
    check_kinship_identical();
}

#[test]
fn assessment_kinship_is_one_for_identical_civs() {
    check_kinship_identical();
}

fn check_kinship_cosmology_distance() {
    let mut a = party(1, 100);
    let mut b = party(2, 100);
    a.cosmology.empirical = Real::one();
    b.cosmology.empirical = Real::one().neg();
    let kin = kinship_pair(&a, &b, 100);
    assert!(kin < Real::percent(95));
    assert!(kin > Real::percent(90));
}

#[test]
fn conflict_kinship_drops_with_cosmology_distance() {
    check_kinship_cosmology_distance();
}

#[test]
fn assessment_kinship_drops_with_cosmology_distance() {
    check_kinship_cosmology_distance();
}

fn check_kinship_all_axes() {
    let mut a = party(1, 100);
    let mut b = party(2, 100);
    a.cosmology.hierarchical = Real::one();
    b.cosmology.hierarchical = Real::zero();
    a.cosmology.empirical = Real::one();
    b.cosmology.empirical = Real::one().neg();
    a.cosmology.communitarian = Real::one();
    b.cosmology.communitarian = Real::one().neg();
    a.cosmology.reformist = Real::one();
    b.cosmology.reformist = Real::one().neg();
    a.cosmology.mystical = Real::one();
    b.cosmology.mystical = Real::one().neg();
    a.religion.theology = Real::one();
    b.religion.theology = Real::one().neg();
    a.religion.ritual = Real::one();
    b.religion.ritual = Real::one().neg();
    a.religion.sacred_time = Real::one();
    b.religion.sacred_time = Real::one().neg();
    let kin = kinship_pair(&a, &b, 100);
    assert!(kin < Real::percent(20));
}

#[test]
fn conflict_kinship_low_when_all_axes_diverge() {
    check_kinship_all_axes();
}

#[test]
fn assessment_kinship_low_when_all_axes_diverge() {
    check_kinship_all_axes();
}

fn check_kinship_generations() {
    let a = party(1, 100);
    let mut b = party(2, 100);
    let kin_same_gen = kinship_pair(&a, &b, 100);
    b.lineage_depth = 8;
    let kin_8_gen = kinship_pair(&a, &b, 100);
    let ratio = kin_8_gen.div(kin_same_gen);
    assert!(absdiff(ratio, Real::from_ratio(368, 1000)) < Real::percent(5), "8-gen kinship should be ~0.37× same-gen; got ratio {ratio:?}");
}

#[test]
fn conflict_kinship_decays_with_generation_distance() {
    check_kinship_generations();
}

#[test]
fn assessment_kinship_decays_with_generation_distance() {
    check_kinship_generations();
}

fn check_kinship_grudge() {
    let mut a = party(1, 100);
    let mut b = party(2, 100);
    let kin_no_grudge = kinship_pair(&a, &b, 100);
    bump_grudge(&mut a.grudges, 2, Real::percent(30), 100);
    bump_grudge(&mut b.grudges, 1, Real::percent(30), 100);
    let kin_with_grudge = kinship_pair(&a, &b, 100);
    let delta = kin_no_grudge.sub(kin_with_grudge);
    assert!(absdiff(delta, Real::percent(30)) < Real::percent(2), "grudge should subtract ~0.30 from kinship; got delta {delta:?}");
}

#[test]
fn conflict_kinship_subtracts_grudge_score() {
    check_kinship_grudge();
}

#[test]
fn assessment_kinship_subtracts_grudge_score() {
    check_kinship_grudge();
}

fn check_grudge_decay() {
    let mut g: BTreeMap<u32, (Real, u64)> = BTreeMap::new();
    g.insert(2u32, (Real::percent(20), 100));
    let decay = Real::from_ratio(5, 10_000);
    let d = decayed_grudge(&g, 2, 300, decay);
    assert!(absdiff(d, Real::percent(10)) < Real::percent(1), "grudge should decay to ~0.10; got {d:?}");
    let d2 = decayed_grudge(&g, 2, 1100, decay);
    assert_eq!(d2, Real::zero());
}

#[test]
fn conflict_grudge_decays_over_time() {
    check_grudge_decay();
}

#[test]
fn grudge_grudge_decays_over_time() {
    check_grudge_decay();
}

fn check_kin_dampener() {
    let mut kin_a = party(1, 500);
    let mut kin_b = party(2, 500);
    claim(&mut kin_a, &[0, 1]);
    claim(&mut kin_b, &[0, 1]);
    let mut alien_a = party(1, 500);
    let mut alien_b = party(2, 500);
    alien_a.cosmology = Cosmology {
        empirical: Real::one(),
        communitarian: Real::one(),
        reformist: Real::one(),
        mystical: Real::one(),
        hierarchical: Real::one(),
    };
    alien_b.cosmology = Cosmology {
        empirical: Real::one().neg(),
        communitarian: Real::one().neg(),
        reformist: Real::one().neg(),
        mystical: Real::one().neg(),
        hierarchical: Real::zero(),
    };
    alien_a.religion.theology = Real::one();
    alien_a.religion.ritual = Real::one();
    alien_a.religion.sacred_time = Real::one();
    alien_b.religion.theology = Real::one().neg();
    alien_b.religion.ritual = Real::one().neg();
    alien_b.religion.sacred_time = Real::one().neg();
    claim(&mut alien_a, &[0, 1]);
    claim(&mut alien_b, &[0, 1]);
    let kin_score = assess_pair(&kin_a, &kin_b, 100).expect("non-zero pop pair");
    let alien_score = assess_pair(&alien_a, &alien_b, 100).expect("non-zero pop pair");
    assert!(kin_score.kinship > Real::from_ratio(999, 1000));
    assert!(alien_score.kinship < kin_score.kinship);
    assert!(kin_score.belligerence < alien_score.belligerence, "kin={:?}, alien={:?}", kin_score.belligerence, alien_score.belligerence);
}

#[test]
fn conflict_assess_pair_kin_dampener_lowers_belligerence_vs_alien() {
    check_kin_dampener();
}

#[test]
fn assessment_assess_pair_kin_dampener_lowers_belligerence_vs_alien() {
    check_kin_dampener();
}

fn check_tie_break() {
    let mut a = party(1, 500);
    let mut b = party(2, 500);
    claim(&mut a, &[0]);
    claim(&mut b, &[0]);
    let assessment = assess_pair(&a, &b, 100).expect("non-zero pop pair");
    assert_eq!(assessment.aggressor_id, 1);
    assert_eq!(assessment.defender_id, 2);
}

#[test]
fn conflict_assess_pair_picks_lower_id_aggressor_on_ties() {
    check_tie_break();
}

#[test]
fn assessment_assess_pair_picks_lower_id_aggressor_on_ties() {
    check_tie_break();
}

#[test]
fn tech_gap_amplifies_loss_fraction() {
    let mut a = party(1, 5000);
    let mut b = party(2, 1000);
    claim(&mut a, &[0]);
    claim(&mut b, &[0]);
    let r_parity = resolve(&mut a, &mut b, 100).expect("overlap should fight");
    let parity_loss = r_parity.loss_fraction;
    let mut a = party(1, 5000);
    let mut b = party(2, 1000);
    claim(&mut a, &[0]);
    claim(&mut b, &[0]);
    // Weapon tools unlocked on the winner's side multiply its war strength.
    a.tool_war_multiplier = Real::from_ratio(3, 1);
    let r_tech = resolve(&mut a, &mut b, 100).expect("overlap should fight");
    assert_eq!(r_tech.winner_id, 1);
    assert!(r_tech.loss_fraction > parity_loss, "tech-asymmetric loss {:?} should exceed parity loss {:?}", r_tech.loss_fraction, parity_loss);
}

#[test]
fn overlap_is_the_sorted_intersection() {
    assert_eq!(overlap(&vec![1, 3, 5, 7], &vec![2, 3, 4, 7, 9]), vec![3, 7]);
    assert_eq!(overlap(&vec![], &vec![1]), Vec::<u32>::new());
}

#[test]
fn proposed_alliance_requires_both_cosmology_and_religion_proximity() {
    let mut a = alliance_party(1);
    let mut b = alliance_party(2);
    a.contact_history.insert(b.id);
    b.contact_history.insert(a.id);
    assert!(propose_alliance(&a, &b, false, 100));
    a.cosmology.empirical = Real::one();
    b.cosmology.empirical = Real::one().neg();
    assert!(!propose_alliance(&a, &b, false, 100));
    a.cosmology = Cosmology::neutral();
    b.cosmology = Cosmology::neutral();
    a.religion.theology = Real::one();
    b.religion.theology = Real::one().neg();
    assert!(!propose_alliance(&a, &b, false, 100));
    a.religion = Religion::neutral();
    b.religion = Religion::neutral();
    assert!(!propose_alliance(&a, &b, true, 100));
    let c = alliance_party(3);
    let d = alliance_party(4);
    assert!(!propose_alliance(&c, &d, false, 100));
}

#[test]
fn alliance_short_circuits_conflict_after_formation() {
    let mut a = party(1, 1000);
    let mut b = party(2, 1000);
    claim(&mut a, &[0, 1]);
    claim(&mut b, &[0, 1]);
    assert!(resolve(&mut a, &mut b, 100).is_some());
    let mut a = party(1, 1000);
    let mut b = party(2, 1000);
    claim(&mut a, &[0, 1]);
    claim(&mut b, &[0, 1]);
    a.allied_with.insert(b.id);
    b.allied_with.insert(a.id);
    assert!(resolve(&mut a, &mut b, 100).is_none());
    let mut a = party(1, 1000);
    let mut b = party(2, 1000);
    claim(&mut a, &[0, 1]);
    claim(&mut b, &[0, 1]);
    a.allied_with.insert(b.id);
    let outcome_unilateral = resolve(&mut a, &mut b, 100);
    assert!(outcome_unilateral.is_some(), "unilateral allied flag must not short-circuit (alliance is symmetric)");
}

#[test]
fn alliance_dissolves_when_cosmology_drifts_apart() {
    let mut a = Cosmology::neutral();
    let mut b = Cosmology::neutral();
    assert!(!alliance_drifted_apart(&a, &b));
    a.mystical = Real::one();
    b.mystical = Real::one().neg();
    assert!(alliance_drifted_apart(&a, &b));
    let post = step_alliance_trust(Real::one(), cosmology_distance(&a, &b), Real::zero());
    let floor = Real::from_ratio(20, 100);
    assert!(post < floor || alliance_drifted_apart(&a, &b));
}

#[test]
fn alliance_formed_event_emitted_at_formation() {
    let mut a = alliance_party(1);
    let mut b = alliance_party(2);
    a.contact_history.insert(b.id);
    b.contact_history.insert(a.id);
    assert!(propose_alliance(&a, &b, false, 100));
    a.allied_with.insert(b.id);
    b.allied_with.insert(a.id);
    assert!(a.allied_with.contains(&b.id) && b.allied_with.contains(&a.id));
    assert!(!propose_alliance(&a, &b, false, 100));
}

#[test]
fn cosmology_and_religion_distance_helpers_are_correct() {
    let mut a = Cosmology::neutral();
    let mut b = Cosmology::neutral();
    let d_c = cosmology_distance(&a, &b);
    let d_r = religion_distance(&Religion::neutral(), &Religion::neutral());
    assert!(d_c < Real::from_ratio(1, 1000) && d_r < Real::from_ratio(1, 1000));
    a.hierarchical = Real::one();
    b.hierarchical = Real::one().neg();
    let d_c2 = cosmology_distance(&a, &b);
    assert!(absdiff(d_c2, Real::from_int(2)) < Real::percent(1), "pole-flipped single axis should give distance 2.0; got {d_c2:?}");
}
