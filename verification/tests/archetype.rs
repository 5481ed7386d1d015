use ages::archetype::{classify, classify_world_species, refine_with_run, ArchetypeLabel, Lever, LeverScores};
use ages::arith::Real;
use ages::discovery::channels::{Channel, ModalityKind};
use ages::world::{
    Atmosphere, BiosphereClass, CognitionTopology, Crust, CrustalComposition, Magnetosphere, MetabolicSubstrate,
    ToolKind, WorldProfile,
};

fn earthlike() -> WorldProfile {
    WorldProfile {
        atmosphere: Atmosphere::Oxidising,
        crust: Crust::Basaltic,
        crustal_composition: CrustalComposition {
            hydrocarbon: Real::from_ratio(2, 10),
            piezoelectric: Real::from_ratio(1, 10),
            ferrous: Real::from_ratio(3, 10),
        },
        magnetosphere: Magnetosphere::Strong,
        biosphere: BiosphereClass::Lush,
        biosphere_density: Real::from_ratio(6, 10),
        metabolic_substrate: MetabolicSubstrate::Aqueous,
        stellar_luminosity: Real::from_int(1361),
        moon_count: 1,
        gravity: Real::from_ratio(981, 100),
        modalities: vec![ModalityKind::VisualLight, ModalityKind::AcousticAir, ModalityKind::ChemicalTaste],
        radiation_max: Real::from_int(1),
        cognition_topology: CognitionTopology::Centralized,
    }
}

fn check_label_consistent(scores: &LeverScores, label: ArchetypeLabel) {
    let ranked = scores.ranked();
    match label {
        ArchetypeLabel::Pure(l) => assert_eq!(l, ranked[0].0),
        ArchetypeLabel::Hybrid(a, b) => {
            assert_eq!(a, ranked[0].0);
            assert_eq!(b, ranked[1].0);
        }
        ArchetypeLabel::Emergent { dominant, secondary, tertiary } => {
            assert_eq!(dominant, ranked[0].0);
            assert_eq!(secondary, ranked[1].0);
            assert_eq!(tertiary, ranked[2].0);
        }
    }
}

#[test]
fn hand_built_world_classifies_with_bounded_scores() {
    let profile = classify_world_species(&earthlike());
    for sc in profile.scores.scores {
        assert!(sc >= Real::zero() && sc <= Real::one(), "score out of [0,1]: {sc:?}");
    }
    check_label_consistent(&profile.scores, profile.label);
    let again = classify_world_species(&earthlike());
    assert_eq!(again.label, profile.label);
    assert_eq!(again.scores.scores, profile.scores.scores);
}

#[test]
fn ranked_breaks_ties_by_lever_order() {
    let zero = LeverScores::zero();
    let ranked = zero.ranked();
    for (i, (lever, _)) in ranked.iter().enumerate() {
        assert_eq!(lever.idx(), i, "tie-break must follow Lever::ALL order");
    }
    assert!(matches!(classify(&zero), ArchetypeLabel::Emergent { .. }));
}

#[test]
fn pure_combustion_signature_labels_combustion() {
    let mut s = LeverScores::zero();
    s.add(Lever::Combustion, Real::from_ratio(80, 100));
    s.add(Lever::Hydraulic, Real::from_ratio(20, 100));
    assert_eq!(classify(&s), ArchetypeLabel::Pure(Lever::Combustion));
}

#[test]
fn co_dominant_levers_label_hybrid() {
    let mut s = LeverScores::zero();
    s.add(Lever::FieldResonance, Real::from_ratio(45, 100));
    s.add(Lever::Biochemical, Real::from_ratio(42, 100));
    match classify(&s) {
        ArchetypeLabel::Hybrid(a, b) => {
            assert_eq!(a, Lever::FieldResonance);
            assert_eq!(b, Lever::Biochemical);
        }
        other => panic!("expected hybrid, got {other:?}"),
    }
}

#[test]
fn hybrid_name_joins_levers() {
    let label = ArchetypeLabel::Hybrid(Lever::FieldResonance, Lever::Biochemical);
    assert_eq!(label.name(), "field_resonance/biochemical");
}

#[test]
fn realized_refinement_can_override_a_flat_prior() {
    let prior = LeverScores::zero();
    let channels = vec![(Channel::Fuel, 12u32), (Channel::Oxidiser, 10u32)];
    let tools = vec![ToolKind::LocalisedCombustion, ToolKind::MaterialRefining, ToolKind::ChemicalSynthesis];
    let refined = refine_with_run(&prior, &channels, &tools);
    assert_eq!(classify(&refined), ArchetypeLabel::Pure(Lever::Combustion));
}

#[test]
fn realized_refinement_reads_biochemical_from_bio_tools() {
    let prior = LeverScores::zero();
    let channels: Vec<(Channel, u32)> = vec![];
    let tools = vec![
        ToolKind::AnimalSymbiosis,
        ToolKind::BiomimeticDesign,
        ToolKind::GeneticManipulation,
        ToolKind::EcosystemEngineering,
        ToolKind::AdvancedMedicine,
    ];
    let refined = refine_with_run(&prior, &channels, &tools);
    assert_eq!(classify(&refined), ArchetypeLabel::Pure(Lever::Biochemical));
}

#[test]
fn refinement_respects_score_ceiling() {
    let prior = LeverScores::zero();
    let channels = vec![(Channel::Fuel, 100_000u32)];
    let refined = refine_with_run(&prior, &channels, &vec![]);
    assert!(refined.get(Lever::Combustion) <= Real::one());
}

#[test]
fn emergent_name_joins_three_levers() {
    let label = ArchetypeLabel::Emergent {
        dominant: Lever::Combustion,
        secondary: Lever::Hydraulic,
        tertiary: Lever::Biochemical,
    };
    assert_eq!(label.name(), format!("emergent_{}_{}_{}", Lever::Combustion.name(), Lever::Hydraulic.name(), Lever::Biochemical.name()));
    assert_eq!(ArchetypeLabel::Pure(Lever::Combustion).name(), Lever::Combustion.name());
}

/// A world profile for each seed: the seed walks the atmosphere, crust,
/// magnetosphere, biosphere, substrate, composition, moons, gravity and
/// senses through their ranges.
fn profile_for_seed(seed: u64) -> WorldProfile {
    let atmospheres = [Atmosphere::Absent, Atmosphere::Thin, Atmosphere::Oxidising, Atmosphere::Reducing, Atmosphere::Hazy];
    let crusts = [Crust::Basaltic, Crust::Ferrous, Crust::Hydrocarbon, Crust::Piezoelectric, Crust::RareEarth];
    let fields = [Magnetosphere::Absent, Magnetosphere::Weak, Magnetosphere::Strong];
    let biospheres = [BiosphereClass::Barren, BiosphereClass::Sparse, BiosphereClass::Lush, BiosphereClass::HyperBiodiverse];
    let substrates = [MetabolicSubstrate::Aqueous, MetabolicSubstrate::Ammoniacal, MetabolicSubstrate::Hydrocarbon, MetabolicSubstrate::Silicate];
    let senses = [
        vec![ModalityKind::VisualLight, ModalityKind::AcousticAir],
        vec![ModalityKind::ChemicalTaste, ModalityKind::ElectricField, ModalityKind::Tactile],
        vec![ModalityKind::InfraredThermal, ModalityKind::Seismic, ModalityKind::MagneticSense],
    ];
    let s = seed as usize;
    let tenth = |k: u64| Real::from_ratio(((seed * k) % 11) as i64, 10).min(Real::one());
    WorldProfile {
        atmosphere: atmospheres[s % 5],
        crust: crusts[(s / 5) % 5],
        crustal_composition: CrustalComposition { hydrocarbon: tenth(3), piezoelectric: tenth(7), ferrous: tenth(5) },
        magnetosphere: fields[s % 3],
        biosphere: biospheres[(s / 3) % 4],
        biosphere_density: tenth(13),
        metabolic_substrate: substrates[(s / 2) % 4],
        stellar_luminosity: Real::from_int(800 + 60 * (seed as i64 % 20)),
        moon_count: (seed % 4) as u8,
        gravity: Real::from_ratio(400 + 50 * (seed as i64 % 15), 100),
        modalities: senses[s % 3].clone(),
        radiation_max: Real::from_ratio(1 + (seed as i64 % 9), 2),
        cognition_topology: CognitionTopology::Centralized,
    }
}

#[test]
fn every_seed_classifies_without_panic_and_scores_bounded() {
    for seed in 0..40u64 {
        let profile = classify_world_species(&profile_for_seed(seed));
        for sc in profile.scores.scores {
            assert!(sc >= Real::zero() && sc <= Real::one(), "score out of [0,1]: {sc:?}");
        }
        check_label_consistent(&profile.scores, profile.label);
    }
}

#[test]
fn classification_is_deterministic() {
    let a = classify_world_species(&profile_for_seed(42));
    let b = classify_world_species(&profile_for_seed(42));
    assert_eq!(a.label, b.label);
    assert_eq!(a.scores.scores, b.scores.scores);
}
