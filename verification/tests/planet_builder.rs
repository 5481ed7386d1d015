use ages::planet_builder::{read_choice, read_integer, Note, PlanetBuilder, Question, Reply};
use ages::world::{Atmosphere, BiosphereClass, Crust, Magnetosphere, MetabolicSubstrate, SpectralType};

/// Feed one line per question (and per exact-integer request) and
/// collect the notes shown.
fn drive(script: &str) -> (PlanetBuilder, Vec<String>) {
    let mut b = PlanetBuilder::new();
    let mut notes = Vec::new();
    for line in script.lines() {
        if b.question().is_none() {
            break;
        }
        if let Reply::Accepted(Some(n)) = b.answer(line) {
            notes.push(n.message());
        }
    }
    (b, notes)
}

#[test]
fn smoke_prompts_walk_through() {
    let script = "2\n3\n4\n3\n3\n2\n2\n3\n2\n3\n1\n2\n";
    let (b, _) = drive(script);
    assert!(b.question().is_none());
    let o = b.overrides;
    assert_eq!(o.substrate, Some(MetabolicSubstrate::Ammoniacal));
    assert_eq!(o.atmosphere, Some(Atmosphere::Oxidising));
    assert_eq!(o.mean_temperature_k, Some(288));
    assert_eq!(o.gravity_g_x100, Some(100));
    assert_eq!(o.spectral_type, Some(SpectralType::G));
    assert_eq!(o.axial_tilt_deg, Some(23));
    assert_eq!(o.day_length_hours, Some(24));
    assert_eq!(o.orbital_period_months, Some(12));
    assert_eq!(o.moon_count, Some(1));
    assert_eq!(o.magnetosphere, Some(Magnetosphere::Strong));
    assert_eq!(o.crust, Some(Crust::Basaltic));
    assert_eq!(o.biosphere, Some(BiosphereClass::Lush));
}

#[test]
fn zero_picks_all_random() {
    let script = "0\n".repeat(12);
    let (b, notes) = drive(&script);
    assert!(b.question().is_none());
    let o = b.overrides;
    assert!(o.substrate.is_none());
    assert!(o.atmosphere.is_none());
    assert!(o.mean_temperature_k.is_none());
    assert!(o.gravity_g_x100.is_none());
    assert!(o.spectral_type.is_none());
    assert!(o.axial_tilt_deg.is_none());
    assert!(o.day_length_hours.is_none());
    assert!(o.orbital_period_months.is_none());
    assert!(o.moon_count.is_none());
    assert!(o.magnetosphere.is_none());
    assert!(o.crust.is_none());
    assert!(o.biosphere.is_none());
    assert!(notes.is_empty());
}

#[test]
fn substrate_temp_mismatch_warns() {
    let script = "1\n0\n1\n0\n0\n0\n0\n0\n0\n0\n0\n0\n";
    let (_, notes) = drive(script);
    let out = notes.join("\n");
    assert!(out.contains("outside the Aqueous liquid window"));
    assert!(notes.contains(&"  ⚠ 40 K is outside the Aqueous liquid window [273, 373]. life will struggle. proceeding.".to_string()));
}

#[test]
fn empty_and_padded_lines() {
    assert_eq!(read_choice("", 5), Some(0));
    assert_eq!(read_choice("  \t\n", 5), Some(0));
    assert_eq!(read_choice(" 3 \r\n", 5), Some(3));
    assert_eq!(read_choice("+2", 5), Some(2));
    assert_eq!(read_choice("6", 5), None);
    assert_eq!(read_choice("-1", 5), None);
    assert_eq!(read_choice("two", 5), None);
    assert_eq!(read_integer(" 42\n", 1, 5000), Some(42));
    assert_eq!(read_integer("-0", 0, 90), Some(0));
    assert_eq!(read_integer("", 0, 90), None);
    assert_eq!(read_integer("91", 0, 90), None);
    assert_eq!(read_integer("-5", -10, 10), Some(-5));
    assert_eq!(read_integer("99999999999999999999", 0, 90), None);
}

#[test]
fn custom_options_ask_for_an_exact_integer() {
    let mut b = PlanetBuilder::new();
    assert_eq!(b.answer("4"), Reply::Accepted(Some(Note::SolventWindow(MetabolicSubstrate::Silicate))));
    assert_eq!(b.answer("1"), Reply::Accepted(None));
    assert_eq!(b.question(), Some(Question::MeanTemperature));
    assert_eq!(b.answer("9"), Reply::AskInteger { low: 1, high: 5000 });
    assert_eq!(b.answer("0"), Reply::RetryInteger { low: 1, high: 5000 });
    assert_eq!(b.answer("2000"), Reply::Accepted(None));
    assert_eq!(b.overrides.mean_temperature_k, Some(2000));
    assert_eq!(b.answer("8"), Reply::Retry);
    assert_eq!(b.answer("7"), Reply::AskInteger { low: 1, high: 2000 });
    assert_eq!(b.answer("301"), Reply::Accepted(Some(Note::CrushingGravity)));
    assert_eq!(b.answer("1"), Reply::Accepted(Some(Note::FlaringDwarf)));
    assert_eq!(b.question(), Some(Question::AxialTilt));
}

#[test]
fn vacuum_on_water_life_warns() {
    let (_, notes) = drive("1\n1\n4\n0\n0\n0\n0\n0\n0\n0\n0\n0\n");
    assert_eq!(
        notes,
        vec![
            "  → liquid solvent wants ~273–373 K on the surface.".to_string(),
            "  ⚠ vacuum atmosphere on a non-silicate biosphere will starve the biology. proceeding anyway.".to_string(),
        ]
    );
}

#[test]
fn moon_count_is_pick_minus_one() {
    let (b, _) = drive("0\n0\n0\n0\n0\n0\n0\n0\n5\n0\n0\n0\n");
    assert_eq!(b.overrides.moon_count, Some(4));
}
