use ages::arith::Real;
use ages::discovery::channels::Channel;
use ages::discovery::emergence::{
    already_covered, channel_to_field, is_emergence_tick, DiscoveredTemplate, Field, FormTag, Signature,
    EMERGENCE_CHECK_PERIOD_TICKS,
};
use ages::discovery::tool_emergence::{
    channel_label, channel_to_kind, effects_for_cluster, is_tool_emergence_tick, EMERGENT_TOOL_CLUSTER_SIZE,
    EMERGENT_TOOL_MAX_SCALE_CLUSTER, TOOL_EMERGENCE_CHECK_PERIOD_TICKS,
};

#[test]
fn emergence_period_fires_on_multiples() {
    assert!(!is_emergence_tick(0));
    assert!(is_emergence_tick(EMERGENCE_CHECK_PERIOD_TICKS));
    assert!(is_emergence_tick(EMERGENCE_CHECK_PERIOD_TICKS * 7));
    assert!(!is_emergence_tick(EMERGENCE_CHECK_PERIOD_TICKS - 1));
    assert!(!is_emergence_tick(EMERGENCE_CHECK_PERIOD_TICKS + 1));
}

#[test]
fn channel_to_field_maps_known_channels() {
    assert_eq!(channel_to_field(Channel::Temperature), Some(Field::Temperature));
    assert_eq!(channel_to_field(Channel::ChargeMagnitude), Some(Field::Charge));
    assert_eq!(channel_to_field(Channel::WaterDepth), Some(Field::WaterDepth));
    assert_eq!(channel_to_field(Channel::Elevation), None);
}

/// The authored library's charge template (`lightning_buildup`) is
/// `Above(Charge, 5)`.
fn authored_library() -> Vec<Signature> {
    vec![Signature::Above(Field::Charge, Real::from_int(5))]
}

#[test]
fn already_covered_detects_authored_templates() {
    let lib = authored_library();
    let empty: Vec<DiscoveredTemplate> = Vec::new();
    assert!(already_covered(Field::Charge, Real::from_int(5), &lib, &empty));
    assert!(already_covered(Field::Charge, Real::from_ratio(55, 10), &lib, &empty));
    assert!(!already_covered(Field::Charge, Real::from_int(100), &lib, &empty));
}

#[test]
fn already_covered_detects_prior_discovered() {
    let lib = authored_library();
    let prior = vec![DiscoveredTemplate {
        id: 10_000,
        name: "discovered_temperature_proxy".to_string(),
        signature: Signature::Above(Field::Temperature, Real::from_int(400)),
        tags: vec![FormTag::Threshold],
        channels: vec![],
        discovered_at_tick: 100,
        discovered_by_civ_id: 1,
        origin_template_id: 0,
    }];
    assert!(already_covered(Field::Temperature, Real::from_int(420), &lib, &prior));
    assert!(!already_covered(Field::WaterDepth, Real::from_int(420), &lib, &prior));
}

#[test]
fn tool_emergence_period_fires_on_multiples() {
    assert!(!is_tool_emergence_tick(0));
    assert!(is_tool_emergence_tick(TOOL_EMERGENCE_CHECK_PERIOD_TICKS));
    assert!(is_tool_emergence_tick(TOOL_EMERGENCE_CHECK_PERIOD_TICKS * 5));
    assert!(!is_tool_emergence_tick(TOOL_EMERGENCE_CHECK_PERIOD_TICKS - 1));
    assert!(is_tool_emergence_tick(600));
    assert!(!is_tool_emergence_tick(240));
}

#[test]
fn effects_scale_with_cluster_size() {
    let small = effects_for_cluster(EMERGENT_TOOL_CLUSTER_SIZE, Channel::Temperature);
    let big = effects_for_cluster(
        usize::try_from(EMERGENT_TOOL_MAX_SCALE_CLUSTER).unwrap_or(usize::MAX),
        Channel::Temperature,
    );
    assert!(big.capacity_multiplier > small.capacity_multiplier);
    assert_eq!(big.capacity_multiplier, Real::one().add(Real::percent(20)));
    let huge = effects_for_cluster(1000, Channel::Temperature);
    assert_eq!(huge.capacity_multiplier, big.capacity_multiplier);
}

#[test]
fn effects_specialise_per_channel() {
    let n = usize::try_from(EMERGENT_TOOL_MAX_SCALE_CLUSTER).unwrap_or(usize::MAX);
    let vapour = effects_for_cluster(n, Channel::Vapour);
    assert!(vapour.mortality_reduction_per_bracket[0] > Real::zero());
    assert!(vapour.mortality_reduction_per_bracket[1] > Real::zero());
    assert_eq!(vapour.mortality_reduction_per_bracket[2], Real::zero());
    let oxidiser = effects_for_cluster(n, Channel::Oxidiser);
    assert!(oxidiser.war_strength_bonus > Real::zero());
    assert_eq!(oxidiser.mortality_reduction_per_bracket[0], Real::zero());
    let charge = effects_for_cluster(n, Channel::ChargeMagnitude);
    assert!(charge.discovery_rate_bonus > Real::zero());
    let water = effects_for_cluster(n, Channel::WaterDepth);
    assert!(water.food_crisis_bonus > Real::zero());
    assert!(water.migration_speed_bonus > Real::zero());
    let fuel = effects_for_cluster(n, Channel::Fuel);
    let temp = effects_for_cluster(n, Channel::Temperature);
    assert!(fuel.capacity_multiplier > temp.capacity_multiplier);
}

#[test]
fn channel_to_kind_covers_all_channels() {
    for channel in Channel::all() {
        let _ = channel_to_kind(channel);
        let _ = channel_label(channel);
    }
}
