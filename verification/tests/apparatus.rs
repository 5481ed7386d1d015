use ages::apparatus::{pick_apparatus_cell, pick_apparatus_channels};
use ages::arith::Real;
use ages::catastrophe::cells::CellPopulation;
use ages::discovery::channels::Channel;

#[test]
fn temperature_clamp_ladder_provides_meaningful_x_variance() {
    let ladder = Channel::Temperature.clamp_ladder().unwrap();
    assert_eq!(ladder[0], Real::from_int(250));
    assert!(ladder[3].sub(ladder[0]) >= Real::from_int(100));
}

#[test]
fn elevation_is_not_clampable() {
    assert!(Channel::Elevation.clamp_ladder().is_none());
}

#[test]
fn charge_clamp_stays_below_discharge_threshold() {
    let ladder = Channel::ChargeMagnitude.clamp_ladder().unwrap();
    for v in ladder {
        assert!(v < Real::from_int(50));
    }
}

#[test]
fn pick_apparatus_cell_returns_none_for_empty_territory() {
    assert!(pick_apparatus_cell(&vec![]).is_none());
}

#[test]
fn pick_apparatus_cell_prefers_lowest_population() {
    let cells = vec![
        CellPopulation { cell: 3, total: Real::from_int(80) },
        CellPopulation { cell: 7, total: Real::from_int(50) },
        CellPopulation { cell: 11, total: Real::from_int(20) },
    ];
    assert_eq!(pick_apparatus_cell(&cells), Some(11));
}

#[test]
fn apparatus_channels_are_temperature() {
    assert_eq!(pick_apparatus_channels(), (Channel::Temperature, Channel::Temperature));
}
