use ages::protocol::header::{month_of_tick_for_period, year_of_tick_for_period};

#[test]
fn planet_years_follow_the_orbital_period() {
    assert_eq!(year_of_tick_for_period(29, 14), 2);
    assert_eq!(month_of_tick_for_period(29, 14), 1);
}

#[test]
fn zero_period_falls_back_to_the_twelve_month_baseline() {
    assert_eq!(year_of_tick_for_period(29, 0), 2);
    assert_eq!(month_of_tick_for_period(29, 0), 5);
}
