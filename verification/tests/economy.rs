use ages::arith::Real;
use ages::economy::{
    drain_surplus_on_catastrophe, step_surplus, surplus_food_buffer, surplus_war_strength_modifier,
    trade_flow_between,
};

fn absdiff(a: Real, b: Real) -> Real {
    if a > b { a.sub(b) } else { b.sub(a) }
}

#[test]
fn surplus_grows_above_utilisation_floor_and_caps() {
    let pop = Real::from_int(1_000);
    let mut surplus = Real::zero();
    for _ in 0..10 {
        step_surplus(&mut surplus, pop, Real::from_ratio(5, 10), 0);
    }
    assert_eq!(surplus, Real::zero());
    for _ in 0..50 {
        step_surplus(&mut surplus, pop, Real::one(), 0);
    }
    assert!(surplus > Real::zero());
    for _ in 0..100_000 {
        step_surplus(&mut surplus, pop, Real::one(), 0);
    }
    let ceiling = pop.mul(Real::from_int(5));
    assert!(surplus <= ceiling, "surplus {:?} should cap at 5× pop = {:?}", surplus, ceiling);
}

#[test]
fn war_drains_surplus_per_tick_per_war() {
    let pop = Real::from_int(1_000);
    let mut surplus = Real::from_int(500);
    let before = surplus;
    step_surplus(&mut surplus, pop, Real::from_ratio(8, 10), 0);
    assert!(surplus >= before, "no-war frame should not drain");
    surplus = Real::from_int(500);
    for _ in 0..50 {
        step_surplus(&mut surplus, pop, Real::from_ratio(8, 10), 3);
    }
    assert!(surplus < Real::from_int(500), "3 wars × 50 ticks should drain surplus; got {:?}", surplus);
}

#[test]
fn catastrophe_drain_consumes_fraction_of_surplus() {
    let mut surplus = Real::from_int(500);
    drain_surplus_on_catastrophe(&mut surplus);
    let expected = Real::from_int(300);
    assert!(absdiff(surplus, expected) < Real::from_int(1), "expected ~300, got {:?}", surplus);
}

#[test]
fn surplus_food_buffer_saturates_at_bonus_cap() {
    let demand = Real::from_int(100);
    let zero = surplus_food_buffer(Real::zero(), demand);
    assert_eq!(zero, Real::zero());
    let full = surplus_food_buffer(Real::from_int(2 * 100), demand);
    let cap = Real::from_ratio(20, 100);
    assert!(absdiff(full, cap) < Real::percent(1));
    let huge = surplus_food_buffer(Real::from_int(10_000), demand);
    assert!(absdiff(huge, cap) < Real::percent(1));
}

#[test]
fn trade_flow_moves_surplus_toward_parity() {
    let mut a = Real::from_int(1_000);
    let mut b = Real::from_int(0);
    let flow = trade_flow_between(&mut a, &mut b);
    let expected_flow = Real::from_ratio(5, 10);
    assert!(absdiff(flow, expected_flow) < Real::percent(1));
    let a_drop = Real::from_int(1_000).sub(a);
    assert!(a_drop > Real::zero());
    assert!(b > Real::zero());
    let total = a.add(b);
    assert!(absdiff(total, Real::from_int(1_000)) < Real::percent(1));
}

#[test]
fn trade_flow_self_sorts_donor() {
    let mut a = Real::zero();
    let mut b = Real::from_int(1_000);
    trade_flow_between(&mut a, &mut b);
    assert!(a > Real::zero());
    assert!(b < Real::from_int(1_000));
}

#[test]
fn surplus_war_strength_modifier_within_bounds() {
    let pop = Real::from_int(1_000);
    let one = surplus_war_strength_modifier(Real::zero(), pop);
    let drift = Real::one().sub(one);
    assert!(drift.abs() < Real::from_ratio(1, 1000));
    let full = surplus_war_strength_modifier(pop, pop);
    let expected = Real::one().add(Real::from_ratio(15, 100));
    assert!(absdiff(full, expected) < Real::percent(1));
    let over = surplus_war_strength_modifier(pop.mul(Real::from_int(10)), pop);
    assert!(absdiff(over, expected) < Real::percent(1));
}

#[test]
fn empty_civ_surplus_decays_and_trade_is_exact() {
    let mut surplus = Real::from_int(100);
    step_surplus(&mut surplus, Real::zero(), Real::one(), 0);
    assert_eq!(surplus, Real::from_int(100).mul(Real::from_ratio(99, 100)));
    assert!(surplus < Real::from_int(99) && surplus > Real::from_ratio(9899, 100));
    let mut a = Real::from_int(10);
    let mut b = Real::from_int(10);
    assert_eq!(trade_flow_between(&mut a, &mut b), Real::zero());
    assert_eq!((a, b), (Real::from_int(10), Real::from_int(10)));
}
