//! Run-level events, the `Phase` enum, the period helpers, and the
//! schema-version / baseline-months constants that consumers index off
//! the run header.

use vstd::prelude::*;

verus! {

/// Per-tick phase ordering. The sim walks these in fixed order each
/// civ-sim tick.
#[derive(Debug, Clone, Copy, PartialEq, Eq, Structural, PartialOrd, Ord, Hash)]
pub enum Phase {
    TickStart,
    PhysicsIntegration,
    PatternRecognition,
    CohortObservations,
    FigureObservations,
    PatternDetection,
    HypothesisTesting,
    Discovery,
    AdoptionAndDecay,
    CapabilityEvaluation,
    PopulationDynamics,
    CivLifecycle,
    CulturalDrift,
    TickEnd,
}

/// Run header — emitted once at the start of every run.
#[derive(Debug, Clone)]
pub struct RunHeader {
    pub schema_version: u32,
    pub seed: u64,
    pub ages_version: String,
}

/// Tick boundary marker. Carries the tick index for downstream
/// consumers that want to group events.
#[derive(Debug, Clone)]
pub struct TickEvent {
    pub tick: u64,
    pub phase: Phase,
}

pub const SCHEMA_VERSION: u32 = 0;

/// Rate-calibration baseline: per-month rates and cooldowns are pinned
/// to a 12-tick reference year. For display (year-of-tick,
/// month-of-tick) use the planet's own orbital period through
/// `year_of_tick_for_period` / `month_of_tick_for_period`.
pub const BASELINE_MONTHS_PER_YEAR: u64 = 12;

/// Older name of the rate-calibration baseline.
pub const MONTHS_PER_YEAR: u64 = BASELINE_MONTHS_PER_YEAR;

/// The period actually used: a period of 0 falls back to the 12-month
/// baseline so degraded inputs never divide by zero.
pub open spec fn effective_period(period: u32) -> int {
    if period == 0 {
        12
    } else {
        period as int
    }
}

/// The planet-relative year a tick falls in.
pub fn year_of_tick_for_period(tick: u64, period: u32) -> (y: u64)
    ensures
        y == tick as int / effective_period(period),
{
    let p: u64 = if period == 0 { BASELINE_MONTHS_PER_YEAR } else { period as u64 };
    tick / p
}

/// The planet-relative month within its year; in `0..period` (or
/// `0..12` for a zero period).
pub fn month_of_tick_for_period(tick: u64, period: u32) -> (m: u64)
    ensures
        m == tick as int % effective_period(period),
        m < effective_period(period),
{
    let p: u64 = if period == 0 { BASELINE_MONTHS_PER_YEAR } else { period as u64 };
    tick % p
}

/// Baseline (12-month) year-of-tick.
pub fn year_of_tick(tick: u64) -> (y: u64)
    ensures
        y == tick / 12,
{
    tick / BASELINE_MONTHS_PER_YEAR
}

/// Baseline (12-month) month-of-tick.
pub fn month_of_tick(tick: u64) -> (m: u64)
    ensures
        m == tick % 12,
        m < 12,
{
    tick % BASELINE_MONTHS_PER_YEAR
}

/// A tick is recovered from its year and month: `tick = year · period +
/// month`, for every period.
pub proof fn lemma_year_month_recompose(tick: u64, period: u32)
    ensures
        tick == (tick as int / effective_period(period)) * effective_period(period) + tick as int
            % effective_period(period),
{
    let p = effective_period(period);
    vstd::arithmetic::div_mod::lemma_fundamental_div_mod(tick as int, p);
    assert(p * (tick as int / p) == (tick as int / p) * p) by (nonlinear_arith);
}

} // verus!
