//! Civ-built experiment apparatus: controlled-conditions intervention on
//! top of the passive observation pipeline.
//!
//! An apparatus occupies one cell of a civ's territory. Each tick it
//! clamps one physics channel at one of four ladder values (index
//! `tick mod 4`) before physics integrates, then reads its measure
//! channel afterwards; the `(clamp, reading)` pair feeds the civ's
//! measurement track as an experimental sample.

use crate::arith::{div_bits, div_ok, int_bits, Real};
use crate::catastrophe::cells::CellPopulation;
use crate::discovery::channels::{channel_scale, Channel, MeasurementChannel, PhysicsView};
use crate::discovery::hypothesizer::{track_after_record, Hypothesizer, MeasurementTrack};
use vstd::prelude::*;

verus! {

/// One apparatus cell and the channel pair its experiment runs.
#[derive(Debug, Clone, Copy, PartialEq, Eq, Structural)]
pub struct Apparatus {
    /// Cell of the civ's territory the apparatus occupies.
    pub cell: u32,
    /// Channel held fixed at the start of each tick.
    pub clamp_channel: Channel,
    /// Channel read back after physics integrates.
    pub measure_channel: Channel,
}

/// The four clamp values of a channel, as whole numbers in raw physics
/// units; `None` for channels no apparatus can hold fixed (geology and
/// the planetary field).
pub open spec fn clamp_ladder_of(c: Channel) -> Option<Seq<int>> {
    match c {
        Channel::Temperature => Some(seq![250int, 290, 320, 360]),
        Channel::WaterDepth => Some(seq![0int, 1, 3, 8]),
        Channel::ChargeMagnitude => Some(seq![0int, 5, 15, 30]),
        Channel::Fuel | Channel::Oxidiser | Channel::Vapour | Channel::Ice => Some(
            seq![0int, 1, 3, 8],
        ),
        _ => None,
    }
}

/// Whether ladder `l` holds the whole-number values `v`.
pub open spec fn ladder_is(l: [Real; 4], v: Seq<int>) -> bool {
    &&& v.len() == 4
    &&& forall|k: int| 0 <= k < 4 ==> #[trigger] l@[k]@ == int_bits(v[k])
}

impl Channel {
    /// The four-point clamp ladder of the channel, in raw physics units.
    pub fn clamp_ladder(self) -> (r: Option<[Real; 4]>)
        ensures
            match clamp_ladder_of(self) {
                Some(v) => r is Some && ladder_is(r->0, v),
                None => r is None,
            },
    {
        let z = Real::zero();
        let one = Real::one();
        match self {
            Channel::Temperature => Some(
                [
                    Real::from_int(250),
                    Real::from_int(290),
                    Real::from_int(320),
                    Real::from_int(360),
                ],
            ),
            Channel::WaterDepth => Some([z, one, Real::from_int(3), Real::from_int(8)]),
            Channel::ChargeMagnitude => Some(
                [z, Real::from_int(5), Real::from_int(15), Real::from_int(30)],
            ),
            Channel::Fuel | Channel::Oxidiser | Channel::Vapour | Channel::Ice => {
                Some([z, one, Real::from_int(3), Real::from_int(8)])
            },
            Channel::Elevation | Channel::Fossil | Channel::MagneticField => None,
        }
    }
}

/// Cell `i` of `cells` has the least population, ties going to the
/// smaller cell id.
pub open spec fn is_sparsest(cells: Seq<CellPopulation>, i: int) -> bool {
    &&& 0 <= i < cells.len()
    &&& forall|j: int|
        0 <= j < cells.len() ==> cells[i].total@ < #[trigger] cells[j].total@ || (
        cells[i].total@ == cells[j].total@ && cells[i].cell <= cells[j].cell)
}

/// The apparatus site: the claimed cell with the least population
/// (cells without a cohort count as empty), ties to the lowest cell
/// id; `None` without a claim. `cells` lists each claimed cell once.
pub fn pick_apparatus_cell(cells: &Vec<CellPopulation>) -> (r: Option<u32>)
    ensures
        cells@.len() == 0 ==> r is None,
        cells@.len() > 0 ==> exists|i: int| is_sparsest(cells@, i) && r == Some(cells@[i].cell),
{
    if cells.len() == 0 {
        return None;
    }
    let mut best: usize = 0;
    let mut j: usize = 1;
    while j < cells.len()
        invariant
            0 <= best < j <= cells.len(),
            forall|k: int|
                0 <= k < j ==> cells@[best as int].total@ < #[trigger] cells@[k].total@ || (
                cells@[best as int].total@ == cells@[k].total@ && cells@[best as int].cell
                    <= cells@[k].cell),
        decreases cells.len() - j,
    {
        let cj = cells[j];
        let cb = cells[best];
        if cj.total.bits < cb.total.bits || (cj.total.bits == cb.total.bits && cj.cell < cb.cell) {
            best = j;
        }
        j += 1;
    }
    assert(is_sparsest(cells@, best as int));
    Some(cells[best].cell)
}

/// The clamp and measure channels of a new apparatus: a temperature
/// diffusion experiment, universal across substrates.
pub fn pick_apparatus_channels() -> (r: (Channel, Channel))
    ensures
        r == (Channel::Temperature, Channel::Temperature),
{
    (Channel::Temperature, Channel::Temperature)
}

/// Ladder index of a tick.
pub open spec fn ladder_step(tick: u64) -> int {
    (tick % 4) as int
}

/// The experimental sample an apparatus yields at `tick`, as
/// `(y axis, x axis, x, y)` in fit space: the clamp value over the
/// clamp channel's scale, and the measure channel's reading; `None`
/// for a channel that cannot be clamped.
pub open spec fn apparatus_sample_spec(app: Apparatus, state: PhysicsView, tick: u64) -> Option<
    (MeasurementChannel, MeasurementChannel, int, int),
> {
    match clamp_ladder_of(app.clamp_channel) {
        Some(v) => Some(
            (
                MeasurementChannel::Direct(app.measure_channel),
                MeasurementChannel::Direct(app.clamp_channel),
                div_bits(int_bits(v[ladder_step(tick)]), int_bits(channel_scale(app.clamp_channel))),
                state.read_spec(app.measure_channel, app.cell as int),
            ),
        ),
        None => None,
    }
}

/// A concrete sample carries the given axes and fit-space values.
pub open spec fn sample_is(
    r: (MeasurementChannel, MeasurementChannel, Real, Real),
    s: (MeasurementChannel, MeasurementChannel, int, int),
) -> bool {
    let (ry, rx, x, y) = r;
    let (sy, sx, sxv, syv) = s;
    ry == sy && rx == sx && x@ == sxv && y@ == syv
}

/// The sample an apparatus contributes this tick.
pub fn apparatus_sample(app: Apparatus, state: &PhysicsView, tick: u64) -> (r: Option<
    (MeasurementChannel, MeasurementChannel, Real, Real),
>)
    requires
        state.wf(),
        app.cell < state.n_cells(),
    ensures
        match apparatus_sample_spec(app, *state, tick) {
            Some(s) => r is Some && sample_is(r->0, s),
            None => r is None,
        },
{
    match app.clamp_channel.clamp_ladder() {
        Some(ladder) => {
            let step = (tick % 4) as usize;
            let clamp_raw = ladder[step];
            let scale = app.clamp_channel.scale();
            proof {
                let v = clamp_ladder_of(app.clamp_channel)->0;
                assert(clamp_raw@ == int_bits(v[step as int]));
                assert(0 <= v[step as int] <= 360);
                assert(1 <= channel_scale(app.clamp_channel) <= 1000);
                assert(div_ok(clamp_raw@, scale@)) by {
                    crate::transcendental::lemma_div_int_bound(clamp_raw@, channel_scale(app.clamp_channel));
                }
            }
            let x_fit = clamp_raw.div(scale);
            let y_fit = app.measure_channel.read(state, app.cell as usize);
            Some(
                (
                    MeasurementChannel::Direct(app.measure_channel),
                    MeasurementChannel::Direct(app.clamp_channel),
                    x_fit,
                    y_fit,
                ),
            )
        },
        None => None,
    }
}


/// Every physics field has one value per cell.
pub open spec fn fields_sized(state: PhysicsView) -> bool {
    forall|c: Channel| #[trigger] state.field(c).len() == state.n_cells()
}

/// Overwrite the value of a clampable channel at `cell`; a channel that
/// cannot be clamped is left alone.
pub fn write_channel_at_cell(state: &mut PhysicsView, channel: Channel, cell: usize, value: Real)
    requires
        fields_sized(*old(state)),
        cell < old(state).n_cells(),
    ensures
        final(state).n_cells() == old(state).n_cells(),
        fields_sized(*final(state)),
        final(state).neighbours@ == old(state).neighbours@,
        forall|d: Channel| #[trigger]
            final(state).field(d) == if d == channel && clamp_ladder_of(d) is Some {
                old(state).field(d).update(cell as int, value)
            } else {
                old(state).field(d)
            },
{
    proof {
        assert(old(state).field(Channel::Temperature).len() == old(state).n_cells());
        assert(old(state).field(Channel::WaterDepth).len() == old(state).n_cells());
        assert(old(state).field(Channel::ChargeMagnitude).len() == old(state).n_cells());
        assert(old(state).field(Channel::Fuel).len() == old(state).n_cells());
        assert(old(state).field(Channel::Oxidiser).len() == old(state).n_cells());
        assert(old(state).field(Channel::Vapour).len() == old(state).n_cells());
        assert(old(state).field(Channel::Ice).len() == old(state).n_cells());
    }
    match channel {
        Channel::Temperature => state.temperature.set(cell, value),
        Channel::WaterDepth => state.water_depth.set(cell, value),
        Channel::ChargeMagnitude => state.charge.set(cell, value),
        Channel::Fuel => state.fuel.set(cell, value),
        Channel::Oxidiser => state.oxidiser.set(cell, value),
        Channel::Vapour => state.vapour.set(cell, value),
        Channel::Ice => state.ice.set(cell, value),
        Channel::Elevation | Channel::Fossil | Channel::MagneticField => {},
    }
    proof {
        assert forall|d: Channel| #[trigger] final(state).field(d) == if d == channel && clamp_ladder_of(d) is Some {
            old(state).field(d).update(cell as int, value)
        } else {
            old(state).field(d)
        } by {}
        assert forall|c: Channel| #[trigger] final(state).field(c).len() == final(state).n_cells() by {
            assert(old(state).field(c).len() == old(state).n_cells());
        }
    }
}

/// The apparatus of one civ, and whether the civ is active.
#[derive(Debug, Clone)]
pub struct CivApparatus {
    pub active: bool,
    pub apparatus_cells: Vec<Apparatus>,
}

/// Whether an active civ's apparatus among the first `fi` civs, or among
/// the first `ai` apparatus of civ `fi`, clamps channel `d` at `cell`.
pub open spec fn clamp_written_before(
    civs: Seq<CivApparatus>,
    fi: int,
    ai: int,
    d: Channel,
    cell: int,
) -> bool {
    &&& clamp_ladder_of(d) is Some
    &&& exists|f: int, a: int|
        0 <= f < civs.len() && civs[f].active && 0 <= a < civs[f].apparatus_cells@.len() && (f < fi
            || (f == fi && a < ai)) && #[trigger] civs[f].apparatus_cells@[a].clamp_channel == d
            && civs[f].apparatus_cells@[a].cell == cell
}

/// Whether any active civ's apparatus clamps channel `d` at `cell`.
pub open spec fn clamp_written(civs: Seq<CivApparatus>, d: Channel, cell: int) -> bool {
    clamp_written_before(civs, civs.len() as int, 0, d, cell)
}

/// The clamp value every apparatus on `d` writes at `tick`.
pub open spec fn clamp_value(d: Channel, tick: u64) -> int {
    int_bits(clamp_ladder_of(d)->0[ladder_step(tick)])
}

/// Pre-physics clamp write: every apparatus of every active civ sets
/// its clamp channel at its cell to the ladder value of `tick mod 4`.
/// Cells no apparatus clamps keep their values.
pub fn write_apparatus_clamps(state: &mut PhysicsView, civs: &Vec<CivApparatus>, tick: u64)
    requires
        fields_sized(*old(state)),
        forall|f: int, a: int|
            0 <= f < civs@.len() && civs@[f].active && 0 <= a < civs@[f].apparatus_cells@.len()
                ==> #[trigger] civs@[f].apparatus_cells@[a].cell < old(state).n_cells(),
    ensures
        final(state).n_cells() == old(state).n_cells(),
        fields_sized(*final(state)),
        final(state).neighbours@ == old(state).neighbours@,
        forall|d: Channel, i: int|
            0 <= i < final(state).n_cells() ==> (#[trigger] final(state).field(d)[i])@ == if clamp_written(
                civs@,
                d,
                i,
            ) {
                clamp_value(d, tick)
            } else {
                old(state).field(d)[i]@
            },
{
    let step = (tick % 4) as usize;
    let ghost orig = *state;
    let mut fi: usize = 0;
    while fi < civs.len()
        invariant
            fi <= civs.len(),
            step == ladder_step(tick),
            fields_sized(*state),
            state.n_cells() == orig.n_cells(),
            state.neighbours@ == orig.neighbours@,
            forall|f: int, a: int|
                0 <= f < civs@.len() && civs@[f].active && 0 <= a < civs@[f].apparatus_cells@.len()
                    ==> #[trigger] civs@[f].apparatus_cells@[a].cell < orig.n_cells(),
            forall|d: Channel, i: int|
                0 <= i < state.n_cells() ==> (#[trigger] state.field(d)[i])@ == if clamp_written_before(
                    civs@,
                    fi as int,
                    0,
                    d,
                    i,
                ) {
                    clamp_value(d, tick)
                } else {
                    orig.field(d)[i]@
                },
        decreases civs.len() - fi,
    {
        let civ = &civs[fi];
        if civ.active {
            let mut ai: usize = 0;
            while ai < civ.apparatus_cells.len()
                invariant
                    fi < civs.len(),
                    *civ == civs@[fi as int],
                    civ.active,
                    ai <= civ.apparatus_cells.len(),
                    step == ladder_step(tick),
                    fields_sized(*state),
                    state.n_cells() == orig.n_cells(),
                    state.neighbours@ == orig.neighbours@,
                    forall|f: int, a: int|
                        0 <= f < civs@.len() && civs@[f].active && 0 <= a
                            < civs@[f].apparatus_cells@.len()
                            ==> #[trigger] civs@[f].apparatus_cells@[a].cell < orig.n_cells(),
                    forall|d: Channel, i: int|
                        0 <= i < state.n_cells() ==> (#[trigger] state.field(d)[i])@
                            == if clamp_written_before(civs@, fi as int, ai as int, d, i) {
                            clamp_value(d, tick)
                        } else {
                            orig.field(d)[i]@
                        },
                decreases civ.apparatus_cells.len() - ai,
            {
                let app = civ.apparatus_cells[ai];
                assert(app.cell < orig.n_cells());
                match app.clamp_channel.clamp_ladder() {
                    Some(ladder) => {
                        let value = ladder[step];
                        let ghost before = *state;
                        write_channel_at_cell(state, app.clamp_channel, app.cell as usize, value);
                        proof {
                            assert forall|d: Channel, i: int|
                                0 <= i < state.n_cells() implies (#[trigger] state.field(d)[i])@
                                == if clamp_written_before(civs@, fi as int, ai + 1, d, i) {
                                clamp_value(d, tick)
                            } else {
                                orig.field(d)[i]@
                            } by {
                                assert(before.field(d).len() == before.n_cells());
                                if d == app.clamp_channel && i == app.cell {
                                    assert(civs@[fi as int].apparatus_cells@[ai as int].clamp_channel == d);
                                    assert(clamp_written_before(civs@, fi as int, ai + 1, d, i));
                                } else {
                                    if clamp_written_before(civs@, fi as int, ai + 1, d, i) {
                                        let (f, a) = choose|f: int, a: int|
                                            0 <= f < civs@.len() && civs@[f].active && 0 <= a
                                                < civs@[f].apparatus_cells@.len() && (f < fi || (f
                                                == fi && a < ai + 1))
                                                && #[trigger] civs@[f].apparatus_cells@[a].clamp_channel
                                                == d && civs@[f].apparatus_cells@[a].cell == i;
                                        if f == fi && a == ai {
                                            assert(false);
                                        }
                                        assert(clamp_written_before(civs@, fi as int, ai as int, d, i));
                                    }
                                }
                            }
                        }
                    },
                    None => {
                        proof {
                            assert forall|d: Channel, i: int|
                                0 <= i < state.n_cells() implies (#[trigger] state.field(d)[i])@
                                == if clamp_written_before(civs@, fi as int, ai + 1, d, i) {
                                clamp_value(d, tick)
                            } else {
                                orig.field(d)[i]@
                            } by {
                                if clamp_written_before(civs@, fi as int, ai + 1, d, i) {
                                    let (f, a) = choose|f: int, a: int|
                                        0 <= f < civs@.len() && civs@[f].active && 0 <= a
                                            < civs@[f].apparatus_cells@.len() && (f < fi || (f == fi
                                            && a < ai + 1))
                                            && #[trigger] civs@[f].apparatus_cells@[a].clamp_channel
                                            == d && civs@[f].apparatus_cells@[a].cell == i;
                                    if f == fi && a == ai {
                                        assert(clamp_ladder_of(d) is None);
                                    }
                                    assert(clamp_written_before(civs@, fi as int, ai as int, d, i));
                                }
                            }
                        }
                    },
                }
                ai += 1;
            }
            proof {
                assert forall|d: Channel, i: int|
                    0 <= i < state.n_cells() implies clamp_written_before(civs@, fi as int, ai as int, d, i)
                    == clamp_written_before(civs@, fi + 1, 0, d, i) by {
                    if clamp_written_before(civs@, fi + 1, 0, d, i) {
                        let (f, a) = choose|f: int, a: int|
                            0 <= f < civs@.len() && civs@[f].active && 0 <= a
                                < civs@[f].apparatus_cells@.len() && (f < fi + 1 || (f == fi + 1 && a
                                < 0)) && #[trigger] civs@[f].apparatus_cells@[a].clamp_channel == d
                                && civs@[f].apparatus_cells@[a].cell == i;
                        assert(clamp_written_before(civs@, fi as int, ai as int, d, i));
                    }
                    if clamp_written_before(civs@, fi as int, ai as int, d, i) {
                        let (f, a) = choose|f: int, a: int|
                            0 <= f < civs@.len() && civs@[f].active && 0 <= a
                                < civs@[f].apparatus_cells@.len() && (f < fi || (f == fi && a < ai))
                                && #[trigger] civs@[f].apparatus_cells@[a].clamp_channel == d
                                && civs@[f].apparatus_cells@[a].cell == i;
                        assert(clamp_written_before(civs@, fi + 1, 0, d, i));
                    }
                }
            }
        } else {
            proof {
                assert forall|d: Channel, i: int|
                    0 <= i < state.n_cells() implies clamp_written_before(civs@, fi as int, 0, d, i)
                    == clamp_written_before(civs@, fi + 1, 0, d, i) by {
                    if clamp_written_before(civs@, fi + 1, 0, d, i) {
                        let (f, a) = choose|f: int, a: int|
                            0 <= f < civs@.len() && civs@[f].active && 0 <= a
                                < civs@[f].apparatus_cells@.len() && (f < fi + 1 || (f == fi + 1 && a
                                < 0)) && #[trigger] civs@[f].apparatus_cells@[a].clamp_channel == d
                                && civs@[f].apparatus_cells@[a].cell == i;
                        assert(f != fi);
                        assert(clamp_written_before(civs@, fi as int, 0, d, i));
                    }
                    if clamp_written_before(civs@, fi as int, 0, d, i) {
                        let (f, a) = choose|f: int, a: int|
                            0 <= f < civs@.len() && civs@[f].active && 0 <= a
                                < civs@[f].apparatus_cells@.len() && (f < fi || (f == fi && a < 0))
                                && #[trigger] civs@[f].apparatus_cells@[a].clamp_channel == d
                                && civs@[f].apparatus_cells@[a].cell == i;
                        assert(clamp_written_before(civs@, fi + 1, 0, d, i));
                    }
                }
            }
        }
        fi += 1;
    }
}

/// The measurement track after the first `n` apparatus, in order, have
/// recorded their samples.
pub open spec fn track_after_samples(
    t: MeasurementTrack,
    apps: Seq<Apparatus>,
    state: PhysicsView,
    tick: u64,
    max: nat,
    n: int,
) -> MeasurementTrack
    decreases n,
{
    if n <= 0 {
        t
    } else {
        let prev = track_after_samples(t, apps, state, tick, max, n - 1);
        match apparatus_sample_spec(apps[n - 1], state, tick) {
            Some((y, x, xv, yv)) => track_after_record(
                prev,
                y,
                x,
                Real { bits: xv as i64 },
                Real { bits: yv as i64 },
                max,
            ),
            None => prev,
        }
    }
}

/// Post-physics sampling: each apparatus with a clampable channel pushes
/// its `(clamp, reading)` sample into the hypothesizer's measurement
/// track (twice, as an experimental sample), in order. The candidate
/// relations, their samples and the confirmed relations are untouched.
pub fn record_apparatus_samples(
    state: &PhysicsView,
    hypothesizer: &mut Hypothesizer,
    apparatus: &Vec<Apparatus>,
    tick: u64,
)
    requires
        state.wf(),
        forall|a: int| 0 <= a < apparatus@.len() ==> #[trigger] apparatus@[a].cell < state.n_cells(),
    ensures
        final(hypothesizer).track() == track_after_samples(
            old(hypothesizer).track(),
            apparatus@,
            *state,
            tick,
            old(hypothesizer).max_window as nat,
            apparatus@.len() as int,
        ),
        final(hypothesizer).candidates@ == old(hypothesizer).candidates@,
        final(hypothesizer).samples@ == old(hypothesizer).samples@,
        final(hypothesizer).confirmed@ == old(hypothesizer).confirmed@,
        forall|a: int|
            0 <= a < apparatus@.len() && (#[trigger] clamp_ladder_of(apparatus@[a].clamp_channel)) is Some
                ==> final(hypothesizer).measurement_samples@.contains_key(
                crate::discovery::channels::measurement_relation_id_spec(
                    MeasurementChannel::Direct(apparatus@[a].measure_channel),
                    MeasurementChannel::Direct(apparatus@[a].clamp_channel),
                ) as u32,
            ),
{
    let mut i: usize = 0;
    while i < apparatus.len()
        invariant
            i <= apparatus.len(),
            state.wf(),
            forall|a: int| 0 <= a < apparatus@.len() ==> #[trigger] apparatus@[a].cell < state.n_cells(),
            hypothesizer.track() == track_after_samples(
                old(hypothesizer).track(),
                apparatus@,
                *state,
                tick,
                old(hypothesizer).max_window as nat,
                i as int,
            ),
            hypothesizer.max_window == old(hypothesizer).max_window,
            hypothesizer.candidates@ == old(hypothesizer).candidates@,
            hypothesizer.samples@ == old(hypothesizer).samples@,
            hypothesizer.confirmed@ == old(hypothesizer).confirmed@,
            forall|a: int|
                0 <= a < i && (#[trigger] clamp_ladder_of(apparatus@[a].clamp_channel)) is Some
                    ==> hypothesizer.measurement_samples@.contains_key(
                    crate::discovery::channels::measurement_relation_id_spec(
                        MeasurementChannel::Direct(apparatus@[a].measure_channel),
                        MeasurementChannel::Direct(apparatus@[a].clamp_channel),
                    ) as u32,
                ),
        decreases apparatus.len() - i,
    {
        let app = apparatus[i];
        match apparatus_sample(app, state, tick) {
            Some(sample) => {
                let (y_ch, x_ch, x_fit, y_fit) = sample;
                hypothesizer.record_experimental_measurement(y_ch, x_ch, x_fit, y_fit);
            },
            None => {},
        }
        i += 1;
    }
}
} // verus!
