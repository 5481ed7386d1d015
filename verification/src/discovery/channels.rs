//! Discovery-pipeline channel selectors. `Channel` is the firing-
//! relation x-axis (template-channel pair → `relation_id`);
//! `MeasurementChannel` is the measurement-relation y/x with direct /
//! neighbour-mean / Laplacian / temporal-delta variants. `PhysicsView`
//! holds, as plain values, the per-cell physics fields they read.

use crate::arith::{div_bits, int_bits, Real};
use crate::transcendental::{abs_int, lemma_div_int_bound};
use vstd::prelude::*;
use vstd::string::StringExecFns;

verus! {

/// Physical channels a candidate relation may use as its independent
/// variable.
#[derive(Debug, Clone, Copy, PartialEq, Eq, Structural, PartialOrd, Ord, Hash)]
pub enum Channel {
    Temperature,
    WaterDepth,
    /// Magnitude of cell charge; electroreceptors read charge
    /// gradients.
    ChargeMagnitude,
    Elevation,
    Fuel,
    Oxidiser,
    Vapour,
    Ice,
    /// Buried fossil-hydrocarbon density, distinct from renewable
    /// surface `Fuel`.
    Fossil,
    /// Magnitude of the planetary magnetic field `|B|` at the cell.
    MagneticField,
}

/// Position of a channel in the fixed channel order (below 16, so
/// `template_id × 16 + index` never collides).
pub open spec fn channel_index(c: Channel) -> nat {
    match c {
        Channel::Temperature => 0,
        Channel::WaterDepth => 1,
        Channel::ChargeMagnitude => 2,
        Channel::Elevation => 3,
        Channel::Fuel => 4,
        Channel::Oxidiser => 5,
        Channel::Vapour => 6,
        Channel::Ice => 7,
        Channel::Fossil => 8,
        Channel::MagneticField => 9,
    }
}

/// Every channel, in index order.
pub open spec fn all_channels() -> Seq<Channel> {
    seq![
        Channel::Temperature,
        Channel::WaterDepth,
        Channel::ChargeMagnitude,
        Channel::Elevation,
        Channel::Fuel,
        Channel::Oxidiser,
        Channel::Vapour,
        Channel::Ice,
        Channel::Fossil,
        Channel::MagneticField,
    ]
}

/// Normalisation scale of a channel, as a whole number.
pub open spec fn channel_scale(c: Channel) -> int {
    match c {
        Channel::Temperature | Channel::WaterDepth => 100,
        Channel::ChargeMagnitude => 10,
        Channel::Elevation => 1000,
        _ => 1,
    }
}

/// Snake-case protocol tag of a channel.
pub open spec fn channel_tag(c: Channel) -> Seq<char> {
    match c {
        Channel::Temperature => "temperature"@,
        Channel::WaterDepth => "water_depth"@,
        Channel::ChargeMagnitude => "charge_magnitude"@,
        Channel::Elevation => "elevation"@,
        Channel::Fuel => "fuel"@,
        Channel::Oxidiser => "oxidiser"@,
        Channel::Vapour => "vapour"@,
        Channel::Ice => "ice"@,
        Channel::Fossil => "fossil"@,
        Channel::MagneticField => "magnetic_field"@,
    }
}

/// A non-empty identifier of lower-case ASCII letters and underscores,
/// starting with a letter.
pub open spec fn is_snake_case(s: Seq<char>) -> bool {
    &&& s.len() > 0
    &&& 'a' <= s[0] <= 'z'
    &&& forall|i: int| 0 <= i < s.len() ==> ('a' <= #[trigger] s[i] <= 'z' || s[i] == '_')
}

proof fn lemma_channel_tag_shape(c: Channel)
    ensures
        is_snake_case(channel_tag(c)),
        channel_tag(c)[0] != 'n' && channel_tag(c)[0] != 'l' && channel_tag(c)[0] != 'd',
{
    reveal_strlit("temperature");
    reveal_strlit("water_depth");
    reveal_strlit("charge_magnitude");
    reveal_strlit("elevation");
    reveal_strlit("fuel");
    reveal_strlit("oxidiser");
    reveal_strlit("vapour");
    reveal_strlit("ice");
    reveal_strlit("fossil");
    reveal_strlit("magnetic_field");
}

/// Every channel tag is a non-empty snake-case identifier, and distinct
/// channels carry distinct tags.
pub proof fn lemma_channel_tags_distinct(a: Channel, b: Channel)
    ensures
        is_snake_case(channel_tag(a)),
        channel_tag(a) == channel_tag(b) ==> a == b,
{
    lemma_channel_tag_shape(a);
    reveal_strlit("temperature");
    reveal_strlit("water_depth");
    reveal_strlit("charge_magnitude");
    reveal_strlit("elevation");
    reveal_strlit("fuel");
    reveal_strlit("oxidiser");
    reveal_strlit("vapour");
    reveal_strlit("ice");
    reveal_strlit("fossil");
    reveal_strlit("magnetic_field");
    if channel_tag(a) == channel_tag(b) && a != b {
        assert(channel_tag(a)[0] == channel_tag(b)[0]);
        assert(channel_tag(a).len() == channel_tag(b).len());
        assert(channel_tag(a)[1] == channel_tag(b)[1]);
    }
}

impl Channel {
    /// Position in the fixed channel order.
    pub fn index(self) -> (i: u32)
        ensures
            i == channel_index(self),
    {
        match self {
            Channel::Temperature => 0,
            Channel::WaterDepth => 1,
            Channel::ChargeMagnitude => 2,
            Channel::Elevation => 3,
            Channel::Fuel => 4,
            Channel::Oxidiser => 5,
            Channel::Vapour => 6,
            Channel::Ice => 7,
            Channel::Fossil => 8,
            Channel::MagneticField => 9,
        }
    }

    /// All channels available to the discovery pipeline, in index order.
    pub fn all() -> (v: Vec<Channel>)
        ensures
            v@ == all_channels(),
    {
        let v = vec![
            Channel::Temperature,
            Channel::WaterDepth,
            Channel::ChargeMagnitude,
            Channel::Elevation,
            Channel::Fuel,
            Channel::Oxidiser,
            Channel::Vapour,
            Channel::Ice,
            Channel::Fossil,
            Channel::MagneticField,
        ];
        assert(v@ =~= all_channels());
        v
    }

    /// Per-channel normalisation scale: sampled values are divided by
    /// it so wide-range channels stay well inside Q32.32.
    pub fn scale(self) -> (r: Real)
        ensures
            r@ == int_bits(channel_scale(self)),
    {
        match self {
            Channel::Temperature => Real::from_int(100),
            Channel::WaterDepth => Real::from_int(100),
            Channel::ChargeMagnitude => Real::from_int(10),
            Channel::Elevation => Real::from_int(1000),
            _ => Real::one(),
        }
    }

    /// Snake-case tag for protocol payloads.
    pub fn tag(self) -> (s: &'static str)
        ensures
            s@ == channel_tag(self),
    {
        match self {
            Channel::Temperature => "temperature",
            Channel::WaterDepth => "water_depth",
            Channel::ChargeMagnitude => "charge_magnitude",
            Channel::Elevation => "elevation",
            Channel::Fuel => "fuel",
            Channel::Oxidiser => "oxidiser",
            Channel::Vapour => "vapour",
            Channel::Ice => "ice",
            Channel::Fossil => "fossil",
            Channel::MagneticField => "magnetic_field",
        }
    }
}

/// Stable relation id of `(template_id, channel)`:
/// `template_id × 16 + channel_index`.
pub open spec fn relation_id_spec(template_id: int, channel: Channel) -> int {
    template_id * 16 + channel_index(channel)
}

/// Stable `relation_id` derived from `(template_id, channel)`. The
/// original overflows (and panics) once `template_id × 16` leaves
/// `u32`; those ids are excluded.
pub fn relation_id_for(template_id: u32, channel: Channel) -> (r: u32)
    requires
        template_id * 16 + 15 <= u32::MAX,
    ensures
        r == relation_id_spec(template_id as int, channel),
{
    template_id * 16 + channel.index()
}

/// Distinct `(template, channel)` pairs get distinct relation ids.
pub proof fn lemma_relation_id_injective(t1: int, c1: Channel, t2: int, c2: Channel)
    requires
        relation_id_spec(t1, c1) == relation_id_spec(t2, c2),
    ensures
        t1 == t2,
        c1 == c2,
{
    assert(channel_index(c1) < 16 && channel_index(c2) < 16);
    if t1 != t2 {
        assert(t1 * 16 - t2 * 16 == (t1 - t2) * 16) by (nonlinear_arith);
        if t1 < t2 {
            assert((t1 - t2) * 16 <= -16) by (nonlinear_arith) requires t1 - t2 <= -1;
        } else {
            assert((t1 - t2) * 16 >= 16) by (nonlinear_arith) requires t1 - t2 >= 1;
        }
    }
}

/// Species sensory modalities.
#[derive(Debug, Clone, Copy, PartialEq, Eq, Structural, PartialOrd, Ord, Hash)]
pub enum ModalityKind {
    VisualLight,
    VisualPolarization,
    InfraredThermal,
    ChemicalTaste,
    ChemicalPheromone,
    AcousticAir,
    AcousticWater,
    Seismic,
    ElectricField,
    MagneticSense,
    RadioNative,
    Tactile,
    Bioluminescent,
    Gestural,
    Postural,
}

/// The channels a sensory modality grants access to.
pub open spec fn modality_channels(m: ModalityKind) -> Seq<Channel> {
    match m {
        ModalityKind::VisualLight | ModalityKind::VisualPolarization => seq![
            Channel::Temperature,
            Channel::Elevation,
        ],
        ModalityKind::InfraredThermal => seq![Channel::Temperature],
        ModalityKind::ChemicalTaste | ModalityKind::ChemicalPheromone => seq![
            Channel::Vapour,
            Channel::Oxidiser,
        ],
        ModalityKind::AcousticAir | ModalityKind::AcousticWater | ModalityKind::Seismic => seq![
            Channel::WaterDepth,
            Channel::Elevation,
            Channel::Temperature,
        ],
        ModalityKind::ElectricField => seq![Channel::ChargeMagnitude],
        ModalityKind::MagneticSense | ModalityKind::RadioNative => seq![Channel::MagneticField],
        ModalityKind::Tactile => seq![Channel::Temperature, Channel::Elevation],
        ModalityKind::Bioluminescent | ModalityKind::Gestural | ModalityKind::Postural => seq![],
    }
}

/// Which physics channels a sensory modality grants: vision reads
/// temperature and terrain, thermal infrared reads temperature, taste
/// and smell read vapour and oxidiser, hearing and seismic sense read
/// water depth, terrain and temperature, electroreception reads charge,
/// magnetoreception reads `|B|`, touch reads temperature and terrain;
/// output-only modalities grant nothing.
pub fn channels_for_modality(modality: ModalityKind) -> (v: Vec<Channel>)
    ensures
        v@ == modality_channels(modality),
{
    match modality {
        ModalityKind::VisualLight | ModalityKind::VisualPolarization => {
            vec![Channel::Temperature, Channel::Elevation]
        },
        ModalityKind::InfraredThermal => vec![Channel::Temperature],
        ModalityKind::ChemicalTaste | ModalityKind::ChemicalPheromone => {
            vec![Channel::Vapour, Channel::Oxidiser]
        },
        ModalityKind::AcousticAir | ModalityKind::AcousticWater | ModalityKind::Seismic => {
            vec![Channel::WaterDepth, Channel::Elevation, Channel::Temperature]
        },
        ModalityKind::ElectricField => vec![Channel::ChargeMagnitude],
        ModalityKind::MagneticSense | ModalityKind::RadioNative => vec![Channel::MagneticField],
        ModalityKind::Tactile => vec![Channel::Temperature, Channel::Elevation],
        ModalityKind::Bioluminescent | ModalityKind::Gestural | ModalityKind::Postural => vec![],
    }
}

/// Whether some modality in `mods` grants channel `c`.
pub open spec fn granted_by(mods: Seq<ModalityKind>, c: Channel) -> bool {
    exists|i: int| 0 <= i < mods.len() && #[trigger] modality_channels(mods[i]).contains(c)
}

/// Whether a civ with these modalities perceives channel `c`: any
/// modality grants it, and `Fossil` and `Fuel` are always reachable.
pub open spec fn perceives(mods: Seq<ModalityKind>, c: Channel) -> bool {
    c == Channel::Fossil || c == Channel::Fuel || granted_by(mods, c)
}

/// Union of the channels reachable by any of the modalities, plus the
/// always-reachable `Fossil` and `Fuel`, in channel order without
/// repeats.
pub fn perceivable_channels(modalities: &Vec<ModalityKind>) -> (v: Vec<Channel>)
    ensures
        forall|c: Channel| v@.contains(c) <==> perceives(modalities@, c),
        forall|i: int, j: int|
            0 <= i < j < v.len() ==> channel_index(#[trigger] v[i]) < channel_index(#[trigger] v[j]),
{
    let mut seen: Vec<bool> = vec![false, false, false, false, false, false, false, false, false, false];
    let mut i: usize = 0;
    while i < modalities.len()
        invariant
            i <= modalities.len(),
            seen.len() == 10,
            forall|c: Channel|
                #![trigger channel_index(c)]
                seen[channel_index(c) as int] <==> granted_by(modalities@.subrange(0, i as int), c),
        decreases modalities.len() - i,
    {
        let chans = channels_for_modality(modalities[i]);
        let mut j: usize = 0;
        while j < chans.len()
            invariant
                i < modalities.len(),
                j <= chans.len(),
                chans@ == modality_channels(modalities@[i as int]),
                seen.len() == 10,
                forall|c: Channel|
                    #![trigger channel_index(c)]
                    seen[channel_index(c) as int] <==> (granted_by(
                        modalities@.subrange(0, i as int),
                        c,
                    ) || chans@.subrange(0, j as int).contains(c)),
            decreases chans.len() - j,
        {
            let k = chans[j].index() as usize;
            seen.set(k, true);
            proof {
                assert forall|c: Channel| #![trigger channel_index(c)]
                    seen[channel_index(c) as int] <==> (granted_by(
                        modalities@.subrange(0, i as int),
                        c,
                    ) || chans@.subrange(0, j + 1).contains(c)) by {
                    assert(chans@.subrange(0, j + 1) =~= chans@.subrange(0, j as int).push(chans@[j as int]));
                    lemma_push_contains(chans@.subrange(0, j as int), chans@[j as int], c);
                    if c == chans@[j as int] {
                        assert(channel_index(c) == k);
                    }
                    if channel_index(c) == k {
                        lemma_channel_index_injective(c, chans@[j as int]);
                    }
                }
            }
            j = j + 1;
        }
        proof {
            assert(chans@.subrange(0, j as int) =~= chans@);
            assert forall|c: Channel| #![trigger channel_index(c)]
                seen[channel_index(c) as int] <==> granted_by(modalities@.subrange(0, i + 1), c) by {
                let sub = modalities@.subrange(0, i + 1);
                if granted_by(modalities@.subrange(0, i as int), c) {
                    let w = choose|w: int| 0 <= w < i && #[trigger] modality_channels(modalities@.subrange(0, i as int)[w]).contains(c);
                    assert(sub[w] == modalities@.subrange(0, i as int)[w]);
                }
                if chans@.contains(c) {
                    assert(sub[i as int] == modalities@[i as int]);
                }
                if granted_by(sub, c) {
                    let w = choose|w: int| 0 <= w < i + 1 && #[trigger] modality_channels(sub[w]).contains(c);
                    if w < i {
                        assert(modalities@.subrange(0, i as int)[w] == sub[w]);
                    }
                }
            }
        }
        i = i + 1;
    }
    seen.set(8, true);
    seen.set(4, true);
    assert(modalities@.subrange(0, i as int) =~= modalities@);
    let all = Channel::all();
    let mut out: Vec<Channel> = Vec::new();
    let mut k: usize = 0;
    while k < 10
        invariant
            k <= 10,
            all@ == all_channels(),
            seen.len() == 10,
            forall|c: Channel|
                #![trigger channel_index(c)]
                seen[channel_index(c) as int] <==> perceives(modalities@, c),
            forall|c: Channel| out@.contains(c) <==> (perceives(modalities@, c) && channel_index(c) < k),
            forall|a: int| 0 <= a < out.len() ==> channel_index(#[trigger] out[a]) < k,
            forall|a: int, b: int|
                0 <= a < b < out.len() ==> channel_index(#[trigger] out[a]) < channel_index(#[trigger] out[b]),
        decreases 10 - k,
    {
        let c = all[k];
        proof {
            assert(channel_index(c) == k);
        }
        let ghost old_out = out@;
        if seen[k] {
            out.push(c);
        }
        proof {
            assert forall|d: Channel| out@.contains(d) <==> (perceives(modalities@, d) && channel_index(d) < k + 1) by {
                if channel_index(d) == k {
                    lemma_channel_index_injective(d, c);
                }
                if seen[k as int] {
                    assert(out@ == old_out.push(c));
                    lemma_push_contains(old_out, c, d);
                } else {
                    assert(out@ == old_out);
                }
                if old_out.contains(d) {
                    let w = choose|w: int| 0 <= w < old_out.len() && old_out[w] == d;
                    assert(channel_index(old_out[w]) < k);
                }
            }
        }
        k = k + 1;
    }
    out
}

/// An element is in `s.push(x)` exactly when it is in `s` or is `x`.
pub proof fn lemma_push_contains<T>(s: Seq<T>, x: T, c: T)
    ensures
        s.push(x).contains(c) <==> (s.contains(c) || c == x),
{
    let t = s.push(x);
    if c == x {
        assert(t[s.len() as int] == c);
    }
    if s.contains(c) {
        let w = choose|w: int| 0 <= w < s.len() && s[w] == c;
        assert(t[w] == c);
    }
    if t.contains(c) {
        let w = choose|w: int| 0 <= w < t.len() && t[w] == c;
        if w < s.len() {
            assert(s[w] == c);
        }
    }
}

/// Different channels sit at different positions.
pub proof fn lemma_channel_index_injective(a: Channel, b: Channel)
    requires
        channel_index(a) == channel_index(b),
    ensures
        a == b,
{
}


/// Largest magnitude (in Q32.32 bits, `2^26` in value) of a physics
/// field reading; sums over a cell's neighbourhood stay in range.
pub const FIELD_LIMIT: i64 = 0x0400_0000_0000_0000;

/// Per-cell physics fields, as plain values, and the hex-grid
/// neighbourhood of each cell.
pub struct PhysicsView {
    pub temperature: Vec<Real>,
    pub water_depth: Vec<Real>,
    pub charge: Vec<Real>,
    pub elevation: Vec<Real>,
    pub fuel: Vec<Real>,
    pub oxidiser: Vec<Real>,
    pub vapour: Vec<Real>,
    pub ice: Vec<Real>,
    pub fossil: Vec<Real>,
    pub magnetic_magnitude: Vec<Real>,
    /// Indices of each cell's (up to six) neighbours.
    pub neighbours: Vec<Vec<usize>>,
}

impl PhysicsView {
    /// Number of cells.
    pub open spec fn n_cells(&self) -> nat {
        self.temperature@.len()
    }

    /// The stored field a channel reads.
    pub open spec fn field(&self, c: Channel) -> Seq<Real> {
        match c {
            Channel::Temperature => self.temperature@,
            Channel::WaterDepth => self.water_depth@,
            Channel::ChargeMagnitude => self.charge@,
            Channel::Elevation => self.elevation@,
            Channel::Fuel => self.fuel@,
            Channel::Oxidiser => self.oxidiser@,
            Channel::Vapour => self.vapour@,
            Channel::Ice => self.ice@,
            Channel::Fossil => self.fossil@,
            Channel::MagneticField => self.magnetic_magnitude@,
        }
    }

    /// Every field has one bounded reading per cell, and every cell has
    /// at most six neighbours, all in range.
    pub open spec fn wf(&self) -> bool {
        &&& forall|c: Channel| #[trigger] self.field(c).len() == self.n_cells()
        &&& forall|c: Channel, i: int|
            0 <= i < self.n_cells() ==> abs_int(#[trigger] self.field(c)[i]@) <= FIELD_LIMIT
        &&& self.neighbours.len() == self.n_cells()
        &&& forall|i: int| 0 <= i < self.n_cells() ==> #[trigger] self.neighbours[i].len() <= 6
        &&& forall|i: int, j: int|
            0 <= i < self.n_cells() && 0 <= j < self.neighbours[i].len() ==> #[trigger] self.neighbours[i][j]
                < self.n_cells()
    }

    /// The channel's raw reading at a cell (charge by magnitude).
    pub open spec fn raw_spec(&self, c: Channel, cell: int) -> int {
        if c == Channel::ChargeMagnitude {
            abs_int(self.charge@[cell]@)
        } else {
            self.field(c)[cell]@
        }
    }

    /// The channel's reading at a cell in fit space (raw / scale).
    pub open spec fn read_spec(&self, c: Channel, cell: int) -> int {
        div_bits(self.raw_spec(c, cell), int_bits(channel_scale(c)))
    }

    /// Sum of the channel's readings over a list of cells.
    pub open spec fn sum_reads(&self, c: Channel, cells: Seq<usize>) -> int
        decreases cells.len(),
    {
        if cells.len() == 0 {
            0
        } else {
            self.sum_reads(c, cells.drop_last()) + self.read_spec(c, cells.last() as int)
        }
    }

    /// Sum of `reading(n) − reading(cell)` over a list of cells `n`.
    pub open spec fn sum_diffs(&self, c: Channel, cells: Seq<usize>, cell: int) -> int
        decreases cells.len(),
    {
        if cells.len() == 0 {
            0
        } else {
            self.sum_diffs(c, cells.drop_last(), cell) + (self.read_spec(c, cells.last() as int)
                - self.read_spec(c, cell))
        }
    }
}

/// A fit-space reading is bounded by the field limit.
proof fn lemma_read_bound(state: &PhysicsView, c: Channel, cell: int)
    requires
        state.wf(),
        0 <= cell < state.n_cells(),
    ensures
        abs_int(state.read_spec(c, cell)) <= FIELD_LIMIT,
{
    assert(abs_int(state.field(c)[cell]@) <= FIELD_LIMIT);
    assert(state.field(Channel::ChargeMagnitude) == state.charge@);
    assert(abs_int(state.charge@[cell]@) <= FIELD_LIMIT);
    lemma_div_int_bound(state.raw_spec(c, cell), channel_scale(c));
}

impl Channel {
    /// The channel's reading at `cell`, in fit space.
    pub fn read(self, state: &PhysicsView, cell: usize) -> (r: Real)
        requires
            state.wf(),
            cell < state.n_cells(),
        ensures
            r@ == state.read_spec(self, cell as int),
    {
        proof {
            assert(abs_int(state.field(self)[cell as int]@) <= FIELD_LIMIT);
            assert(state.field(Channel::ChargeMagnitude) == state.charge@);
            assert(abs_int(state.charge@[cell as int]@) <= FIELD_LIMIT);
            assert(state.field(self).len() == state.n_cells());
            assert(state.field(Channel::ChargeMagnitude).len() == state.n_cells());
        }
        let raw = match self {
            Channel::Temperature => state.temperature[cell],
            Channel::WaterDepth => state.water_depth[cell],
            Channel::ChargeMagnitude => state.charge[cell].abs(),
            Channel::Elevation => state.elevation[cell],
            Channel::Fuel => state.fuel[cell],
            Channel::Oxidiser => state.oxidiser[cell],
            Channel::Vapour => state.vapour[cell],
            Channel::Ice => state.ice[cell],
            Channel::Fossil => state.fossil[cell],
            Channel::MagneticField => state.magnetic_magnitude[cell],
        };
        proof {
            lemma_div_int_bound(raw@, channel_scale(self));
        }
        raw.div(self.scale())
    }
}

/// A measurement axis: a channel read directly, averaged over the
/// neighbours, as the discrete Laplacian, or as its change since the
/// previous tick.
#[derive(Debug, Clone, Copy, PartialEq, Eq, Structural, PartialOrd, Ord, Hash)]
pub enum MeasurementChannel {
    Direct(Channel),
    NeighbourMean(Channel),
    /// `Σ(neighbour value − cell value)` over the hex neighbours.
    Laplacian(Channel),
    /// `current[cell] − previous[cell]`; unreadable without a previous
    /// tick.
    TemporalDelta(Channel),
}

/// The physics channel under a measurement axis.
pub open spec fn measurement_base(m: MeasurementChannel) -> Channel {
    match m {
        MeasurementChannel::Direct(ch) => ch,
        MeasurementChannel::NeighbourMean(ch) => ch,
        MeasurementChannel::Laplacian(ch) => ch,
        MeasurementChannel::TemporalDelta(ch) => ch,
    }
}

/// Kind index × 16 + channel index of a measurement axis.
pub open spec fn measurement_discriminant(m: MeasurementChannel) -> nat {
    let kind: nat = match m {
        MeasurementChannel::Direct(_) => 0,
        MeasurementChannel::NeighbourMean(_) => 1,
        MeasurementChannel::Laplacian(_) => 2,
        MeasurementChannel::TemporalDelta(_) => 3,
    };
    kind * 16 + channel_index(measurement_base(m))
}

/// Protocol tag of a measurement axis.
pub open spec fn measurement_tag(m: MeasurementChannel) -> Seq<char> {
    match m {
        MeasurementChannel::Direct(ch) => channel_tag(ch),
        MeasurementChannel::NeighbourMean(ch) => "neighbour_mean_"@ + channel_tag(ch),
        MeasurementChannel::Laplacian(ch) => "laplacian_"@ + channel_tag(ch),
        MeasurementChannel::TemporalDelta(ch) => "delta_"@ + channel_tag(ch),
    }
}

/// Distinct measurement axes carry distinct tags: the `neighbour_mean_`,
/// `laplacian_` and `delta_` prefixes start with letters no channel tag
/// starts with, and under one prefix the channel tags are distinct.
pub proof fn lemma_measurement_tags_distinct(a: MeasurementChannel, b: MeasurementChannel)
    ensures
        measurement_tag(a) == measurement_tag(b) ==> a == b,
{
    let ca = measurement_base(a);
    let cb = measurement_base(b);
    lemma_channel_tag_shape(ca);
    lemma_channel_tag_shape(cb);
    lemma_channel_tags_distinct(ca, cb);
    reveal_strlit("neighbour_mean_");
    reveal_strlit("laplacian_");
    reveal_strlit("delta_");
    if measurement_tag(a) == measurement_tag(b) {
        let ta = measurement_tag(a);
        assert(ta[0] == measurement_tag(b)[0]);
        let pa: Seq<char> = match a {
            MeasurementChannel::Direct(_) => Seq::empty(),
            MeasurementChannel::NeighbourMean(_) => "neighbour_mean_"@,
            MeasurementChannel::Laplacian(_) => "laplacian_"@,
            MeasurementChannel::TemporalDelta(_) => "delta_"@,
        };
        let pb: Seq<char> = match b {
            MeasurementChannel::Direct(_) => Seq::empty(),
            MeasurementChannel::NeighbourMean(_) => "neighbour_mean_"@,
            MeasurementChannel::Laplacian(_) => "laplacian_"@,
            MeasurementChannel::TemporalDelta(_) => "delta_"@,
        };
        assert(ta == pa + channel_tag(ca));
        assert(measurement_tag(b) == pb + channel_tag(cb));
        if pa == pb {
            assert(channel_tag(ca) =~= ta.subrange(pa.len() as int, ta.len() as int));
            assert(channel_tag(cb) =~= ta.subrange(pb.len() as int, ta.len() as int));
        } else {
            assert((pa + channel_tag(ca))[0] == (if pa.len() > 0 { pa[0] } else { channel_tag(ca)[0] }));
            assert((pb + channel_tag(cb))[0] == (if pb.len() > 0 { pb[0] } else { channel_tag(cb)[0] }));
        }
    }
}

/// The value a measurement axis reads at a cell.
pub open spec fn measurement_read_spec(
    m: MeasurementChannel,
    state: PhysicsView,
    prev: Option<PhysicsView>,
    cell: int,
) -> Option<int> {
    match m {
        MeasurementChannel::Direct(ch) => Some(state.read_spec(ch, cell)),
        MeasurementChannel::NeighbourMean(ch) => Some(
            div_bits(state.sum_reads(ch, state.neighbours@[cell]@), int_bits(6)),
        ),
        MeasurementChannel::Laplacian(ch) => Some(
            state.sum_diffs(ch, state.neighbours@[cell]@, cell),
        ),
        MeasurementChannel::TemporalDelta(ch) => match prev {
            None => None,
            Some(p) => Some(state.read_spec(ch, cell) - p.read_spec(ch, cell)),
        },
    }
}

impl MeasurementChannel {
    /// The underlying physics channel.
    pub fn channel(self) -> (c: Channel)
        ensures
            c == measurement_base(self),
    {
        match self {
            MeasurementChannel::Direct(ch) => ch,
            MeasurementChannel::NeighbourMean(ch) => ch,
            MeasurementChannel::Laplacian(ch) => ch,
            MeasurementChannel::TemporalDelta(ch) => ch,
        }
    }

    /// Snake-case tag for the protocol payload.
    pub fn tag(self) -> (s: String)
        ensures
            s@ == measurement_tag(self),
    {
        match self {
            MeasurementChannel::Direct(ch) => String::from_str(ch.tag()),
            MeasurementChannel::NeighbourMean(ch) => {
                let mut s = String::from_str("neighbour_mean_");
                s.append(ch.tag());
                s
            },
            MeasurementChannel::Laplacian(ch) => {
                let mut s = String::from_str("laplacian_");
                s.append(ch.tag());
                s
            },
            MeasurementChannel::TemporalDelta(ch) => {
                let mut s = String::from_str("delta_");
                s.append(ch.tag());
                s
            },
        }
    }

    /// Kind index × 16 + channel index.
    pub fn discriminant(self) -> (d: u32)
        ensures
            d == measurement_discriminant(self),
    {
        let kind: u32 = match self {
            MeasurementChannel::Direct(_) => 0,
            MeasurementChannel::NeighbourMean(_) => 1,
            MeasurementChannel::Laplacian(_) => 2,
            MeasurementChannel::TemporalDelta(_) => 3,
        };
        kind * 16 + self.channel().index()
    }

    /// The measurement's value at `cell`, in fit space. `None` only for
    /// a temporal delta without a previous tick.
    pub fn read(self, state: &PhysicsView, prev_state: Option<&PhysicsView>, cell: usize) -> (r:
        Option<Real>)
        requires
            state.wf(),
            cell < state.n_cells(),
            prev_state matches Some(p) ==> p.wf() && p.n_cells() == state.n_cells(),
        ensures
            r matches Some(v) ==> measurement_read_spec(
                self,
                *state,
                match prev_state {
                    Some(p) => Some(*p),
                    None => None,
                },
                cell as int,
            ) == Some(v@),
            r is None <==> measurement_read_spec(
                self,
                *state,
                match prev_state {
                    Some(p) => Some(*p),
                    None => None,
                },
                cell as int,
            ) is None,
    {
        match self {
            MeasurementChannel::Direct(ch) => Some(ch.read(state, cell)),
            MeasurementChannel::NeighbourMean(ch) => {
                let nbs = &state.neighbours[cell];
                let mut sum = Real::zero();
                let mut i: usize = 0;
                while i < nbs.len()
                    invariant
                        state.wf(),
                        cell < state.n_cells(),
                        *nbs == state.neighbours@[cell as int],
                        i <= nbs.len() <= 6,
                        sum@ == state.sum_reads(ch, nbs@.subrange(0, i as int)),
                        abs_int(sum@) <= i * 0x0400_0000_0000_0000,
                    decreases nbs.len() - i,
                {
                    let nb = nbs[i];
                    proof {
                        lemma_read_bound(state, ch, nb as int);
                        assert(nbs@.subrange(0, i + 1).drop_last() =~= nbs@.subrange(0, i as int));
                    }
                    sum = sum.add(ch.read(state, nb));
                    i = i + 1;
                }
                proof {
                    assert(nbs@.subrange(0, i as int) =~= nbs@);
                    lemma_div_int_bound(sum@, 6);
                }
                Some(sum.div(Real::from_int(6)))
            },
            MeasurementChannel::Laplacian(ch) => {
                let nbs = &state.neighbours[cell];
                let self_v = ch.read(state, cell);
                proof {
                    lemma_read_bound(state, ch, cell as int);
                }
                let mut sum = Real::zero();
                let mut i: usize = 0;
                while i < nbs.len()
                    invariant
                        state.wf(),
                        cell < state.n_cells(),
                        *nbs == state.neighbours@[cell as int],
                        self_v@ == state.read_spec(ch, cell as int),
                        abs_int(self_v@) <= FIELD_LIMIT,
                        i <= nbs.len() <= 6,
                        sum@ == state.sum_diffs(ch, nbs@.subrange(0, i as int), cell as int),
                        abs_int(sum@) <= i * 0x0800_0000_0000_0000,
                    decreases nbs.len() - i,
                {
                    let nb = nbs[i];
                    proof {
                        lemma_read_bound(state, ch, nb as int);
                        assert(nbs@.subrange(0, i + 1).drop_last() =~= nbs@.subrange(0, i as int));
                    }
                    let v = ch.read(state, nb);
                    sum = sum.add(v.sub(self_v));
                    i = i + 1;
                }
                proof {
                    assert(nbs@.subrange(0, i as int) =~= nbs@);
                }
                Some(sum)
            },
            MeasurementChannel::TemporalDelta(ch) => {
                match prev_state {
                    None => None,
                    Some(prev) => {
                        proof {
                            lemma_read_bound(state, ch, cell as int);
                            lemma_read_bound(prev, ch, cell as int);
                        }
                        Some(ch.read(state, cell).sub(ch.read(prev, cell)))
                    },
                }
            },
        }
    }
}

/// Stable id of a measurement relation `(y, x)`, disjoint from the
/// firing-relation ids: `1 000 000 + 256·disc(y) + disc(x)`.
pub open spec fn measurement_relation_id_spec(y: MeasurementChannel, x: MeasurementChannel) -> int {
    (1_000_000 + measurement_discriminant(y) * 256 + measurement_discriminant(x)) as int
}

/// Stable id for a measurement relation.
pub fn measurement_relation_id(y: MeasurementChannel, x: MeasurementChannel) -> (r: u32)
    ensures
        r == measurement_relation_id_spec(y, x),
        1_000_000 <= r < 1_016_384,
{
    1_000_000 + y.discriminant() * 256 + x.discriminant()
}

/// Distinct `(y, x)` measurement pairs get distinct ids.
pub proof fn lemma_measurement_relation_id_injective(
    y1: MeasurementChannel,
    x1: MeasurementChannel,
    y2: MeasurementChannel,
    x2: MeasurementChannel,
)
    requires
        measurement_relation_id_spec(y1, x1) == measurement_relation_id_spec(y2, x2),
    ensures
        y1 == y2,
        x1 == x2,
{
    let d1 = measurement_discriminant(y1);
    let d2 = measurement_discriminant(y2);
    let e1 = measurement_discriminant(x1);
    let e2 = measurement_discriminant(x2);
    assert(e1 < 64 && e2 < 64 && d1 < 64 && d2 < 64);
    if d1 != d2 {
        assert(d1 * 256 - d2 * 256 == (d1 - d2) * 256) by (nonlinear_arith);
        if d1 < d2 {
            assert((d1 - d2) * 256 <= -256) by (nonlinear_arith) requires d1 - d2 <= -1;
        } else {
            assert((d1 - d2) * 256 >= 256) by (nonlinear_arith) requires d1 - d2 >= 1;
        }
    }
    lemma_measurement_discriminant_injective(y1, y2);
    lemma_measurement_discriminant_injective(x1, x2);
}

/// Different measurement axes have different discriminants.
proof fn lemma_measurement_discriminant_injective(a: MeasurementChannel, b: MeasurementChannel)
    requires
        measurement_discriminant(a) == measurement_discriminant(b),
    ensures
        a == b,
{
    lemma_channel_index_injective_when_equal(measurement_base(a), measurement_base(b));
}

/// Channel indices below 16 separate channels.
proof fn lemma_channel_index_injective_when_equal(a: Channel, b: Channel)
    ensures
        channel_index(a) == channel_index(b) ==> a == b,
        channel_index(a) < 16,
{
}

} // verus!
