//! Emergent recognition templates. When a civ confirms a threshold-step
//! law on a channel that maps to a recognition field, the species gains
//! a template firing wherever that field passes the same threshold,
//! unless an authored or earlier discovered template already covers
//! the threshold within 20% (relative, with a floor of 1).

use crate::arith::{max_bits, mul_bits, mul_ok, ratio_bits, scale, fits, Real};
use crate::discovery::channels::Channel;
use crate::discovery::tool_emergence::saturating_id;
use crate::discovery::types::ConfirmedRelation;
use crate::forms::Form;
use crate::text::{decimal, decimal_string};
use crate::transcendental::abs_int;
use crate::world::{ChannelKind, Substance};
use vstd::prelude::*;
use vstd::string::StringExecFns;

verus! {

/// Cadence of the emergence-discovery scan, in ticks.
pub const EMERGENCE_CHECK_PERIOD_TICKS: u64 = 600;

/// Whether `tick` is an emergence-check tick.
pub fn is_emergence_tick(tick: u64) -> (b: bool)
    ensures
        b == (tick > 0 && tick % 600 == 0),
{
    tick > 0 && tick % EMERGENCE_CHECK_PERIOD_TICKS == 0
}

/// A physics field the recognition layer reads.
#[derive(Debug, Clone, Copy, PartialEq, Eq, Structural)]
pub enum Field {
    Temperature,
    Charge,
    WaterDepth,
    Substance(Substance),
    MagneticMagnitude,
    WindMagnitude,
}

/// Form families a template prefers when fitting.
#[derive(Debug, Clone, Copy, PartialEq, Eq, Structural)]
pub enum FormTag {
    /// Threshold-style (step) fits.
    Threshold,
}

/// A recognition signature: a threshold on a field, or a composite of
/// signatures.
#[derive(Debug)]
pub enum Signature {
    Above(Field, Real),
    Below(Field, Real),
    AbsAbove(Field, Real),
    All(Vec<Signature>),
    Any(Vec<Signature>),
}

/// A species-level template discovered by one of its civs.
#[derive(Debug)]
pub struct DiscoveredTemplate {
    pub id: u32,
    pub name: String,
    pub signature: Signature,
    pub tags: Vec<FormTag>,
    pub channels: Vec<ChannelKind>,
    pub discovered_at_tick: u64,
    pub discovered_by_civ_id: u32,
    pub origin_template_id: u32,
}

/// One emergent-template proposal for the caller to register and
/// announce.
#[derive(Debug)]
pub struct EmergentTemplateProposal {
    pub template: DiscoveredTemplate,
    pub proposing_civ_id: u32,
    /// Template whose confirmed fit produced the proposal.
    pub origin_template_id: u32,
}

/// The recognition field a measurement channel corresponds to;
/// elevation has none.
pub open spec fn channel_field_of(c: Channel) -> Option<Field> {
    match c {
        Channel::Temperature => Some(Field::Temperature),
        Channel::WaterDepth => Some(Field::WaterDepth),
        Channel::ChargeMagnitude => Some(Field::Charge),
        Channel::MagneticField => Some(Field::MagneticMagnitude),
        Channel::Fuel => Some(Field::Substance(Substance::Fuel)),
        Channel::Oxidiser => Some(Field::Substance(Substance::Oxidiser)),
        Channel::Vapour => Some(Field::Substance(Substance::Vapour)),
        Channel::Ice => Some(Field::Substance(Substance::Ice)),
        Channel::Fossil => Some(Field::Substance(Substance::Fossil)),
        Channel::Elevation => None,
    }
}

/// The recognition field `channel` corresponds to.
pub fn channel_to_field(channel: Channel) -> (f: Option<Field>)
    ensures
        f == channel_field_of(channel),
{
    match channel {
        Channel::Temperature => Some(Field::Temperature),
        Channel::WaterDepth => Some(Field::WaterDepth),
        Channel::ChargeMagnitude => Some(Field::Charge),
        Channel::MagneticField => Some(Field::MagneticMagnitude),
        Channel::Fuel => Some(Field::Substance(Substance::Fuel)),
        Channel::Oxidiser => Some(Field::Substance(Substance::Oxidiser)),
        Channel::Vapour => Some(Field::Substance(Substance::Vapour)),
        Channel::Ice => Some(Field::Substance(Substance::Ice)),
        Channel::Fossil => Some(Field::Substance(Substance::Fossil)),
        Channel::Elevation => None,
    }
}

/// The senses through which a field is naturally read.
pub open spec fn natural_channels_of(f: Field) -> Seq<ChannelKind> {
    match f {
        Field::Temperature => seq![ChannelKind::InfraredThermal, ChannelKind::VisualLight],
        Field::Charge => seq![ChannelKind::ElectricField],
        Field::WaterDepth => seq![ChannelKind::Tactile, ChannelKind::AcousticWater],
        Field::Substance(_) => seq![ChannelKind::ChemicalTaste],
        Field::MagneticMagnitude => seq![ChannelKind::MagneticSense],
        Field::WindMagnitude => seq![ChannelKind::Tactile, ChannelKind::AcousticAir],
    }
}

/// The senses a template on `field` belongs to.
pub fn natural_channels(field: Field) -> (v: Vec<ChannelKind>)
    ensures
        v@ == natural_channels_of(field),
{
    let v = match field {
        Field::Temperature => vec![ChannelKind::InfraredThermal, ChannelKind::VisualLight],
        Field::Charge => vec![ChannelKind::ElectricField],
        Field::WaterDepth => vec![ChannelKind::Tactile, ChannelKind::AcousticWater],
        Field::Substance(_) => vec![ChannelKind::ChemicalTaste],
        Field::MagneticMagnitude => vec![ChannelKind::MagneticSense],
        Field::WindMagnitude => vec![ChannelKind::Tactile, ChannelKind::AcousticAir],
    };
    assert(v@ =~= natural_channels_of(field));
    v
}

/// Word a template name uses for its field.
pub open spec fn field_label_of(f: Field) -> Seq<char> {
    match f {
        Field::Temperature => "temperature"@,
        Field::Charge => "charge"@,
        Field::WaterDepth => "water_depth"@,
        Field::Substance(s) => match s {
            Substance::Water => "water"@,
            Substance::Ice => "ice"@,
            Substance::Vapour => "vapour"@,
            Substance::Fuel => "fuel"@,
            Substance::Oxidiser => "oxidiser"@,
            Substance::Ash => "ash"@,
            Substance::Fossil => "fossil"@,
        },
        Field::MagneticMagnitude => "magnetic_magnitude"@,
        Field::WindMagnitude => "wind_magnitude"@,
    }
}

/// The word a template name uses for `field`.
pub fn field_label(field: Field) -> (s: &'static str)
    ensures
        s@ == field_label_of(field),
{
    match field {
        Field::Temperature => "temperature",
        Field::Charge => "charge",
        Field::WaterDepth => "water_depth",
        Field::Substance(s) => match s {
            Substance::Water => "water",
            Substance::Ice => "ice",
            Substance::Vapour => "vapour",
            Substance::Fuel => "fuel",
            Substance::Oxidiser => "oxidiser",
            Substance::Ash => "ash",
            Substance::Fossil => "fossil",
        },
        Field::MagneticMagnitude => "magnetic_magnitude",
        Field::WindMagnitude => "wind_magnitude",
    }
}

/// Allowed gap around a threshold: `max(|t|, 1) × 20%`.
pub open spec fn allowed_gap(threshold: int) -> int {
    mul_bits(max_bits(abs_int(threshold), scale()), ratio_bits(20, 100))
}

/// Whether a threshold leaf on `field` lies within `gap` of `threshold`.
pub open spec fn leaf_covers(sig: Signature, field: Field, threshold: int, gap: int) -> bool {
    match sig {
        Signature::Above(f, t) => f == field && abs_int(t@ - threshold) < gap,
        Signature::Below(f, t) => f == field && abs_int(t@ - threshold) < gap,
        Signature::AbsAbove(f, t) => f == field && abs_int(t@ - threshold) < gap,
        _ => false,
    }
}

/// Whether a signature covers `(field, threshold)`: a leaf by itself,
/// a composite through any of its direct leaves.
pub open spec fn sig_covers(sig: Signature, field: Field, threshold: int, gap: int) -> bool {
    match sig {
        Signature::All(subs) => exists|i: int|
            0 <= i < subs@.len() && leaf_covers(#[trigger] subs@[i], field, threshold, gap),
        Signature::Any(subs) => exists|i: int|
            0 <= i < subs@.len() && leaf_covers(#[trigger] subs@[i], field, threshold, gap),
        _ => leaf_covers(sig, field, threshold, gap),
    }
}

/// The difference a leaf on `field` takes with `threshold` fits.
pub open spec fn leaf_diff_fits(sig: Signature, field: Field, threshold: int) -> bool {
    match sig {
        Signature::Above(f, t) => f == field ==> fits(abs_int(t@ - threshold)),
        Signature::Below(f, t) => f == field ==> fits(abs_int(t@ - threshold)),
        Signature::AbsAbove(f, t) => f == field ==> fits(abs_int(t@ - threshold)),
        _ => true,
    }
}

/// Every difference the coverage test takes with `threshold` fits.
pub open spec fn sig_diffs_fit(sig: Signature, field: Field, threshold: int) -> bool {
    match sig {
        Signature::All(subs) => forall|i: int|
            0 <= i < subs@.len() ==> leaf_diff_fits(#[trigger] subs@[i], field, threshold),
        Signature::Any(subs) => forall|i: int|
            0 <= i < subs@.len() ==> leaf_diff_fits(#[trigger] subs@[i], field, threshold),
        _ => leaf_diff_fits(sig, field, threshold),
    }
}

/// `(field, threshold)` is covered by an authored signature or by a
/// discovered template.
pub open spec fn covered(
    field: Field,
    threshold: int,
    library: Seq<Signature>,
    discovered: Seq<DiscoveredTemplate>,
) -> bool {
    let gap = allowed_gap(threshold);
    ||| exists|i: int|
        0 <= i < library.len() && sig_covers(#[trigger] library[i], field, threshold, gap)
    ||| exists|i: int|
        0 <= i < discovered.len() && sig_covers(
            #[trigger] discovered[i].signature,
            field,
            threshold,
            gap,
        )
}

/// The coverage test can run without overflow.
pub open spec fn coverage_ok(
    field: Field,
    threshold: int,
    library: Seq<Signature>,
    discovered: Seq<DiscoveredTemplate>,
) -> bool {
    &&& threshold != i64::MIN
    &&& forall|i: int|
        0 <= i < library.len() ==> sig_diffs_fit(#[trigger] library[i], field, threshold)
    &&& forall|i: int|
        0 <= i < discovered.len() ==> sig_diffs_fit(
            #[trigger] discovered[i].signature,
            field,
            threshold,
        )
}

fn leaf_matches(sig: &Signature, field: Field, threshold: Real, gap: Real) -> (b: bool)
    requires
        leaf_diff_fits(*sig, field, threshold@),
    ensures
        b == leaf_covers(*sig, field, threshold@, gap@),
{
    match sig {
        Signature::Above(f, t) | Signature::Below(f, t) | Signature::AbsAbove(f, t) => {
            if *f == field {
                let diff = if t.bits > threshold.bits {
                    t.sub(threshold)
                } else {
                    threshold.sub(*t)
                };
                diff.bits < gap.bits
            } else {
                false
            }
        },
        _ => false,
    }
}

fn any_leaf_matches(subs: &Vec<Signature>, field: Field, threshold: Real, gap: Real) -> (b: bool)
    requires
        forall|k: int| 0 <= k < subs@.len() ==> leaf_diff_fits(#[trigger] subs@[k], field, threshold@),
    ensures
        b == exists|i: int| 0 <= i < subs@.len() && leaf_covers(#[trigger] subs@[i], field, threshold@, gap@),
{
    let mut i: usize = 0;
    while i < subs.len()
        invariant
            i <= subs.len(),
            forall|k: int| 0 <= k < subs@.len() ==> leaf_diff_fits(#[trigger] subs@[k], field, threshold@),
            forall|k: int| 0 <= k < i ==> !leaf_covers(#[trigger] subs@[k], field, threshold@, gap@),
        decreases subs.len() - i,
    {
        if leaf_matches(&subs[i], field, threshold, gap) {
            assert(leaf_covers(subs@[i as int], field, threshold@, gap@));
            return true;
        }
        i += 1;
    }
    false
}

fn signature_matches(sig: &Signature, field: Field, threshold: Real, gap: Real) -> (b: bool)
    requires
        sig_diffs_fit(*sig, field, threshold@),
    ensures
        b == sig_covers(*sig, field, threshold@, gap@),
{
    match sig {
        Signature::All(subs) => any_leaf_matches(subs, field, threshold, gap),
        Signature::Any(subs) => any_leaf_matches(subs, field, threshold, gap),
        _ => leaf_matches(sig, field, threshold, gap),
    }
}

fn allowed_gap_of(threshold: Real) -> (gap: Real)
    requires
        threshold@ != i64::MIN,
    ensures
        gap@ == allowed_gap(threshold@),
{
    let tolerance = Real::percent(20);
    let one = Real::one();
    let a = threshold.abs();
    let scale_v = if a.bits > one.bits {
        a
    } else {
        one
    };
    proof {
        crate::arith::lemma_ratio_unit(20, 100);
        assert(0 <= scale_v@ <= i64::MAX);
        assert(mul_ok(scale_v@, tolerance@)) by (nonlinear_arith)
            requires
                0 <= scale_v@ <= 0x7fff_ffff_ffff_ffff,
                0 <= tolerance@ <= 4294967296;
    }
    scale_v.mul(tolerance)
}

/// Whether `(field, threshold)` is already covered by an authored
/// signature (`library`) or a previously discovered template, within
/// `max(|threshold|, 1) × 20%`.
pub fn already_covered(
    field: Field,
    threshold: Real,
    library: &Vec<Signature>,
    discovered: &Vec<DiscoveredTemplate>,
) -> (b: bool)
    requires
        coverage_ok(field, threshold@, library@, discovered@),
    ensures
        b == covered(field, threshold@, library@, discovered@),
{
    let gap = allowed_gap_of(threshold);
    let mut i: usize = 0;
    while i < library.len()
        invariant
            i <= library.len(),
            coverage_ok(field, threshold@, library@, discovered@),
            gap@ == allowed_gap(threshold@),
            forall|k: int| 0 <= k < i ==> !sig_covers(#[trigger] library@[k], field, threshold@, gap@),
        decreases library.len() - i,
    {
        if signature_matches(&library[i], field, threshold, gap) {
            return true;
        }
        i += 1;
    }
    let mut j: usize = 0;
    while j < discovered.len()
        invariant
            j <= discovered.len(),
            coverage_ok(field, threshold@, library@, discovered@),
            gap@ == allowed_gap(threshold@),
            forall|k: int| 0 <= k < library@.len() ==> !sig_covers(#[trigger] library@[k], field, threshold@, gap@),
            forall|k: int|
                0 <= k < j ==> !sig_covers(#[trigger] discovered@[k].signature, field, threshold@, gap@),
        decreases discovered.len() - j,
    {
        if signature_matches(&discovered[j].signature, field, threshold, gap) {
            return true;
        }
        j += 1;
    }
    false
}


/// Bound on the thresholds the scan compares: half the Q32.32 range,
/// so every difference of two of them is representable.
pub open spec fn threshold_small(t: int) -> bool {
    -0x4000_0000_0000_0000 < t < 0x4000_0000_0000_0000
}

/// The thresholds of a leaf, or of a composite's direct leaves, are
/// small.
pub open spec fn leaf_small(sig: Signature) -> bool {
    match sig {
        Signature::Above(_, t) => threshold_small(t@),
        Signature::Below(_, t) => threshold_small(t@),
        Signature::AbsAbove(_, t) => threshold_small(t@),
        _ => true,
    }
}

pub open spec fn sig_small(sig: Signature) -> bool {
    match sig {
        Signature::All(subs) => forall|i: int| 0 <= i < subs@.len() ==> leaf_small(#[trigger] subs@[i]),
        Signature::Any(subs) => forall|i: int| 0 <= i < subs@.len() ==> leaf_small(#[trigger] subs@[i]),
        _ => leaf_small(sig),
    }
}

proof fn lemma_small_diffs_fit(sig: Signature, field: Field, thr: int)
    requires
        sig_small(sig),
        threshold_small(thr),
    ensures
        sig_diffs_fit(sig, field, thr),
{
    match sig {
        Signature::All(subs) => {
            assert forall|i: int| 0 <= i < subs@.len() implies leaf_diff_fits(#[trigger] subs@[i], field, thr) by {
                assert(leaf_small(subs@[i]));
            }
        },
        Signature::Any(subs) => {
            assert forall|i: int| 0 <= i < subs@.len() implies leaf_diff_fits(#[trigger] subs@[i], field, thr) by {
                assert(leaf_small(subs@[i]));
            }
        },
        _ => {},
    }
}

/// `(field, threshold)` a confirmed relation proposes: a threshold-step
/// fit with parameters, on a channel with a recognition field, whose
/// real-unit cut point (parameter 2) exists.
pub open spec fn relation_proposal(rel: ConfirmedRelation, real_params: Seq<Real>) -> Option<(Field, int)> {
    if rel.form == Form::ThresholdStep && rel.params@.len() > 0 && channel_field_of(rel.channel) is Some
        && real_params.len() > 2 {
        Some((channel_field_of(rel.channel)->0, real_params[2]@))
    } else {
        None
    }
}

/// `discovered_field_<label>_civ_<civ>_t<tick>`.
pub open spec fn template_name_of(f: Field, civ_id: u32, tick: u64) -> Seq<char> {
    "discovered_field_"@ + field_label_of(f) + "_civ_"@ + decimal(civ_id as nat) + "_t"@ + decimal(
        tick as nat,
    )
}

/// What a proposal minted for `(field, threshold)` holds.
pub open spec fn template_proposal_matches(
    p: EmergentTemplateProposal,
    field: Field,
    threshold: int,
    origin: u32,
    id: int,
    civ_id: u32,
    tick: u64,
) -> bool {
    let t = p.template;
    &&& t.id == id
    &&& t.name@ == template_name_of(field, civ_id, tick)
    &&& (match t.signature {
        Signature::Above(f, v) => f == field && v@ == threshold,
        _ => false,
    })
    &&& t.tags@ == seq![FormTag::Threshold]
    &&& t.channels@ == natural_channels_of(field)
    &&& t.discovered_at_tick == tick
    &&& t.discovered_by_civ_id == civ_id
    &&& t.origin_template_id == origin
    &&& p.proposing_civ_id == civ_id
    &&& p.origin_template_id == origin
}

/// Signatures of the discovered templates.
pub open spec fn signatures_of(ts: Seq<DiscoveredTemplate>) -> Seq<Signature> {
    Seq::new(ts.len(), |i: int| ts[i].signature)
}

fn template_name(field: Field, civ_id: u32, tick: u64) -> (s: String)
    ensures
        s@ == template_name_of(field, civ_id, tick),
{
    let civ = decimal_string(civ_id as u64);
    let t = decimal_string(tick);
    let mut s = String::from_str("discovered_field_");
    s.append(field_label(field));
    s.append("_civ_");
    s.append(civ.as_str());
    s.append("_t");
    s.append(t.as_str());
    s
}

fn mint_template(field: Field, threshold: Real, origin: u32, id: u32, civ_id: u32, tick: u64) -> (p: EmergentTemplateProposal)
    ensures
        template_proposal_matches(p, field, threshold@, origin, id as int, civ_id, tick),
{
    let template = DiscoveredTemplate {
        id,
        name: template_name(field, civ_id, tick),
        signature: Signature::Above(field, threshold),
        tags: vec![FormTag::Threshold],
        channels: natural_channels(field),
        discovered_at_tick: tick,
        discovered_by_civ_id: civ_id,
        origin_template_id: origin,
    };
    assert(template.tags@ =~= seq![FormTag::Threshold]);
    EmergentTemplateProposal { template, proposing_civ_id: civ_id, origin_template_id: origin }
}

/// Try to derive one proposal from a confirmed relation, given its
/// parameters in real units: `None` unless the relation proposes
/// `(field, threshold)` and no authored signature or discovered template
/// covers it.
pub fn propose_from_relation(
    rel: &ConfirmedRelation,
    real_params: &Vec<Real>,
    civ_id: u32,
    library: &Vec<Signature>,
    discovered: &Vec<DiscoveredTemplate>,
    next_id: u32,
    tick: u64,
) -> (r: Option<EmergentTemplateProposal>)
    requires
        relation_proposal(*rel, real_params@) matches Some((f, t)) ==> coverage_ok(
            f,
            t,
            library@,
            discovered@,
        ),
    ensures
        match relation_proposal(*rel, real_params@) {
            Some((f, t)) => if covered(f, t, library@, discovered@) {
                r is None
            } else {
                r is Some && template_proposal_matches(r->0, f, t, rel.template_id, next_id as int, civ_id, tick)
            },
            None => r is None,
        },
{
    if rel.form != Form::ThresholdStep {
        return None;
    }
    if rel.params.len() == 0 {
        return None;
    }
    let field = match channel_to_field(rel.channel) {
        Some(f) => f,
        None => return None,
    };
    if real_params.len() <= 2 {
        return None;
    }
    let threshold = real_params[2];
    if already_covered(field, threshold, library, discovered) {
        return None;
    }
    Some(mint_template(field, threshold, rel.template_id, next_id, civ_id, tick))
}

/// A confirmed relation with its parameters in real units.
#[derive(Debug, Clone)]
pub struct ScanRelation {
    pub relation: ConfirmedRelation,
    pub real_params: Vec<Real>,
}

/// A figure of the civ: whether it has retired, and its confirmed
/// relations in `relation_id` order.
#[derive(Debug, Clone)]
pub struct FigureScan {
    pub retired: bool,
    pub relations: Vec<ScanRelation>,
}

pub open spec fn scan_entries_of(f: FigureScan) -> Seq<ScanRelation> {
    if f.retired {
        Seq::empty()
    } else {
        f.relations@
    }
}

/// Relations of the active figures, figure by figure.
pub open spec fn scan_entries(figs: Seq<FigureScan>) -> Seq<ScanRelation>
    decreases figs.len(),
{
    if figs.len() == 0 {
        Seq::empty()
    } else {
        scan_entries(figs.drop_last()) + scan_entries_of(figs.last())
    }
}

pub open spec fn scan_seen(s: Seq<ScanRelation>, rid: u32) -> bool {
    exists|j: int| 0 <= j < s.len() && #[trigger] s[j].relation.relation_id == rid
}

/// Proposal `k` of a scan that started at `next` is still in the working
/// set after `n` proposals: ids saturate, and a later proposal with the
/// same id replaces an earlier one.
pub open spec fn still_working(k: int, n: int, next: u32) -> bool {
    k == n - 1 || next + k < u32::MAX
}

/// Whether an earlier proposal of this scan covers `(field, threshold)`.
pub open spec fn new_covers(descs: Seq<(Field, int, u32)>, next: u32, field: Field, threshold: int) -> bool {
    exists|k: int|
        0 <= k < descs.len() && still_working(k, descs.len() as int, next) && (#[trigger] descs[k]).0
            == field && abs_int(descs[k].1 - threshold) < allowed_gap(threshold)
}

/// The scan over `entries` (relation ids already seen are skipped):
/// `(field, threshold, origin template)` of each proposal, in order.
pub open spec fn scan_spec(
    entries: Seq<ScanRelation>,
    library: Seq<Signature>,
    discovered: Seq<DiscoveredTemplate>,
    next: u32,
) -> Seq<(Field, int, u32)>
    decreases entries.len(),
{
    if entries.len() == 0 {
        Seq::empty()
    } else {
        let prev = scan_spec(entries.drop_last(), library, discovered, next);
        let e = entries.last();
        if scan_seen(entries.drop_last(), e.relation.relation_id) {
            prev
        } else {
            match relation_proposal(e.relation, e.real_params@) {
                Some((f, t)) => if covered(f, t, library, discovered) || new_covers(prev, next, f, t) {
                    prev
                } else {
                    prev.push((f, t, e.relation.template_id))
                },
                None => prev,
            }
        }
    }
}

/// Every threshold the scan may compare is small.
pub open spec fn scan_inputs_small(
    figs: Seq<FigureScan>,
    library: Seq<Signature>,
    discovered: Seq<DiscoveredTemplate>,
) -> bool {
    &&& forall|i: int| 0 <= i < library.len() ==> sig_small(#[trigger] library[i])
    &&& forall|i: int| 0 <= i < discovered.len() ==> sig_small(#[trigger] discovered[i].signature)
    &&& forall|f: int, j: int|
        0 <= f < figs.len() && 0 <= j < figs[f].relations@.len() ==> (#[trigger] figs[f].relations@[j]).real_params@.len() > 2
            ==> threshold_small(figs[f].relations@[j].real_params@[2]@)
}

fn new_leaf_matches(new_entries: &Vec<(Field, Real)>, next: u32, field: Field, threshold: Real, gap: Real, Ghost(descs): Ghost<Seq<(Field, int, u32)>>) -> (b: bool)
    requires
        new_entries@.len() == descs.len(),
        forall|k: int| 0 <= k < descs.len() ==> (#[trigger] new_entries@[k]).0 == descs[k].0 && new_entries@[k].1@ == descs[k].1,
        forall|k: int| 0 <= k < descs.len() ==> threshold_small(#[trigger] descs[k].1),
        threshold_small(threshold@),
        gap@ == allowed_gap(threshold@),
    ensures
        b == new_covers(descs, next, field, threshold@),
{
    let n = new_entries.len();
    let mut k: usize = 0;
    while k < n
        invariant
            k <= n,
            n == descs.len(),
            new_entries@.len() == descs.len(),
            forall|k2: int| 0 <= k2 < descs.len() ==> (#[trigger] new_entries@[k2]).0 == descs[k2].0 && new_entries@[k2].1@ == descs[k2].1,
            forall|k2: int| 0 <= k2 < descs.len() ==> threshold_small(#[trigger] descs[k2].1),
            threshold_small(threshold@),
            gap@ == allowed_gap(threshold@),
            forall|k2: int|
                0 <= k2 < k ==> !(still_working(k2, n as int, next) && (#[trigger] descs[k2]).0 == field
                    && abs_int(descs[k2].1 - threshold@) < gap@),
        decreases n - k,
    {
        let (f, t) = new_entries[k];
        let alive = k + 1 == n || (k < 0xffff_ffff && (next as u64) + (k as u64) < 0xffff_ffff);
        assert(threshold_small(descs[k as int].1));
        if alive && f == field {
            let diff = if t.bits > threshold.bits {
                t.sub(threshold)
            } else {
                threshold.sub(t)
            };
            if diff.bits < gap.bits {
                assert(still_working(k as int, n as int, next) && descs[k as int].0 == field
                    && abs_int(descs[k as int].1 - threshold@) < gap@);
                return true;
            }
        }
        k += 1;
    }
    false
}

/// Scan a civ's confirmed relations for emergent-template proposals: an
/// inactive civ proposes nothing; otherwise each distinct relation of
/// the active figures (first figure first) that proposes an uncovered
/// `(field, threshold)` mints a template with the next id (saturating),
/// and later relations also check coverage against the templates this
/// scan already minted. The caller registers them and advances the
/// species' next id.
pub fn propose_discovered_templates(
    civ_id: u32,
    civ_active: bool,
    figures: &Vec<FigureScan>,
    library: &Vec<Signature>,
    discovered: &Vec<DiscoveredTemplate>,
    next_id: u32,
    tick: u64,
) -> (r: Vec<EmergentTemplateProposal>)
    requires
        scan_inputs_small(figures@, library@, discovered@),
    ensures
        !civ_active ==> r@.len() == 0,
        civ_active ==> r@.len() == scan_spec(scan_entries(figures@), library@, discovered@, next_id).len(),
        civ_active ==> forall|i: int|
            0 <= i < r@.len() ==> {
                let d = scan_spec(scan_entries(figures@), library@, discovered@, next_id)[i];
                template_proposal_matches(
                    #[trigger] r@[i],
                    d.0,
                    d.1,
                    d.2,
                    saturating_id(next_id, i),
                    civ_id,
                    tick,
                )
            },
{
    let mut proposals: Vec<EmergentTemplateProposal> = Vec::new();
    if !civ_active {
        return proposals;
    }
    let mut seen: Vec<u32> = Vec::new();
    let mut new_entries: Vec<(Field, Real)> = Vec::new();
    let mut next = next_id;
    let mut fi: usize = 0;
    while fi < figures.len()
        invariant
            fi <= figures.len(),
            scan_inputs_small(figures@, library@, discovered@),
            ({
                let entries = scan_entries(figures@.take(fi as int));
                let descs = scan_spec(entries, library@, discovered@, next_id);
                &&& forall|rid: u32| seen@.contains(rid) <==> scan_seen(entries, rid)
                &&& proposals@.len() == descs.len()
                &&& new_entries@.len() == descs.len()
                &&& next == saturating_id(next_id, descs.len() as int)
                &&& forall|k: int| 0 <= k < descs.len() ==> (#[trigger] new_entries@[k]).0 == descs[k].0 && new_entries@[k].1@ == descs[k].1
                &&& forall|k: int| 0 <= k < descs.len() ==> threshold_small(#[trigger] descs[k].1)
                &&& forall|i: int|
                    0 <= i < proposals@.len() ==> template_proposal_matches(
                        #[trigger] proposals@[i],
                        descs[i].0,
                        descs[i].1,
                        descs[i].2,
                        saturating_id(next_id, i),
                        civ_id,
                        tick,
                    )
            }),
        decreases figures.len() - fi,
    {
        let fig = &figures[fi];
        let ghost before = scan_entries(figures@.take(fi as int));
        proof {
            assert(figures@.take(fi + 1).drop_last() =~= figures@.take(fi as int));
            assert(figures@.take(fi + 1).last() == *fig);
        }
        if !fig.retired {
            let mut ei: usize = 0;
            while ei < fig.relations.len()
                invariant
                    fi < figures.len(),
                    *fig == figures@[fi as int],
                    !fig.retired,
                    ei <= fig.relations.len(),
                    scan_inputs_small(figures@, library@, discovered@),
                    ({
                        let entries = before + fig.relations@.take(ei as int);
                        let descs = scan_spec(entries, library@, discovered@, next_id);
                        &&& forall|rid: u32| seen@.contains(rid) <==> scan_seen(entries, rid)
                        &&& proposals@.len() == descs.len()
                        &&& new_entries@.len() == descs.len()
                        &&& next == saturating_id(next_id, descs.len() as int)
                        &&& forall|k: int| 0 <= k < descs.len() ==> (#[trigger] new_entries@[k]).0 == descs[k].0 && new_entries@[k].1@ == descs[k].1
                        &&& forall|k: int| 0 <= k < descs.len() ==> threshold_small(#[trigger] descs[k].1)
                        &&& forall|i: int|
                            0 <= i < proposals@.len() ==> template_proposal_matches(
                                #[trigger] proposals@[i],
                                descs[i].0,
                                descs[i].1,
                                descs[i].2,
                                saturating_id(next_id, i),
                                civ_id,
                                tick,
                            )
                    }),
                decreases fig.relations.len() - ei,
            {
                let e = &fig.relations[ei];
                let ghost p = before + fig.relations@.take(ei as int);
                let ghost descs = scan_spec(p, library@, discovered@, next_id);
                proof {
                    assert(before + fig.relations@.take(ei + 1) =~= p.push(*e));
                    assert(p.push(*e).drop_last() =~= p);
                    assert forall|rid: u32| scan_seen(p.push(*e), rid) <==> (scan_seen(p, rid) || e.relation.relation_id == rid) by {
                        if scan_seen(p, rid) {
                            let j = choose|j: int| 0 <= j < p.len() && #[trigger] p[j].relation.relation_id == rid;
                            assert(p.push(*e)[j] == p[j]);
                        }
                        if e.relation.relation_id == rid {
                            assert(p.push(*e)[p.len() as int] == *e);
                        }
                        if scan_seen(p.push(*e), rid) {
                            let j = choose|j: int| 0 <= j < p.push(*e).len() && #[trigger] p.push(*e)[j].relation.relation_id == rid;
                            if j < p.len() {
                                assert(p[j] == p.push(*e)[j]);
                            }
                        }
                    }
                }
                let rid = e.relation.relation_id;
                let mut found = false;
                let mut s: usize = 0;
                while s < seen.len()
                    invariant
                        s <= seen.len(),
                        found <==> exists|j: int| 0 <= j < s && seen@[j] == rid,
                    decreases seen.len() - s,
                {
                    if seen[s] == rid {
                        found = true;
                    }
                    s += 1;
                }
                assert(found <==> seen@.contains(rid));
                if !found {
                    let ghost old_seen = seen@;
                    seen.push(rid);
                    proof {
                        assert(seen@ == old_seen.push(rid));
                        assert forall|x: u32| old_seen.contains(x) <==> scan_seen(p, x) by {}
                        assert forall|x: u32| seen@.contains(x) <==> scan_seen(p.push(*e), x) by {
                            if seen@.contains(x) && x != rid {
                                let j = choose|j: int| 0 <= j < seen@.len() && seen@[j] == x;
                                assert(old_seen[j] == x);
                            }
                            if x == rid {
                                assert(seen@[seen@.len() - 1] == x);
                            }
                            if old_seen.contains(x) {
                                let j = choose|j: int| 0 <= j < old_seen.len() && old_seen[j] == x;
                                assert(seen@[j] == x);
                            }
                        }
                    }
                    let rel = &e.relation;
                    let mut minted = false;
                    if rel.form == Form::ThresholdStep && rel.params.len() > 0 && e.real_params.len() > 2 {
                        match channel_to_field(rel.channel) {
                            Some(field) => {
                                let threshold = e.real_params[2];
                                proof {
                                    let f = fi as int;
                                    let j = ei as int;
                                    assert(figures@[f].relations@[j] == *e);
                                    assert(threshold_small(threshold@));
                                    assert forall|i: int| 0 <= i < library@.len() implies sig_diffs_fit(#[trigger] library@[i], field, threshold@) by {
                                        lemma_small_diffs_fit(library@[i], field, threshold@);
                                    }
                                    assert forall|i: int| 0 <= i < discovered@.len() implies sig_diffs_fit(#[trigger] discovered@[i].signature, field, threshold@) by {
                                        lemma_small_diffs_fit(discovered@[i].signature, field, threshold@);
                                    }
                                }
                                if !already_covered(field, threshold, library, discovered) {
                                    let gap = allowed_gap_of(threshold);
                                    if !new_leaf_matches(&new_entries, next_id, field, threshold, gap, Ghost(descs)) {
                                        let p_new = mint_template(field, threshold, rel.template_id, next, civ_id, tick);
                                        proposals.push(p_new);
                                        new_entries.push((field, threshold));
                                        next = next.saturating_add(1);
                                        minted = true;
                                    }
                                }
                            },
                            None => {},
                        }
                    }
                    proof {
                        let d2 = scan_spec(p.push(*e), library@, discovered@, next_id);
                        assert(!scan_seen(p, rid));
                        if minted {
                            assert(d2 == descs.push((channel_field_of(rel.channel)->0, e.real_params@[2]@, rel.template_id)));
                        } else {
                            assert(d2 == descs);
                        }
                    }
                } else {
                    proof {
                        assert(scan_spec(p.push(*e), library@, discovered@, next_id) == descs);
                        assert(seen@.contains(rid));
                        assert forall|x: u32| seen@.contains(x) <==> scan_seen(p.push(*e), x) by {
                            assert(seen@.contains(x) <==> scan_seen(p, x));
                        }
                    }
                }
                ei += 1;
            }
            proof {
                assert(fig.relations@.take(fig.relations.len() as int) =~= fig.relations@);
            }
        } else {
            proof {
                assert(before + Seq::<ScanRelation>::empty() =~= before);
            }
        }
        fi += 1;
    }
    proof {
        assert(figures@.take(figures.len() as int) =~= figures@);
    }
    proposals
}

/// The emergence-check period stretched by the planet's metabolism, so
/// slow substrates run as many checks per generation as fast ones.
pub open spec fn stretched_period_600(metabolism: int) -> int {
    let t = crate::demographics::stretched_ticks(600, metabolism);
    if t > 1 { t } else { 1 }
}

/// Substrate-aware variant of the check-tick test.
pub fn is_emergence_tick_for_metabolism(tick: u64, metabolism: Real) -> (b: bool)
    ensures
        b == (tick > 0 && tick % (stretched_period_600(metabolism@) as u64) == 0),
{
    proof {
        crate::demographics::lemma_short_stretch_ok(EMERGENCE_CHECK_PERIOD_TICKS, metabolism@);
    }
    let period = crate::demographics::streak_ticks_for_metabolism(EMERGENCE_CHECK_PERIOD_TICKS, metabolism);
    tick > 0 && tick % period == 0
}
} // verus!
