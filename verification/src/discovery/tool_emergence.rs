//! Emergent tools. When a civ has confirmed a coherent cluster of
//! relations on a single measurement channel, it proposes a
//! `DynamicTool` whose effects scale with the depth of that cluster.
//!
//! Discovery rule, checked every `TOOL_EMERGENCE_CHECK_PERIOD_TICKS`:
//! the confirmed relations of the civ's active figures (each relation
//! id counted once, first figure first) are grouped by channel; a
//! channel with at least `EMERGENT_TOOL_CLUSTER_SIZE` relations mints a
//! tool, unless the species already holds a tool on the same sensory
//! channel whose cluster is less than `EMERGENT_TOOL_REFINEMENT_STEP`
//! smaller. Channels are scanned in their fixed order, and tool ids are
//! handed out consecutively from the species' next id.

use crate::arith::{lemma_mul_unit, lemma_ratio_unit, mul_bits, mul_ok, ratio_bits, scale, Real};
use crate::discovery::channels::{all_channels, Channel};
use crate::text::{decimal, decimal_string};
use crate::world::{substance_index, ChannelKind, Substance};
use vstd::prelude::*;
use vstd::string::StringExecFns;

verus! {

/// Cadence of the dynamic-tool emergence scan, in ticks: 600 ticks,
/// the same cadence as template emergence.
pub const TOOL_EMERGENCE_CHECK_PERIOD_TICKS: u64 = 600;

/// Minimum number of confirmed relations on one channel before the
/// channel can mint a tool.
pub const EMERGENT_TOOL_CLUSTER_SIZE: usize = 5;

/// Growth beyond the largest prior cluster on the same sensory channel
/// that a refined tool needs.
pub const EMERGENT_TOOL_REFINEMENT_STEP: usize = 5;

/// Cluster size past which effects stop growing.
pub const EMERGENT_TOOL_MAX_SCALE_CLUSTER: i64 = 20;

/// Tier every emergent tool carries.
pub const DYNAMIC_TOOL_TIER: u8 = 5;

/// Whether `tick` is a tool-emergence-check tick.
pub fn is_tool_emergence_tick(tick: u64) -> (b: bool)
    ensures
        b == (tick > 0 && tick % 600 == 0),
{
    tick > 0 && tick % TOOL_EMERGENCE_CHECK_PERIOD_TICKS == 0
}

/// Sensory channel that a tool built on a measurement channel focuses.
pub open spec fn channel_kind_of(c: Channel) -> ChannelKind {
    match c {
        Channel::Temperature => ChannelKind::InfraredThermal,
        Channel::ChargeMagnitude => ChannelKind::ElectricField,
        Channel::WaterDepth => ChannelKind::AcousticWater,
        Channel::Elevation => ChannelKind::Tactile,
        Channel::MagneticField => ChannelKind::MagneticSense,
        _ => ChannelKind::ChemicalTaste,
    }
}

/// The sensory channel a tool on `channel` focuses.
pub fn channel_to_kind(channel: Channel) -> (k: ChannelKind)
    ensures
        k == channel_kind_of(channel),
{
    match channel {
        Channel::Temperature => ChannelKind::InfraredThermal,
        Channel::ChargeMagnitude => ChannelKind::ElectricField,
        Channel::WaterDepth => ChannelKind::AcousticWater,
        Channel::Elevation => ChannelKind::Tactile,
        Channel::MagneticField => ChannelKind::MagneticSense,
        Channel::Fuel | Channel::Oxidiser | Channel::Vapour | Channel::Ice | Channel::Fossil => {
            ChannelKind::ChemicalTaste
        },
    }
}

/// The stored substance a substance channel reads; scalar channels
/// read none.
pub open spec fn channel_substance_of(c: Channel) -> Option<Substance> {
    match c {
        Channel::Fuel => Some(Substance::Fuel),
        Channel::Oxidiser => Some(Substance::Oxidiser),
        Channel::Vapour => Some(Substance::Vapour),
        Channel::Ice => Some(Substance::Ice),
        Channel::Fossil => Some(Substance::Fossil),
        _ => None,
    }
}

/// The substance `channel` reads, if it is a substance channel.
pub fn channel_to_substance(channel: Channel) -> (s: Option<Substance>)
    ensures
        s == channel_substance_of(channel),
{
    match channel {
        Channel::Fuel => Some(Substance::Fuel),
        Channel::Oxidiser => Some(Substance::Oxidiser),
        Channel::Vapour => Some(Substance::Vapour),
        Channel::Ice => Some(Substance::Ice),
        Channel::Fossil => Some(Substance::Fossil),
        Channel::Temperature
        | Channel::WaterDepth
        | Channel::ChargeMagnitude
        | Channel::Elevation
        | Channel::MagneticField => None,
    }
}

/// Word a tool name uses for its channel.
pub open spec fn channel_label_of(c: Channel) -> Seq<char> {
    match c {
        Channel::Temperature => "thermal"@,
        Channel::ChargeMagnitude => "field"@,
        Channel::WaterDepth => "fluid"@,
        Channel::Elevation => "altimetric"@,
        Channel::Fuel => "fuel"@,
        Channel::Oxidiser => "oxidiser"@,
        Channel::Vapour => "vapour"@,
        Channel::Ice => "cryogenic"@,
        Channel::Fossil => "fossil"@,
        Channel::MagneticField => "magnetic"@,
    }
}

/// The word a tool name uses for `channel`.
pub fn channel_label(channel: Channel) -> (s: &'static str)
    ensures
        s@ == channel_label_of(channel),
{
    match channel {
        Channel::Temperature => "thermal",
        Channel::ChargeMagnitude => "field",
        Channel::WaterDepth => "fluid",
        Channel::Elevation => "altimetric",
        Channel::Fuel => "fuel",
        Channel::Oxidiser => "oxidiser",
        Channel::Vapour => "vapour",
        Channel::Ice => "cryogenic",
        Channel::Fossil => "fossil",
        Channel::MagneticField => "magnetic",
    }
}

/// Effect magnitudes of a dynamic tool.
#[derive(Debug, Clone, Copy)]
pub struct DynamicToolEffects {
    pub capacity_multiplier: Real,
    pub food_crisis_bonus: Real,
    pub war_strength_bonus: Real,
    pub seasonal_floor_bonus: Real,
    pub catastrophe_resistance_bonus: Real,
    pub literacy_bonus: Real,
    pub expansion_rate_bonus: Real,
    pub transmission_fidelity_bonus: Real,
    /// Mortality cut per age bracket: infant, juvenile, adult, elder.
    pub mortality_reduction_per_bracket: [Real; 4],
    pub lifespan_extension_factor: Real,
    pub discovery_rate_bonus: Real,
    pub cohesion_bonus: Real,
    pub migration_speed_bonus: Real,
    pub fertility_bonus: Real,
}

/// Effect scale of a cluster: `min(n, 20) / 20`.
pub open spec fn cluster_scale_bits(n: int) -> int {
    ratio_bits(if n < 20 { n } else { 20 }, 20)
}

/// `pct` percent of a scale `s`.
pub open spec fn share_bits(pct: int, s: int) -> int {
    mul_bits(ratio_bits(pct, 100), s)
}

/// `share_bits(pct, s)` where `cond` holds, zero elsewhere.
pub open spec fn share_if(cond: bool, pct: int, s: int) -> int {
    if cond {
        share_bits(pct, s)
    } else {
        0
    }
}

/// The effects a cluster of `n` relations on channel `c` yields: the
/// shared instrument baseline (capacity `1 + 20%`, literacy and
/// transmission `5%`, all times the scale) plus the channel's flavour.
pub open spec fn effects_match(e: DynamicToolEffects, n: int, c: Channel) -> bool {
    let s = cluster_scale_bits(n);
    &&& e.capacity_multiplier@ == scale() + share_bits(20, s) + share_if(
        c == Channel::Fuel || c == Channel::Fossil,
        10,
        s,
    )
    &&& e.food_crisis_bonus@ == share_if(c == Channel::WaterDepth, 5, s)
    &&& e.war_strength_bonus@ == share_if(c == Channel::Oxidiser, 8, s)
    &&& e.seasonal_floor_bonus@ == share_if(c == Channel::Temperature || c == Channel::Ice, 5, s)
    &&& e.catastrophe_resistance_bonus@ == share_if(
        c == Channel::Temperature || c == Channel::Ice,
        5,
        s,
    )
    &&& e.literacy_bonus@ == share_bits(5, s)
    &&& e.expansion_rate_bonus@ == share_if(c == Channel::Elevation, 8, s)
    &&& e.transmission_fidelity_bonus@ == share_bits(5, s)
    &&& e.mortality_reduction_per_bracket@.len() == 4
    &&& e.mortality_reduction_per_bracket@[0]@ == share_if(c == Channel::Vapour, 8, s)
    &&& e.mortality_reduction_per_bracket@[1]@ == share_if(c == Channel::Vapour, 5, s)
    &&& e.mortality_reduction_per_bracket@[2]@ == 0
    &&& e.mortality_reduction_per_bracket@[3]@ == 0
    &&& e.lifespan_extension_factor@ == 0
    &&& e.discovery_rate_bonus@ == share_if(
        c == Channel::ChargeMagnitude || c == Channel::MagneticField,
        8,
        s,
    )
    &&& e.cohesion_bonus@ == 0
    &&& e.migration_speed_bonus@ == share_if(c == Channel::WaterDepth, 8, s)
    &&& e.fertility_bonus@ == 0
}

/// The cluster scale lies in `[0, 1]`, and so does every share of it.
pub proof fn lemma_share_unit(pct: int, n: int)
    requires
        0 <= pct <= 100,
        0 <= n,
    ensures
        0 <= cluster_scale_bits(n) <= scale(),
        mul_ok(ratio_bits(pct, 100), cluster_scale_bits(n)),
        0 <= share_bits(pct, cluster_scale_bits(n)) <= scale(),
{
    lemma_ratio_unit(if n < 20 { n } else { 20 }, 20);
    lemma_ratio_unit(pct, 100);
    lemma_mul_unit(ratio_bits(pct, 100), cluster_scale_bits(n));
}

fn share(pct: i64, s: Real, Ghost(n): Ghost<int>) -> (r: Real)
    requires
        0 <= pct <= 100,
        0 <= n,
        s@ == cluster_scale_bits(n),
    ensures
        r@ == share_bits(pct as int, s@),
        0 <= r@ <= scale(),
{
    proof {
        lemma_share_unit(pct as int, n);
    }
    Real::percent(pct).mul(s)
}

/// Effect magnitudes of a tool minted from `cluster_size` relations on
/// `channel`; the scale saturates at `EMERGENT_TOOL_MAX_SCALE_CLUSTER`.
pub fn effects_for_cluster(cluster_size: usize, channel: Channel) -> (e: DynamicToolEffects)
    ensures
        effects_match(e, cluster_size as int, channel),
{
    let n: i64 = if cluster_size < 20 {
        cluster_size as i64
    } else {
        EMERGENT_TOOL_MAX_SCALE_CLUSTER
    };
    let ghost g = cluster_size as int;
    proof {
        lemma_ratio_unit(n as int, 20);
    }
    let scale = Real::from_int(n).div(Real::from_int(EMERGENT_TOOL_MAX_SCALE_CLUSTER));
    assert(scale@ == cluster_scale_bits(g));
    let zero = Real::zero();
    let base = share(20, scale, Ghost(g));
    let mut effects = DynamicToolEffects {
        capacity_multiplier: Real::one().add(base),
        food_crisis_bonus: zero,
        war_strength_bonus: zero,
        seasonal_floor_bonus: zero,
        catastrophe_resistance_bonus: zero,
        literacy_bonus: share(5, scale, Ghost(g)),
        expansion_rate_bonus: zero,
        transmission_fidelity_bonus: share(5, scale, Ghost(g)),
        mortality_reduction_per_bracket: [zero, zero, zero, zero],
        lifespan_extension_factor: zero,
        discovery_rate_bonus: zero,
        cohesion_bonus: zero,
        migration_speed_bonus: zero,
        fertility_bonus: zero,
    };
    match channel {
        Channel::Temperature | Channel::Ice => {
            effects.seasonal_floor_bonus = share(5, scale, Ghost(g));
            effects.catastrophe_resistance_bonus = share(5, scale, Ghost(g));
        },
        Channel::ChargeMagnitude | Channel::MagneticField => {
            effects.discovery_rate_bonus = share(8, scale, Ghost(g));
        },
        Channel::WaterDepth => {
            effects.food_crisis_bonus = share(5, scale, Ghost(g));
            effects.migration_speed_bonus = share(8, scale, Ghost(g));
        },
        Channel::Elevation => {
            effects.expansion_rate_bonus = share(8, scale, Ghost(g));
        },
        Channel::Fuel | Channel::Fossil => {
            effects.capacity_multiplier = effects.capacity_multiplier.add(
                share(10, scale, Ghost(g)),
            );
        },
        Channel::Oxidiser => {
            effects.war_strength_bonus = share(8, scale, Ghost(g));
        },
        Channel::Vapour => {
            effects.mortality_reduction_per_bracket = [
                share(8, scale, Ghost(g)),
                share(5, scale, Ghost(g)),
                zero,
                zero,
            ];
        },
    }
    effects
}


/// A confirmed relation as the tool scan reads it.
#[derive(Debug, Clone, Copy, PartialEq, Eq, Structural)]
pub struct RelationRef {
    pub relation_id: u32,
    pub channel: Channel,
    pub template_id: u32,
}

/// A figure of the civ: whether it has retired, and its confirmed
/// relations in `relation_id` order.
#[derive(Debug, Clone)]
pub struct FigureRelations {
    pub retired: bool,
    pub confirmed: Vec<RelationRef>,
}

/// A species-level emergent tool.
#[derive(Debug, Clone)]
pub struct DynamicTool {
    pub id: u32,
    pub name: String,
    pub tier: u8,
    /// Sensory channel the tool is built around.
    pub channel_focus: ChannelKind,
    /// Template ids of the confirmed relations it grew from, ascending.
    pub relation_prereqs: Vec<u32>,
    /// `(substance slot, stockpile)` gates.
    pub resource_prereqs: Vec<(u32, Real)>,
    pub effects: DynamicToolEffects,
    pub discovered_at_tick: u64,
    pub discovered_by_civ_id: u32,
}

/// One emergent-tool proposal for the caller to register and announce.
#[derive(Debug, Clone)]
pub struct EmergentToolProposal {
    pub tool: DynamicTool,
    pub proposing_civ_id: u32,
    /// Distinct template ids in the cluster at proposal time.
    pub cluster_size: usize,
}

/// The relations a figure contributes: none once it has retired.
pub open spec fn figure_entries(f: FigureRelations) -> Seq<RelationRef> {
    if f.retired {
        Seq::empty()
    } else {
        f.confirmed@
    }
}

/// The confirmed relations of all active figures, figure by figure.
pub open spec fn active_entries(figs: Seq<FigureRelations>) -> Seq<RelationRef>
    decreases figs.len(),
{
    if figs.len() == 0 {
        Seq::empty()
    } else {
        active_entries(figs.drop_last()) + figure_entries(figs.last())
    }
}

/// Whether some entry of `s` carries relation id `rid`.
pub open spec fn rid_seen(s: Seq<RelationRef>, rid: u32) -> bool {
    exists|j: int| 0 <= j < s.len() && #[trigger] s[j].relation_id == rid
}

/// The entries of `s` whose relation id does not occur earlier in `s`.
pub open spec fn first_occurrences(s: Seq<RelationRef>) -> Seq<RelationRef>
    decreases s.len(),
{
    if s.len() == 0 {
        Seq::empty()
    } else if rid_seen(s.drop_last(), s.last().relation_id) {
        first_occurrences(s.drop_last())
    } else {
        first_occurrences(s.drop_last()).push(s.last())
    }
}

/// Template ids of the entries on channel `c`, in order.
pub open spec fn cluster_of(s: Seq<RelationRef>, c: Channel) -> Seq<u32>
    decreases s.len(),
{
    if s.len() == 0 {
        Seq::empty()
    } else if s.last().channel == c {
        cluster_of(s.drop_last(), c).push(s.last().template_id)
    } else {
        cluster_of(s.drop_last(), c)
    }
}

/// The civ's cluster on channel `c`: one template id per distinct
/// confirmed relation of its active figures.
pub open spec fn channel_cluster(figs: Seq<FigureRelations>, c: Channel) -> Seq<u32> {
    cluster_of(first_occurrences(active_entries(figs)), c)
}

/// Largest prerequisite count among registry tools focused on `k`.
pub open spec fn prior_max(reg: Seq<DynamicTool>, k: ChannelKind) -> Option<nat>
    decreases reg.len(),
{
    if reg.len() == 0 {
        None
    } else {
        let p = prior_max(reg.drop_last(), k);
        let t = reg.last();
        if t.channel_focus == k {
            let e = t.relation_prereqs@.len();
            match p {
                Some(m) => Some(if e > m { e } else { m }),
                None => Some(e),
            }
        } else {
            p
        }
    }
}

/// A cluster mints a tool when it is big enough and, where the sensory
/// channel already has tools, has outgrown the largest of them by the
/// refinement step.
pub open spec fn mints(cluster: Seq<u32>, prior: Option<nat>) -> bool {
    &&& cluster.len() >= 5
    &&& match prior {
        Some(m) => cluster.len() >= m + 5,
        None => true,
    }
}

/// Whether channel `c` mints a tool.
pub open spec fn channel_mints(
    figs: Seq<FigureRelations>,
    reg: Seq<DynamicTool>,
    c: Channel,
) -> bool {
    mints(channel_cluster(figs, c), prior_max(reg, channel_kind_of(c)))
}

/// The minting channels among the first `k` channels, in order.
pub open spec fn minting_channels_upto(
    figs: Seq<FigureRelations>,
    reg: Seq<DynamicTool>,
    k: nat,
) -> Seq<Channel>
    decreases k,
{
    if k == 0 {
        Seq::empty()
    } else {
        let p = minting_channels_upto(figs, reg, (k - 1) as nat);
        let c = all_channels()[k - 1];
        if channel_mints(figs, reg, c) {
            p.push(c)
        } else {
            p
        }
    }
}

/// All minting channels, in channel order.
pub open spec fn minting_channels(figs: Seq<FigureRelations>, reg: Seq<DynamicTool>) -> Seq<Channel> {
    minting_channels_upto(figs, reg, 10)
}

pub open spec fn strictly_increasing(s: Seq<u32>) -> bool {
    forall|i: int, j: int| 0 <= i < j < s.len() ==> s[i] < s[j]
}

/// `dynamic_<label>_apparatus_civ_<civ>_t<tick>`.
pub open spec fn tool_name_of(c: Channel, civ_id: u32, tick: u64) -> Seq<char> {
    "dynamic_"@ + channel_label_of(c) + "_apparatus_civ_"@ + decimal(civ_id as nat) + "_t"@
        + decimal(tick as nat)
}

/// A substance channel gates its tool on one unit of that substance;
/// other channels carry no gate.
pub open spec fn resource_gate_match(g: Seq<(u32, Real)>, c: Channel) -> bool {
    match channel_substance_of(c) {
        Some(s) => g.len() == 1 && g[0].0 == substance_index(s) && g[0].1@ == scale(),
        None => g.len() == 0,
    }
}

/// Tool id handed out `i` proposals after `next`, saturating.
pub open spec fn saturating_id(next: u32, i: int) -> int {
    if next + i > u32::MAX {
        u32::MAX as int
    } else {
        next + i
    }
}

/// What the proposal minted from `cluster` on channel `c` holds.
pub open spec fn proposal_matches(
    p: EmergentToolProposal,
    c: Channel,
    cluster: Seq<u32>,
    id: int,
    civ_id: u32,
    tick: u64,
) -> bool {
    let t = p.tool;
    &&& t.id == id
    &&& t.name@ == tool_name_of(c, civ_id, tick)
    &&& t.tier == 5
    &&& t.channel_focus == channel_kind_of(c)
    &&& strictly_increasing(t.relation_prereqs@)
    &&& forall|x: u32| t.relation_prereqs@.contains(x) <==> cluster.contains(x)
    &&& resource_gate_match(t.resource_prereqs@, c)
    &&& effects_match(t.effects, t.relation_prereqs@.len() as int, c)
    &&& t.discovered_at_tick == tick
    &&& t.discovered_by_civ_id == civ_id
    &&& p.proposing_civ_id == civ_id
    &&& p.cluster_size == t.relation_prereqs@.len()
}

proof fn lemma_rid_seen_push(s: Seq<RelationRef>, x: RelationRef, rid: u32)
    ensures
        rid_seen(s.push(x), rid) <==> (rid_seen(s, rid) || x.relation_id == rid),
{
    if rid_seen(s, rid) {
        let j = choose|j: int| 0 <= j < s.len() && #[trigger] s[j].relation_id == rid;
        assert(s.push(x)[j] == s[j]);
    }
    if x.relation_id == rid {
        assert(s.push(x)[s.len() as int] == x);
    }
    if rid_seen(s.push(x), rid) {
        let j = choose|j: int| 0 <= j < s.push(x).len() && #[trigger] s.push(x)[j].relation_id == rid;
        if j < s.len() {
            assert(s[j] == s.push(x)[j]);
        }
    }
}

/// Keeping only first occurrences loses no relation id.
proof fn lemma_first_occurrences_seen(s: Seq<RelationRef>, rid: u32)
    ensures
        rid_seen(first_occurrences(s), rid) <==> rid_seen(s, rid),
    decreases s.len(),
{
    if s.len() > 0 {
        let init = s.drop_last();
        lemma_first_occurrences_seen(init, rid);
        assert(s =~= init.push(s.last()));
        lemma_rid_seen_push(init, s.last(), rid);
        if !rid_seen(init, s.last().relation_id) {
            lemma_rid_seen_push(first_occurrences(init), s.last(), rid);
        }
    }
}

fn has_rid(v: &Vec<RelationRef>, rid: u32) -> (b: bool)
    ensures
        b == rid_seen(v@, rid),
{
    let mut i: usize = 0;
    while i < v.len()
        invariant
            i <= v.len(),
            forall|j: int| 0 <= j < i ==> #[trigger] v@[j].relation_id != rid,
        decreases v.len() - i,
    {
        if v[i].relation_id == rid {
            return true;
        }
        i += 1;
    }
    false
}

fn collect_first_occurrences(figures: &Vec<FigureRelations>) -> (u: Vec<RelationRef>)
    ensures
        u@ == first_occurrences(active_entries(figures@)),
{
    let mut unique: Vec<RelationRef> = Vec::new();
    let mut fi: usize = 0;
    while fi < figures.len()
        invariant
            fi <= figures.len(),
            unique@ == first_occurrences(active_entries(figures@.take(fi as int))),
        decreases figures.len() - fi,
    {
        let fig = &figures[fi];
        let ghost before = active_entries(figures@.take(fi as int));
        proof {
            assert(figures@.take(fi + 1).drop_last() =~= figures@.take(fi as int));
            assert(figures@.take(fi + 1).last() == *fig);
        }
        if !fig.retired {
            let mut ei: usize = 0;
            while ei < fig.confirmed.len()
                invariant
                    ei <= fig.confirmed.len(),
                    unique@ == first_occurrences(before + fig.confirmed@.take(ei as int)),
                decreases fig.confirmed.len() - ei,
            {
                let x = fig.confirmed[ei];
                let ghost p = before + fig.confirmed@.take(ei as int);
                proof {
                    assert(before + fig.confirmed@.take(ei + 1) =~= p.push(x));
                    assert(p.push(x).drop_last() =~= p);
                    lemma_first_occurrences_seen(p, x.relation_id);
                }
                if !has_rid(&unique, x.relation_id) {
                    unique.push(x);
                }
                ei += 1;
            }
            proof {
                assert(fig.confirmed@.take(fig.confirmed.len() as int) =~= fig.confirmed@);
            }
        } else {
            proof {
                assert(before + Seq::<RelationRef>::empty() =~= before);
            }
        }
        fi += 1;
    }
    proof {
        assert(figures@.take(figures.len() as int) =~= figures@);
    }
    unique
}

fn cluster_for(unique: &Vec<RelationRef>, c: Channel) -> (v: Vec<u32>)
    ensures
        v@ == cluster_of(unique@, c),
{
    let mut v: Vec<u32> = Vec::new();
    let mut i: usize = 0;
    while i < unique.len()
        invariant
            i <= unique.len(),
            v@ == cluster_of(unique@.take(i as int), c),
        decreases unique.len() - i,
    {
        proof {
            assert(unique@.take(i + 1).drop_last() =~= unique@.take(i as int));
        }
        if unique[i].channel == c {
            v.push(unique[i].template_id);
        }
        i += 1;
    }
    proof {
        assert(unique@.take(unique.len() as int) =~= unique@);
    }
    v
}

fn prior_max_for(registry: &Vec<DynamicTool>, kind: ChannelKind) -> (m: Option<usize>)
    ensures
        match m {
            Some(x) => prior_max(registry@, kind) == Some(x as nat),
            None => prior_max(registry@, kind) is None,
        },
{
    let mut m: Option<usize> = None;
    let mut i: usize = 0;
    while i < registry.len()
        invariant
            i <= registry.len(),
            match m {
                Some(x) => prior_max(registry@.take(i as int), kind) == Some(x as nat),
                None => prior_max(registry@.take(i as int), kind) is None,
            },
        decreases registry.len() - i,
    {
        proof {
            assert(registry@.take(i + 1).drop_last() =~= registry@.take(i as int));
        }
        let t = &registry[i];
        if t.channel_focus == kind {
            let e = t.relation_prereqs.len();
            m = match m {
                Some(x) => Some(if e > x { e } else { x }),
                None => Some(e),
            };
        }
        i += 1;
    }
    proof {
        assert(registry@.take(registry.len() as int) =~= registry@);
    }
    m
}

/// The distinct values of `v`, ascending.
fn sorted_unique(v: &Vec<u32>) -> (r: Vec<u32>)
    ensures
        strictly_increasing(r@),
        forall|x: u32| r@.contains(x) <==> v@.contains(x),
{
    let mut r: Vec<u32> = Vec::new();
    let mut i: usize = 0;
    while i < v.len()
        invariant
            i <= v.len(),
            strictly_increasing(r@),
            forall|x: u32| r@.contains(x) <==> v@.take(i as int).contains(x),
        decreases v.len() - i,
    {
        let x = v[i];
        let mut j: usize = 0;
        while j < r.len() && r[j] < x
            invariant
                j <= r.len(),
                forall|k: int| 0 <= k < j ==> r@[k] < x,
            decreases r.len() - j,
        {
            j += 1;
        }
        let ghost old_r = r@;
        proof {
            assert(v@.take(i + 1) =~= v@.take(i as int).push(x));
        }
        if j < r.len() && r[j] == x {
            assert forall|y: u32| r@.contains(y) <==> v@.take(i + 1).contains(y) by {
                if y == x {
                    assert(r@[j as int] == y);
                    assert(v@.take(i + 1)[i as int] == y);
                }
                if v@.take(i + 1).contains(y) && y != x {
                    let k = choose|k: int| 0 <= k < i + 1 && #[trigger] v@.take(i + 1)[k] == y;
                    assert(v@.take(i as int)[k] == y);
                }
                if v@.take(i as int).contains(y) {
                    let k = choose|k: int| 0 <= k < i && #[trigger] v@.take(i as int)[k] == y;
                    assert(v@.take(i + 1)[k] == y);
                }
            }
        } else {
            r.insert(j, x);
            proof {
                old_r.insert_ensures(j as int, x);
                assert forall|a: int, b: int| 0 <= a < b < r@.len() implies r@[a] < r@[b] by {
                    if b < j {
                    } else if b == j {
                    } else if a < j {
                        assert(r@[b] == old_r[b - 1]);
                        assert(old_r[j as int] >= x);
                    } else if a == j {
                        assert(r@[b] == old_r[b - 1]);
                        assert(old_r[j as int] >= x);
                        assert(old_r[j as int] != x);
                    } else {
                        assert(r@[a] == old_r[a - 1]);
                        assert(r@[b] == old_r[b - 1]);
                    }
                }
                assert forall|y: u32| r@.contains(y) <==> v@.take(i + 1).contains(y) by {
                    if r@.contains(y) {
                        let k = choose|k: int| 0 <= k < r@.len() && #[trigger] r@[k] == y;
                        if k < j {
                            assert(old_r[k] == y);
                        } else if k > j {
                            assert(old_r[k - 1] == y);
                        } else {
                            assert(v@.take(i + 1)[i as int] == y);
                        }
                        if y != x {
                            assert(old_r.contains(y));
                            let m = choose|m: int| 0 <= m < i && #[trigger] v@.take(i as int)[m] == y;
                            assert(v@.take(i + 1)[m] == y);
                        }
                    }
                    if v@.take(i + 1).contains(y) {
                        if y == x {
                            assert(r@[j as int] == y);
                        } else {
                            let k = choose|k: int| 0 <= k < i + 1 && #[trigger] v@.take(i + 1)[k] == y;
                            assert(v@.take(i as int)[k] == y);
                            assert(old_r.contains(y));
                            let m = choose|m: int| 0 <= m < old_r.len() && #[trigger] old_r[m] == y;
                            if m < j {
                                assert(r@[m] == y);
                            } else {
                                assert(r@[m + 1] == y);
                            }
                        }
                    }
                }
            }
        }
        i += 1;
    }
    proof {
        assert(v@.take(v.len() as int) =~= v@);
    }
    r
}

fn tool_name(channel: Channel, civ_id: u32, tick: u64) -> (s: String)
    ensures
        s@ == tool_name_of(channel, civ_id, tick),
{
    let civ = decimal_string(civ_id as u64);
    let t = decimal_string(tick);
    let mut s = String::from_str("dynamic_");
    s.append(channel_label(channel));
    s.append("_apparatus_civ_");
    s.append(civ.as_str());
    s.append("_t");
    s.append(t.as_str());
    s
}

fn resource_gate(channel: Channel) -> (g: Vec<(u32, Real)>)
    ensures
        resource_gate_match(g@, channel),
{
    match channel_to_substance(channel) {
        Some(substance) => {
            let idx = substance.idx() as u32;
            vec![(idx, Real::one())]
        },
        None => Vec::new(),
    }
}

/// Scan a civ's confirmed relations for emergent-tool proposals. An
/// inactive civ proposes nothing; otherwise each minting channel, in
/// channel order, yields one proposal, with consecutive ids from
/// `next_dynamic_tool_id` (saturating). The caller registers the tools,
/// advances the species' next id and announces them.
pub fn propose_dynamic_tools(
    civ_id: u32,
    civ_active: bool,
    figures: &Vec<FigureRelations>,
    registry: &Vec<DynamicTool>,
    next_dynamic_tool_id: u32,
    tick: u64,
) -> (r: Vec<EmergentToolProposal>)
    ensures
        !civ_active ==> r@.len() == 0,
        civ_active ==> r@.len() == minting_channels(figures@, registry@).len(),
        civ_active ==> forall|i: int|
            0 <= i < r@.len() ==> proposal_matches(
                #[trigger] r@[i],
                minting_channels(figures@, registry@)[i],
                channel_cluster(figures@, minting_channels(figures@, registry@)[i]),
                saturating_id(next_dynamic_tool_id, i),
                civ_id,
                tick,
            ),
{
    let mut proposals: Vec<EmergentToolProposal> = Vec::new();
    if !civ_active {
        return proposals;
    }
    let unique = collect_first_occurrences(figures);
    let channels = Channel::all();
    let mut next_id = next_dynamic_tool_id;
    let mut k: usize = 0;
    while k < channels.len()
        invariant
            k <= channels.len(),
            channels@ == all_channels(),
            unique@ == first_occurrences(active_entries(figures@)),
            proposals@.len() == minting_channels_upto(figures@, registry@, k as nat).len(),
            next_id == saturating_id(next_dynamic_tool_id, proposals@.len() as int),
            forall|i: int|
                0 <= i < proposals@.len() ==> proposal_matches(
                    #[trigger] proposals@[i],
                    minting_channels_upto(figures@, registry@, k as nat)[i],
                    channel_cluster(
                        figures@,
                        minting_channels_upto(figures@, registry@, k as nat)[i],
                    ),
                    saturating_id(next_dynamic_tool_id, i),
                    civ_id,
                    tick,
                ),
        decreases channels.len() - k,
    {
        let c = channels[k];
        let cluster = cluster_for(&unique, c);
        let kind = channel_to_kind(c);
        let prior = prior_max_for(registry, kind);
        let n = cluster.len();
        let gate = match prior {
            Some(m) => !(n < m || n - m < EMERGENT_TOOL_REFINEMENT_STEP),
            None => true,
        };
        let ghost before = minting_channels_upto(figures@, registry@, k as nat);
        assert(c == all_channels()[k as int]);
        if n >= EMERGENT_TOOL_CLUSTER_SIZE && gate {
            assert(channel_mints(figures@, registry@, c));
            let prereqs = sorted_unique(&cluster);
            let cluster_size = prereqs.len();
            let tool = DynamicTool {
                id: next_id,
                name: tool_name(c, civ_id, tick),
                tier: DYNAMIC_TOOL_TIER,
                channel_focus: kind,
                relation_prereqs: prereqs,
                resource_prereqs: resource_gate(c),
                effects: effects_for_cluster(cluster_size, c),
                discovered_at_tick: tick,
                discovered_by_civ_id: civ_id,
            };
            next_id = next_id.saturating_add(1);
            let p = EmergentToolProposal { tool, proposing_civ_id: civ_id, cluster_size };
            assert(proposal_matches(
                p,
                c,
                channel_cluster(figures@, c),
                saturating_id(next_dynamic_tool_id, proposals@.len() as int),
                civ_id,
                tick,
            ));
            proposals.push(p);
        } else {
            assert(!channel_mints(figures@, registry@, c));
        }
        k += 1;
    }
    proposals
}

/// The emergence-check period stretched by the planet's metabolism, so
/// slow substrates run as many checks per generation as fast ones.
pub open spec fn stretched_tool_period(metabolism: int) -> int {
    let t = crate::demographics::stretched_ticks(600, metabolism);
    if t > 1 { t } else { 1 }
}

/// Substrate-aware variant of the check-tick test.
pub fn is_tool_emergence_tick_for_metabolism(tick: u64, metabolism: Real) -> (b: bool)
    ensures
        b == (tick > 0 && tick % (stretched_tool_period(metabolism@) as u64) == 0),
{
    proof {
        crate::demographics::lemma_short_stretch_ok(TOOL_EMERGENCE_CHECK_PERIOD_TICKS, metabolism@);
    }
    let period = crate::demographics::streak_ticks_for_metabolism(TOOL_EMERGENCE_CHECK_PERIOD_TICKS, metabolism);
    tick > 0 && tick % period == 0
}
} // verus!
