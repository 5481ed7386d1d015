//! Civilizational-archetype classification.
//!
//! A *lever* is the foundational resource or science a developing
//! civilisation organises around. Eleven levers are scored as peer
//! dimensions from the world profile, the species' senses and, later,
//! the channels a civ confirms relations on and the tools it unlocks.
//! One dominant lever is a pure archetype; two co-dominant levers a
//! named hybrid; anything else an emergent archetype named by its top
//! three levers. Ties break by lever order, so labels are stable.

use crate::arith::{max_bits, min_bits, mul_bits, mul_ok, ratio_bits, int_bits, scale, Real};
use crate::discovery::channels::{Channel, ModalityKind};
use crate::world::{
    Atmosphere, BiosphereClass, CognitionTopology, Crust, Magnetosphere, MetabolicSubstrate,
    ToolKind, WorldProfile,
};
use vstd::prelude::*;
use vstd::string::StringExecFns;

verus! {

/// A foundational lever.
#[derive(Debug, Clone, Copy, PartialEq, Eq, Structural, PartialOrd, Ord, Hash)]
pub enum Lever {
    Combustion,
    FieldResonance,
    Biochemical,
    Cryogenic,
    Mechanical,
    Hydraulic,
    ExoticChemistry,
    PlasmaEm,
    Gravitational,
    Photonic,
    Nuclear,
}

/// Canonical position of a lever (also the tie-break order).
pub open spec fn lever_index(l: Lever) -> nat {
    match l {
        Lever::Combustion => 0,
        Lever::FieldResonance => 1,
        Lever::Biochemical => 2,
        Lever::Cryogenic => 3,
        Lever::Mechanical => 4,
        Lever::Hydraulic => 5,
        Lever::ExoticChemistry => 6,
        Lever::PlasmaEm => 7,
        Lever::Gravitational => 8,
        Lever::Photonic => 9,
        Lever::Nuclear => 10,
    }
}

/// The lever at a canonical position.
pub open spec fn lever_at(i: int) -> Lever {
    if i == 0 {
        Lever::Combustion
    } else if i == 1 {
        Lever::FieldResonance
    } else if i == 2 {
        Lever::Biochemical
    } else if i == 3 {
        Lever::Cryogenic
    } else if i == 4 {
        Lever::Mechanical
    } else if i == 5 {
        Lever::Hydraulic
    } else if i == 6 {
        Lever::ExoticChemistry
    } else if i == 7 {
        Lever::PlasmaEm
    } else if i == 8 {
        Lever::Gravitational
    } else if i == 9 {
        Lever::Photonic
    } else {
        Lever::Nuclear
    }
}

/// Snake-case name of a lever.
pub open spec fn lever_name(l: Lever) -> Seq<char> {
    match l {
        Lever::Combustion => "combustion"@,
        Lever::FieldResonance => "field_resonance"@,
        Lever::Biochemical => "biochemical"@,
        Lever::Cryogenic => "cryogenic"@,
        Lever::Mechanical => "mechanical"@,
        Lever::Hydraulic => "hydraulic"@,
        Lever::ExoticChemistry => "exotic_chemistry"@,
        Lever::PlasmaEm => "plasma_em"@,
        Lever::Gravitational => "gravitational"@,
        Lever::Photonic => "photonic"@,
        Lever::Nuclear => "nuclear"@,
    }
}

/// Positions and levers correspond one to one.
pub proof fn lemma_lever_index_roundtrip(l: Lever)
    ensures
        lever_at(lever_index(l) as int) == l,
        lever_index(l) < 11,
{
}

impl Lever {
    /// Canonical position in the lever order.
    pub fn idx(self) -> (i: usize)
        ensures
            i == lever_index(self),
            i < 11,
    {
        match self {
            Lever::Combustion => 0,
            Lever::FieldResonance => 1,
            Lever::Biochemical => 2,
            Lever::Cryogenic => 3,
            Lever::Mechanical => 4,
            Lever::Hydraulic => 5,
            Lever::ExoticChemistry => 6,
            Lever::PlasmaEm => 7,
            Lever::Gravitational => 8,
            Lever::Photonic => 9,
            Lever::Nuclear => 10,
        }
    }

    /// The lever at a canonical position.
    pub fn at(i: usize) -> (l: Lever)
        requires
            i < 11,
        ensures
            l == lever_at(i as int),
            lever_index(l) == i,
    {
        if i == 0 {
            Lever::Combustion
        } else if i == 1 {
            Lever::FieldResonance
        } else if i == 2 {
            Lever::Biochemical
        } else if i == 3 {
            Lever::Cryogenic
        } else if i == 4 {
            Lever::Mechanical
        } else if i == 5 {
            Lever::Hydraulic
        } else if i == 6 {
            Lever::ExoticChemistry
        } else if i == 7 {
            Lever::PlasmaEm
        } else if i == 8 {
            Lever::Gravitational
        } else if i == 9 {
            Lever::Photonic
        } else {
            Lever::Nuclear
        }
    }

    /// Snake-case name.
    pub fn name(self) -> (s: &'static str)
        ensures
            s@ == lever_name(self),
    {
        match self {
            Lever::Combustion => "combustion",
            Lever::FieldResonance => "field_resonance",
            Lever::Biochemical => "biochemical",
            Lever::Cryogenic => "cryogenic",
            Lever::Mechanical => "mechanical",
            Lever::Hydraulic => "hydraulic",
            Lever::ExoticChemistry => "exotic_chemistry",
            Lever::PlasmaEm => "plasma_em",
            Lever::Gravitational => "gravitational",
            Lever::Photonic => "photonic",
            Lever::Nuclear => "nuclear",
        }
    }
}

/// Cognition overlay, orthogonal to the lever.
#[derive(Debug, Clone, Copy, PartialEq, Eq, Structural)]
pub enum CognitionMode {
    /// One integrated mind per individual.
    Individual,
    /// Eusocial hive: the colony is the cognitive unit.
    Collective,
    /// Substrate-distributed: the medium is the memory.
    SubstrateDistributed,
}

/// Snake-case name of a cognition mode.
pub open spec fn cognition_mode_name(m: CognitionMode) -> Seq<char> {
    match m {
        CognitionMode::Individual => "individual"@,
        CognitionMode::Collective => "collective"@,
        CognitionMode::SubstrateDistributed => "substrate_distributed"@,
    }
}

impl CognitionMode {
    /// Snake-case name.
    pub fn name(self) -> (s: &'static str)
        ensures
            s@ == cognition_mode_name(self),
    {
        match self {
            CognitionMode::Individual => "individual",
            CognitionMode::Collective => "collective",
            CognitionMode::SubstrateDistributed => "substrate_distributed",
        }
    }
}

/// Cognition overlay of a cognition topology.
pub open spec fn cognition_mode_of(t: CognitionTopology) -> CognitionMode {
    match t {
        CognitionTopology::Collective => CognitionMode::Collective,
        CognitionTopology::Acentric => CognitionMode::SubstrateDistributed,
        _ => CognitionMode::Individual,
    }
}

/// Cognition overlay from the species' topology.
pub fn cognition_mode(world: &WorldProfile) -> (m: CognitionMode)
    ensures
        m == cognition_mode_of(world.cognition_topology),
{
    match world.cognition_topology {
        CognitionTopology::Collective => CognitionMode::Collective,
        CognitionTopology::Acentric => CognitionMode::SubstrateDistributed,
        CognitionTopology::Centralized | CognitionTopology::DistributedRedundant => {
            CognitionMode::Individual
        },
    }
}

/// Per-lever score vector, indexed by lever position; scores in `[0, 1]`.
#[derive(Debug, Clone, Copy)]
pub struct LeverScores {
    pub scores: [Real; 11],
}

/// Adding to a score clamps into `[0, 1]`.
pub open spec fn clamped_add(s: int, amount: int) -> int {
    max_bits(min_bits(s + amount, scale()), 0)
}

impl LeverScores {
    /// Every score lies in `[0, 1]`.
    pub open spec fn wf(&self) -> bool {
        forall|i: int| 0 <= i < 11 ==> 0 <= #[trigger] self.scores[i]@ <= scale()
    }

    /// The score of a lever.
    pub open spec fn score(&self, l: Lever) -> int {
        self.scores[lever_index(l) as int]@
    }

    /// All scores zero.
    pub fn zero() -> (s: Self)
        ensures
            s.wf(),
            forall|i: int| 0 <= i < 11 ==> #[trigger] s.scores[i]@ == 0,
    {
        LeverScores { scores: [Real::zero(); 11] }
    }

    /// Add `amount` to a lever's score, clamped into `[0, 1]`. The
    /// original overflows (and panics) when the sum leaves the range;
    /// excluded.
    pub fn add(&mut self, lever: Lever, amount: Real)
        requires
            crate::arith::fits(old(self).score(lever) + amount@),
        ensures
            final(self).score(lever) == clamped_add(old(self).score(lever), amount@),
            forall|i: int| 0 <= i < 11 && i != lever_index(lever) ==> #[trigger] final(self).scores[i] == old(self).scores[i],
            0 <= final(self).score(lever) <= scale(),
    {
        let i = lever.idx();
        self.scores[i] = self.scores[i].add(amount).min(Real::one()).max(Real::zero());
    }

    /// A lever's score.
    pub fn get(&self, lever: Lever) -> (r: Real)
        ensures
            r@ == self.score(lever),
    {
        self.scores[lever.idx()]
    }
}

/// `a` ranks before `b`: a higher score, or an equal score and an
/// earlier lever.
pub open spec fn ranks_before(a: (Lever, Real), b: (Lever, Real)) -> bool {
    a.1@ > b.1@ || (a.1@ == b.1@ && lever_index(a.0) < lever_index(b.0))
}

/// `v` lists every lever once with its score, best first.
pub open spec fn ranked_spec(s: LeverScores, v: Seq<(Lever, Real)>) -> bool {
    &&& v.len() == 11
    &&& forall|q: int| 0 <= q < 11 ==> (#[trigger] v[q]).1@ == s.score(v[q].0)
    &&& forall|p: int, q: int| 0 <= p < q < 11 ==> ranks_before(#[trigger] v[p], #[trigger] v[q])
    &&& forall|l: Lever| #[trigger] lever_index(l) < 11 ==> exists|q: int| 0 <= q < 11 && (#[trigger] v[q]).0 == l
}

impl LeverScores {
    /// Levers sorted by score, highest first; equal scores keep lever
    /// order.
    pub fn ranked(&self) -> (v: Vec<(Lever, Real)>)
        ensures
            ranked_spec(*self, v@),
    {
        let mut used: Vec<bool> = vec![false, false, false, false, false, false, false, false, false, false, false];
        let mut out: Vec<(Lever, Real)> = Vec::new();
        let mut r: usize = 0;
        proof {
            lemma_count_none(used@, 11);
        }
        while r < 11
            invariant
                r <= 11,
                used.len() == 11,
                count_true(used@, 11) == r,
                out.len() == r,
                forall|q: int| 0 <= q < r ==> (#[trigger] out@[q]).1@ == self.score(out@[q].0),
                forall|q: int| 0 <= q < r ==> used[lever_index((#[trigger] out@[q]).0) as int],
                forall|p: int, q: int| 0 <= p < q < r ==> ranks_before(#[trigger] out@[p], #[trigger] out@[q]),
                forall|q: int, i: int| 0 <= q < r && 0 <= i < 11 && !used[i] ==> ranks_before(#[trigger] out@[q], (lever_at(i), #[trigger] self.scores[i])),
                forall|i: int| 0 <= i < 11 ==> #[trigger] used[i] == (exists|q: int| 0 <= q < r && lever_index((#[trigger] out@[q]).0) == i),
            decreases 11 - r,
        {
            let mut best: usize = 11;
            let mut i: usize = 0;
            while i < 11
                invariant
                    i <= 11,
                    used.len() == 11,
                    best <= 11,
                    best == 11 ==> forall|j: int| 0 <= j < i ==> #[trigger] used[j],
                    best < 11 ==> best < i && !used[best as int],
                    best < 11 ==> forall|j: int| 0 <= j < i && !#[trigger] used[j] && j != best ==> ranks_before((lever_at(best as int), self.scores[best as int]), (lever_at(j), self.scores[j])),
                decreases 11 - i,
            {
                if !used[i] {
                    if best == 11 || self.scores[i].to_bits() > self.scores[best].to_bits() {
                        best = i;
                    }
                }
                i = i + 1;
            }
            proof {
                if best == 11 {
                    lemma_count_all(used@, 11);
                }
            }
            let l = Lever::at(best);
            let ghost old_out = out@;
            let ghost old_used = used@;
            out.push((l, self.scores[best]));
            proof {
                lemma_count_set(used@, best as int, 11);
            }
            used.set(best, true);
            proof {
                assert forall|i: int| 0 <= i < 11 implies #[trigger] used[i] == (exists|q: int| 0 <= q < r + 1 && lever_index((#[trigger] out@[q]).0) == i) by {
                    if i == best {
                        assert(lever_index(out@[r as int].0) == i);
                    } else {
                        assert(used[i] == old_used[i]);
                        if old_used[i] {
                            let q = choose|q: int| 0 <= q < r && lever_index((#[trigger] old_out[q]).0) == i;
                            assert(out@[q] == old_out[q]);
                        }
                        if exists|q: int| 0 <= q < r + 1 && lever_index((#[trigger] out@[q]).0) == i {
                            let q = choose|q: int| 0 <= q < r + 1 && lever_index((#[trigger] out@[q]).0) == i;
                            assert(q < r);
                            assert(out@[q] == old_out[q]);
                        }
                    }
                }
            }
            r = r + 1;
        }
        proof {
            lemma_count_full(used@, 11);
            assert forall|l: Lever| #[trigger] lever_index(l) < 11 implies exists|q: int| 0 <= q < 11 && (#[trigger] out@[q]).0 == l by {
                let i = lever_index(l) as int;
                assert(used[i]);
                let q = choose|q: int| 0 <= q < 11 && lever_index((#[trigger] out@[q]).0) == i;
                lemma_lever_index_roundtrip(out@[q].0);
                lemma_lever_index_roundtrip(l);
            }
        }
        out
    }
}

/// Number of `true` entries among the first `n`.
pub open spec fn count_true(u: Seq<bool>, n: int) -> int
    decreases n,
{
    if n <= 0 {
        0
    } else {
        count_true(u, n - 1) + if u[n - 1] { 1int } else { 0int }
    }
}

/// Setting one false entry to true adds one to every count past it.
proof fn lemma_count_set(u: Seq<bool>, b: int, n: int)
    requires
        0 <= b < u.len(),
        !u[b],
        0 <= n <= u.len(),
    ensures
        count_true(u.update(b, true), n) == count_true(u, n) + if n > b { 1int } else { 0int },
    decreases n,
{
    if n > 0 {
        lemma_count_set(u, b, n - 1);
    }
}

/// When no entry is true the count is zero.
proof fn lemma_count_none(u: Seq<bool>, n: int)
    requires
        0 <= n <= u.len(),
        forall|i: int| 0 <= i < n ==> !#[trigger] u[i],
    ensures
        count_true(u, n) == 0,
    decreases n,
{
    if n > 0 {
        lemma_count_none(u, n - 1);
    }
}

/// A count equal to the length means every entry is true.
proof fn lemma_count_full(u: Seq<bool>, n: int)
    requires
        0 <= n <= u.len(),
        count_true(u, n) == n,
    ensures
        forall|i: int| 0 <= i < n ==> #[trigger] u[i],
    decreases n,
{
    if n > 0 {
        lemma_count_le(u, n - 1);
        lemma_count_full(u, n - 1);
    }
}

/// A count never exceeds the length.
proof fn lemma_count_le(u: Seq<bool>, n: int)
    requires
        0 <= n <= u.len(),
    ensures
        0 <= count_true(u, n) <= n,
    decreases n,
{
    if n > 0 {
        lemma_count_le(u, n - 1);
    }
}

/// When every entry is true the count is the length.
proof fn lemma_count_all(u: Seq<bool>, n: int)
    requires
        0 <= n <= u.len(),
        forall|i: int| 0 <= i < n ==> #[trigger] u[i],
    ensures
        count_true(u, n) == n,
    decreases n,
{
    if n > 0 {
        lemma_count_all(u, n - 1);
    }
}


/// The open classification of a run.
#[derive(Debug, Clone, Copy, PartialEq, Eq, Structural)]
pub enum ArchetypeLabel {
    /// One lever clearly dominates.
    Pure(Lever),
    /// Two co-dominant levers, by score then lever order.
    Hybrid(Lever, Lever),
    /// No clear winner: an emergent archetype named by its top three.
    Emergent { dominant: Lever, secondary: Lever, tertiary: Lever },
}

/// Name of a label: the lever name; the two hybrid names joined by
/// `/`; or `emergent_` and the three names joined by `_`.
pub open spec fn label_name(l: ArchetypeLabel) -> Seq<char> {
    match l {
        ArchetypeLabel::Pure(a) => lever_name(a),
        ArchetypeLabel::Hybrid(a, b) => lever_name(a) + "/"@ + lever_name(b),
        ArchetypeLabel::Emergent { dominant, secondary, tertiary } => "emergent_"@ + lever_name(
            dominant,
        ) + "_"@ + lever_name(secondary) + "_"@ + lever_name(tertiary),
    }
}

impl ArchetypeLabel {
    /// Human-readable name of the label.
    pub fn name(self) -> (s: String)
        ensures
            s@ == label_name(self),
    {
        match self {
            ArchetypeLabel::Pure(l) => String::from_str(l.name()),
            ArchetypeLabel::Hybrid(a, b) => {
                let mut s = String::from_str(a.name());
                s.append("/");
                s.append(b.name());
                s
            },
            ArchetypeLabel::Emergent { dominant, secondary, tertiary } => {
                let mut s = String::from_str("emergent_");
                s.append(dominant.name());
                s.append("_");
                s.append(secondary.name());
                s.append("_");
                s.append(tertiary.name());
                s
            },
        }
    }
}

/// A run's archetype profile: scores, label and cognition overlay.
#[derive(Debug, Clone, Copy)]
pub struct ArchetypeProfile {
    pub scores: LeverScores,
    pub label: ArchetypeLabel,
    pub cognition: CognitionMode,
}

/// `0.40`: a pure archetype's minimum top score.
pub open spec fn pure_floor() -> int {
    ratio_bits(40, 100)
}

/// `0.12`: a pure archetype's minimum lead over the runner-up.
pub open spec fn pure_margin() -> int {
    ratio_bits(12, 100)
}

/// `0.25`: both hybrid levers' minimum score.
pub open spec fn hybrid_floor() -> int {
    ratio_bits(25, 100)
}

/// Classification of a ranked score list.
pub open spec fn classify_ranked(v: Seq<(Lever, Real)>) -> ArchetypeLabel {
    let top = v[0];
    let second = v[1];
    if top.1@ >= pure_floor() && top.1@ - second.1@ >= pure_margin() {
        ArchetypeLabel::Pure(top.0)
    } else if top.1@ >= hybrid_floor() && second.1@ >= hybrid_floor() {
        ArchetypeLabel::Hybrid(top.0, second.0)
    } else {
        ArchetypeLabel::Emergent { dominant: top.0, secondary: second.0, tertiary: v[2].0 }
    }
}

/// The ranked list of a score vector is unique.
pub proof fn lemma_ranked_unique(s: LeverScores, v: Seq<(Lever, Real)>, w: Seq<(Lever, Real)>)
    requires
        ranked_spec(s, v),
        ranked_spec(s, w),
    ensures
        v == w,
{
    assert forall|q: int| 0 <= q < 11 implies v[q] == w[q] by {
        lemma_rank_position(s, v, w, q);
    }
    assert(v =~= w);
}

/// An entry's position in a ranked list is the number of entries that
/// rank before it, so two ranked lists agree position by position.
proof fn lemma_rank_position(s: LeverScores, v: Seq<(Lever, Real)>, w: Seq<(Lever, Real)>, q: int)
    requires
        ranked_spec(s, v),
        ranked_spec(s, w),
        0 <= q < 11,
    ensures
        v[q] == w[q],
    decreases q,
{
    let a = v[q];
    assert(lever_index(a.0) < 11);
    let p = choose|p: int| 0 <= p < 11 && (#[trigger] w[p]).0 == a.0;
    assert(w[p].1 == a.1) by {
        assert(w[p].1@ == s.score(a.0));
    }
    if p < q {
        // w[p] == v[p] by induction; then v has the same lever twice.
        lemma_rank_position(s, v, w, p);
        assert(v[p] == w[p]);
        assert(ranks_before(v[p], v[q]));
    } else if p > q {
        let b = w[q];
        assert(lever_index(b.0) < 11);
        let r = choose|r: int| 0 <= r < 11 && (#[trigger] v[r]).0 == b.0;
        assert(v[r].1@ == s.score(b.0));
        assert(ranks_before(w[q], w[p]));
        if r < q {
            lemma_rank_position(s, v, w, r);
            assert(w[r] == v[r]);
            assert(ranks_before(w[r], w[q]));
        } else if r > q {
            assert(ranks_before(v[q], v[r]));
        }
    }
    assert(a.1 == a.1);
}

/// Classify a score vector into the open label space: pure when the top
/// score reaches `0.40` and leads by `0.12`; hybrid when the top two
/// both reach `0.25`; emergent otherwise.
pub fn classify(scores: &LeverScores) -> (l: ArchetypeLabel)
    requires
        scores.wf(),
    ensures
        exists|v: Seq<(Lever, Real)>| ranked_spec(*scores, v) && l == #[trigger] classify_ranked(v),
{
    let ranked = scores.ranked();
    let (top_lever, top) = ranked[0];
    let (second_lever, second) = ranked[1];
    let (third_lever, _third) = ranked[2];
    let pure_floor = Real::from_ratio(40, 100);
    let pure_margin = Real::from_ratio(12, 100);
    let hybrid_floor = Real::from_ratio(25, 100);
    proof {
        assert(ranks_before(ranked@[0], ranked@[1]));
        assert(ranked@[0].1@ == scores.score(ranked@[0].0));
        assert(ranked@[1].1@ == scores.score(ranked@[1].0));
        assert(0 <= scores.scores[lever_index(ranked@[0].0) as int]@ <= scale());
        assert(0 <= scores.scores[lever_index(ranked@[1].0) as int]@ <= scale());
    }
    let l = if top.to_bits() >= pure_floor.to_bits()
        && top.to_bits() - second.to_bits() >= pure_margin.to_bits() {
        ArchetypeLabel::Pure(top_lever)
    } else if top.to_bits() >= hybrid_floor.to_bits() && second.to_bits() >= hybrid_floor.to_bits() {
        ArchetypeLabel::Hybrid(top_lever, second_lever)
    } else {
        ArchetypeLabel::Emergent {
            dominant: top_lever,
            secondary: second_lever,
            tertiary: third_lever,
        }
    };
    proof {
        assert(l == classify_ranked(ranked@));
    }
    l
}


/// `k` percent as a Q32.32 bit pattern.
pub open spec fn pct(k: int) -> int {
    ratio_bits(k, 100)
}

/// A percentage between 0 and 100 is a unit value.
pub proof fn lemma_pct(k: int)
    requires
        0 <= k <= 100,
    ensures
        pct(k) == (k * scale()) / 100,
        0 <= pct(k) <= scale(),
{
    let s = scale();
    assert(int_bits(k) == k * s);
    assert(int_bits(100) == 100 * s);
    assert(k * s * s >= 0) by (nonlinear_arith) requires k >= 0, s > 0;
    vstd::arithmetic::div_mod::lemma_div_denominator(k * s * s, s, 100);
    assert((k * s * s) / s == k * s) by {
        vstd::arithmetic::div_mod::lemma_div_by_multiple(k * s, s);
    }
    assert(s * 100 == 100 * s);
    assert(k * s <= 100 * s) by (nonlinear_arith) requires k <= 100, s > 0;
    vstd::arithmetic::div_mod::lemma_div_is_ordered(k * s, 100 * s, 100);
    vstd::arithmetic::div_mod::lemma_div_pos_is_pos(k * s, 100);
    assert((100 * s) / 100 == s);
}

/// Whether the species has a sensory modality.
pub open spec fn has_modality_spec(w: WorldProfile, k: ModalityKind) -> bool {
    w.modalities@.contains(k)
}

/// Whether the species senses fields (electric, magnetic or radio).
pub open spec fn has_field_sense_spec(w: WorldProfile) -> bool {
    has_modality_spec(w, ModalityKind::ElectricField) || has_modality_spec(w, ModalityKind::MagneticSense)
        || has_modality_spec(w, ModalityKind::RadioNative)
}

/// `c ? x : 0`.
pub open spec fn when(c: bool, x: int) -> int {
    if c { x } else { 0 }
}

/// Whether the atmosphere is reducing or hazy.
pub open spec fn reducing_or_hazy(a: Atmosphere) -> bool {
    a == Atmosphere::Reducing || a == Atmosphere::Hazy
}

/// Unclamped world-and-species contribution to each lever.
pub open spec fn lever_raw_score(w: WorldProfile, l: Lever) -> int {
    let ox = w.atmosphere == Atmosphere::Oxidising;
    let aqueous = w.metabolic_substrate == MetabolicSubstrate::Aqueous;
    let comp = w.crustal_composition;
    match l {
        Lever::Combustion => when(ox, pct(50)) + when(w.crust == Crust::Hydrocarbon, pct(30))
            + min_bits(comp.hydrocarbon@, pct(30)),
        Lever::FieldResonance => when(w.crust == Crust::Piezoelectric, pct(40)) + min_bits(
            mul_bits(comp.piezoelectric@, pct(60)),
            pct(40),
        ) + (if w.magnetosphere == Magnetosphere::Strong {
            pct(25)
        } else if w.magnetosphere == Magnetosphere::Weak {
            pct(8)
        } else {
            0
        }) + when(has_field_sense_spec(w), pct(22)),
        Lever::Biochemical => (if w.biosphere == BiosphereClass::HyperBiodiverse {
            pct(45)
        } else if w.biosphere == BiosphereClass::Lush {
            pct(22)
        } else {
            0
        }) + when(aqueous, pct(12)) + when(comp.ferrous@ < pct(8) && comp.hydrocarbon@ < pct(3), pct(20)),
        Lever::Cryogenic => (if w.metabolic_substrate == MetabolicSubstrate::Hydrocarbon {
            pct(45)
        } else if w.metabolic_substrate == MetabolicSubstrate::Ammoniacal {
            pct(40)
        } else {
            0
        }) + when(w.stellar_luminosity@ < int_bits(800), pct(25)) + when(w.crust == Crust::RareEarth, pct(12)),
        Lever::Mechanical => when(!ox, pct(30)) + (if w.moon_count >= 2 {
            pct(18)
        } else if w.moon_count == 1 {
            pct(8)
        } else {
            0
        }) + when(aqueous, pct(8)),
        Lever::Hydraulic => when(aqueous && (ox || reducing_or_hazy(w.atmosphere)), pct(22)) + min_bits(
            mul_bits(w.biosphere_density@, pct(10)),
            pct(10),
        ),
        Lever::ExoticChemistry => when(reducing_or_hazy(w.atmosphere), pct(25)) + when(
            w.metabolic_substrate == MetabolicSubstrate::Silicate,
            pct(25),
        ),
        Lever::PlasmaEm => when(w.magnetosphere == Magnetosphere::Strong && w.crust != Crust::Piezoelectric, pct(30))
            + when(reducing_or_hazy(w.atmosphere), pct(12)),
        Lever::Gravitational => (if w.moon_count >= 3 {
            pct(30)
        } else if w.moon_count == 2 {
            pct(15)
        } else {
            0
        }) + when(w.gravity@ > int_bits(13), pct(20)),
        Lever::Photonic => when(w.stellar_luminosity@ > int_bits(1800), pct(32)) + when(
            has_modality_spec(w, ModalityKind::VisualLight),
            pct(20),
        ) + when(w.atmosphere == Atmosphere::Thin || ox, pct(8)),
        Lever::Nuclear => when(w.crust == Crust::RareEarth, pct(28)) + when(w.magnetosphere == Magnetosphere::Absent, pct(18))
            + when(w.radiation_max@ > int_bits(2), pct(18)),
    }
}

/// Whether the species has a modality.
fn has_modality(world: &WorldProfile, kind: ModalityKind) -> (b: bool)
    ensures
        b == has_modality_spec(*world, kind),
{
    let mut i: usize = 0;
    while i < world.modalities.len()
        invariant
            i <= world.modalities.len(),
            forall|j: int| 0 <= j < i ==> world.modalities@[j] != kind,
        decreases world.modalities.len() - i,
    {
        if world.modalities[i] == kind {
            return true;
        }
        i = i + 1;
    }
    false
}

/// Add a percentage to a lever score.
fn add_pct(s: &mut LeverScores, lever: Lever, k: i64)
    requires
        old(s).wf(),
        0 <= k <= 100,
    ensures
        final(s).wf(),
        final(s).score(lever) == clamped_add(old(s).score(lever), pct(k as int)),
        forall|i: int| 0 <= i < 11 && i != lever_index(lever) ==> #[trigger] final(s).scores[i] == old(s).scores[i],
{
    proof {
        lemma_pct(k as int);
        assert(0 <= old(s).scores[lever_index(lever) as int]@ <= scale());
    }
    s.add(lever, Real::from_ratio(k, 100));
}

/// Add a unit value to a lever score.
fn add_unit(s: &mut LeverScores, lever: Lever, amount: Real)
    requires
        old(s).wf(),
        0 <= amount@ <= scale(),
    ensures
        final(s).wf(),
        final(s).score(lever) == clamped_add(old(s).score(lever), amount@),
        forall|i: int| 0 <= i < 11 && i != lever_index(lever) ==> #[trigger] final(s).scores[i] == old(s).scores[i],
{
    proof {
        assert(0 <= old(s).scores[lever_index(lever) as int]@ <= scale());
    }
    s.add(lever, amount);
}


/// The world-and-species score of a lever: its contributions summed and
/// capped at one.
pub open spec fn world_score(w: WorldProfile, l: Lever) -> int {
    min_bits(lever_raw_score(w, l), scale())
}

/// Combustion: fire, oxidiser and accessible fuel.
fn score_combustion(world: &WorldProfile, s: &mut LeverScores)
    requires
        world.wf(),
        old(s).wf(),
        old(s).score(Lever::Combustion) == 0,
    ensures
        final(s).wf(),
        final(s).score(Lever::Combustion) == world_score(*world, Lever::Combustion),
        forall|i: int| 0 <= i < 11 && i != lever_index(Lever::Combustion) ==> #[trigger] final(s).scores[i] == old(s).scores[i],
{
    let comp = world.crustal_composition;
    let oxidising = world.atmosphere == Atmosphere::Oxidising;
    let aqueous = world.metabolic_substrate == MetabolicSubstrate::Aqueous;
    let reducing_hazy = world.atmosphere == Atmosphere::Reducing || world.atmosphere == Atmosphere::Hazy;
    proof {
        lemma_pct(3);
        lemma_pct(8);
        lemma_pct(10);
        lemma_pct(12);
        lemma_pct(15);
        lemma_pct(18);
        lemma_pct(20);
        lemma_pct(22);
        lemma_pct(25);
        lemma_pct(28);
        lemma_pct(30);
        lemma_pct(32);
        lemma_pct(40);
        lemma_pct(45);
        lemma_pct(50);
        lemma_pct(60);
    }
    if oxidising {
        add_pct(s, Lever::Combustion, 50);
    }
    if world.crust == Crust::Hydrocarbon {
        add_pct(s, Lever::Combustion, 30);
    }
    add_unit(s, Lever::Combustion, comp.hydrocarbon.min(Real::from_ratio(30, 100)));
    proof {
        assert(s.score(Lever::Combustion) == world_score(*world, Lever::Combustion));
    }
}
/// Field/resonance: piezoelectric crust, strong dipole, field senses.
fn score_field_resonance(world: &WorldProfile, s: &mut LeverScores)
    requires
        world.wf(),
        old(s).wf(),
        old(s).score(Lever::FieldResonance) == 0,
    ensures
        final(s).wf(),
        final(s).score(Lever::FieldResonance) == world_score(*world, Lever::FieldResonance),
        forall|i: int| 0 <= i < 11 && i != lever_index(Lever::FieldResonance) ==> #[trigger] final(s).scores[i] == old(s).scores[i],
{
    let comp = world.crustal_composition;
    let oxidising = world.atmosphere == Atmosphere::Oxidising;
    let aqueous = world.metabolic_substrate == MetabolicSubstrate::Aqueous;
    let reducing_hazy = world.atmosphere == Atmosphere::Reducing || world.atmosphere == Atmosphere::Hazy;
    proof {
        lemma_pct(3);
        lemma_pct(8);
        lemma_pct(10);
        lemma_pct(12);
        lemma_pct(15);
        lemma_pct(18);
        lemma_pct(20);
        lemma_pct(22);
        lemma_pct(25);
        lemma_pct(28);
        lemma_pct(30);
        lemma_pct(32);
        lemma_pct(40);
        lemma_pct(45);
        lemma_pct(50);
        lemma_pct(60);
    }
    if world.crust == Crust::Piezoelectric {
        add_pct(s, Lever::FieldResonance, 40);
    }
    proof {
        crate::transcendental::lemma_mul_bits_bound(comp.piezoelectric@, pct(60));
        assert(comp.piezoelectric@ * pct(60) <= scale() * scale()) by (nonlinear_arith)
            requires 0 <= comp.piezoelectric@ <= scale(), 0 <= pct(60) <= scale();
        assert(comp.piezoelectric@ * pct(60) >= 0) by (nonlinear_arith)
            requires 0 <= comp.piezoelectric@, 0 <= pct(60);
    }
    let piezo = comp.piezoelectric.mul(Real::from_ratio(60, 100));
    add_unit(s, Lever::FieldResonance, piezo.min(Real::from_ratio(40, 100)));
    match world.magnetosphere {
        Magnetosphere::Strong => add_pct(s, Lever::FieldResonance, 25),
        Magnetosphere::Weak => add_pct(s, Lever::FieldResonance, 8),
        Magnetosphere::Absent => {},
    }
    if has_modality(world, ModalityKind::ElectricField) || has_modality(world, ModalityKind::MagneticSense)
        || has_modality(world, ModalityKind::RadioNative) {
        add_pct(s, Lever::FieldResonance, 22);
    }
    proof {
        assert(s.score(Lever::FieldResonance) == world_score(*world, Lever::FieldResonance));
    }
}
/// Biochemical: life-dense, ore- and fuel-poor, water world.
fn score_biochemical(world: &WorldProfile, s: &mut LeverScores)
    requires
        world.wf(),
        old(s).wf(),
        old(s).score(Lever::Biochemical) == 0,
    ensures
        final(s).wf(),
        final(s).score(Lever::Biochemical) == world_score(*world, Lever::Biochemical),
        forall|i: int| 0 <= i < 11 && i != lever_index(Lever::Biochemical) ==> #[trigger] final(s).scores[i] == old(s).scores[i],
{
    let comp = world.crustal_composition;
    let oxidising = world.atmosphere == Atmosphere::Oxidising;
    let aqueous = world.metabolic_substrate == MetabolicSubstrate::Aqueous;
    let reducing_hazy = world.atmosphere == Atmosphere::Reducing || world.atmosphere == Atmosphere::Hazy;
    proof {
        lemma_pct(3);
        lemma_pct(8);
        lemma_pct(10);
        lemma_pct(12);
        lemma_pct(15);
        lemma_pct(18);
        lemma_pct(20);
        lemma_pct(22);
        lemma_pct(25);
        lemma_pct(28);
        lemma_pct(30);
        lemma_pct(32);
        lemma_pct(40);
        lemma_pct(45);
        lemma_pct(50);
        lemma_pct(60);
    }
    match world.biosphere {
        BiosphereClass::HyperBiodiverse => add_pct(s, Lever::Biochemical, 45),
        BiosphereClass::Lush => add_pct(s, Lever::Biochemical, 22),
        _ => {},
    }
    if aqueous {
        add_pct(s, Lever::Biochemical, 12);
    }
    if comp.ferrous.to_bits() < Real::from_ratio(8, 100).to_bits()
        && comp.hydrocarbon.to_bits() < Real::from_ratio(3, 100).to_bits() {
        add_pct(s, Lever::Biochemical, 20);
    }
    proof {
        assert(s.score(Lever::Biochemical) == world_score(*world, Lever::Biochemical));
    }
}
/// Cryogenic: cold solvent, meagre insolation, exotic crust.
fn score_cryogenic(world: &WorldProfile, s: &mut LeverScores)
    requires
        world.wf(),
        old(s).wf(),
        old(s).score(Lever::Cryogenic) == 0,
    ensures
        final(s).wf(),
        final(s).score(Lever::Cryogenic) == world_score(*world, Lever::Cryogenic),
        forall|i: int| 0 <= i < 11 && i != lever_index(Lever::Cryogenic) ==> #[trigger] final(s).scores[i] == old(s).scores[i],
{
    let comp = world.crustal_composition;
    let oxidising = world.atmosphere == Atmosphere::Oxidising;
    let aqueous = world.metabolic_substrate == MetabolicSubstrate::Aqueous;
    let reducing_hazy = world.atmosphere == Atmosphere::Reducing || world.atmosphere == Atmosphere::Hazy;
    proof {
        lemma_pct(3);
        lemma_pct(8);
        lemma_pct(10);
        lemma_pct(12);
        lemma_pct(15);
        lemma_pct(18);
        lemma_pct(20);
        lemma_pct(22);
        lemma_pct(25);
        lemma_pct(28);
        lemma_pct(30);
        lemma_pct(32);
        lemma_pct(40);
        lemma_pct(45);
        lemma_pct(50);
        lemma_pct(60);
    }
    match world.metabolic_substrate {
        MetabolicSubstrate::Hydrocarbon => add_pct(s, Lever::Cryogenic, 45),
        MetabolicSubstrate::Ammoniacal => add_pct(s, Lever::Cryogenic, 40),
        _ => {},
    }
    if world.stellar_luminosity.to_bits() < Real::from_int(800).to_bits() {
        add_pct(s, Lever::Cryogenic, 25);
    }
    if world.crust == Crust::RareEarth {
        add_pct(s, Lever::Cryogenic, 12);
    }
    proof {
        assert(s.score(Lever::Cryogenic) == world_score(*world, Lever::Cryogenic));
    }
}
/// Mechanical: no fire, abundant kinetic energy.
fn score_mechanical(world: &WorldProfile, s: &mut LeverScores)
    requires
        world.wf(),
        old(s).wf(),
        old(s).score(Lever::Mechanical) == 0,
    ensures
        final(s).wf(),
        final(s).score(Lever::Mechanical) == world_score(*world, Lever::Mechanical),
        forall|i: int| 0 <= i < 11 && i != lever_index(Lever::Mechanical) ==> #[trigger] final(s).scores[i] == old(s).scores[i],
{
    let comp = world.crustal_composition;
    let oxidising = world.atmosphere == Atmosphere::Oxidising;
    let aqueous = world.metabolic_substrate == MetabolicSubstrate::Aqueous;
    let reducing_hazy = world.atmosphere == Atmosphere::Reducing || world.atmosphere == Atmosphere::Hazy;
    proof {
        lemma_pct(3);
        lemma_pct(8);
        lemma_pct(10);
        lemma_pct(12);
        lemma_pct(15);
        lemma_pct(18);
        lemma_pct(20);
        lemma_pct(22);
        lemma_pct(25);
        lemma_pct(28);
        lemma_pct(30);
        lemma_pct(32);
        lemma_pct(40);
        lemma_pct(45);
        lemma_pct(50);
        lemma_pct(60);
    }
    if !oxidising {
        add_pct(s, Lever::Mechanical, 30);
    }
    if world.moon_count >= 2 {
        add_pct(s, Lever::Mechanical, 18);
    } else if world.moon_count == 1 {
        add_pct(s, Lever::Mechanical, 8);
    }
    if aqueous {
        add_pct(s, Lever::Mechanical, 8);
    }
    proof {
        assert(s.score(Lever::Mechanical) == world_score(*world, Lever::Mechanical));
    }
}
/// Hydraulic: water and pressure.
fn score_hydraulic(world: &WorldProfile, s: &mut LeverScores)
    requires
        world.wf(),
        old(s).wf(),
        old(s).score(Lever::Hydraulic) == 0,
    ensures
        final(s).wf(),
        final(s).score(Lever::Hydraulic) == world_score(*world, Lever::Hydraulic),
        forall|i: int| 0 <= i < 11 && i != lever_index(Lever::Hydraulic) ==> #[trigger] final(s).scores[i] == old(s).scores[i],
{
    let comp = world.crustal_composition;
    let oxidising = world.atmosphere == Atmosphere::Oxidising;
    let aqueous = world.metabolic_substrate == MetabolicSubstrate::Aqueous;
    let reducing_hazy = world.atmosphere == Atmosphere::Reducing || world.atmosphere == Atmosphere::Hazy;
    proof {
        lemma_pct(3);
        lemma_pct(8);
        lemma_pct(10);
        lemma_pct(12);
        lemma_pct(15);
        lemma_pct(18);
        lemma_pct(20);
        lemma_pct(22);
        lemma_pct(25);
        lemma_pct(28);
        lemma_pct(30);
        lemma_pct(32);
        lemma_pct(40);
        lemma_pct(45);
        lemma_pct(50);
        lemma_pct(60);
    }
    if aqueous && (oxidising || reducing_hazy) {
        add_pct(s, Lever::Hydraulic, 22);
    }
    proof {
        crate::transcendental::lemma_mul_bits_bound(world.biosphere_density@, pct(10));
        assert(world.biosphere_density@ * pct(10) <= scale() * scale()) by (nonlinear_arith)
            requires 0 <= world.biosphere_density@ <= scale(), 0 <= pct(10) <= scale();
        assert(world.biosphere_density@ * pct(10) >= 0) by (nonlinear_arith)
            requires 0 <= world.biosphere_density@, 0 <= pct(10);
    }
    let dens = world.biosphere_density.mul(Real::from_ratio(10, 100));
    add_unit(s, Lever::Hydraulic, dens.min(Real::from_ratio(10, 100)));
    proof {
        assert(s.score(Lever::Hydraulic) == world_score(*world, Lever::Hydraulic));
    }
}
/// Exotic chemistry: reducing or hazy chemistry on silicate.
fn score_exotic_chemistry(world: &WorldProfile, s: &mut LeverScores)
    requires
        world.wf(),
        old(s).wf(),
        old(s).score(Lever::ExoticChemistry) == 0,
    ensures
        final(s).wf(),
        final(s).score(Lever::ExoticChemistry) == world_score(*world, Lever::ExoticChemistry),
        forall|i: int| 0 <= i < 11 && i != lever_index(Lever::ExoticChemistry) ==> #[trigger] final(s).scores[i] == old(s).scores[i],
{
    let comp = world.crustal_composition;
    let oxidising = world.atmosphere == Atmosphere::Oxidising;
    let aqueous = world.metabolic_substrate == MetabolicSubstrate::Aqueous;
    let reducing_hazy = world.atmosphere == Atmosphere::Reducing || world.atmosphere == Atmosphere::Hazy;
    proof {
        lemma_pct(3);
        lemma_pct(8);
        lemma_pct(10);
        lemma_pct(12);
        lemma_pct(15);
        lemma_pct(18);
        lemma_pct(20);
        lemma_pct(22);
        lemma_pct(25);
        lemma_pct(28);
        lemma_pct(30);
        lemma_pct(32);
        lemma_pct(40);
        lemma_pct(45);
        lemma_pct(50);
        lemma_pct(60);
    }
    if reducing_hazy {
        add_pct(s, Lever::ExoticChemistry, 25);
    }
    if world.metabolic_substrate == MetabolicSubstrate::Silicate {
        add_pct(s, Lever::ExoticChemistry, 25);
    }
    proof {
        assert(s.score(Lever::ExoticChemistry) == world_score(*world, Lever::ExoticChemistry));
    }
}
/// Plasma/EM: strong dipole without the resonance combination.
fn score_plasma_em(world: &WorldProfile, s: &mut LeverScores)
    requires
        world.wf(),
        old(s).wf(),
        old(s).score(Lever::PlasmaEm) == 0,
    ensures
        final(s).wf(),
        final(s).score(Lever::PlasmaEm) == world_score(*world, Lever::PlasmaEm),
        forall|i: int| 0 <= i < 11 && i != lever_index(Lever::PlasmaEm) ==> #[trigger] final(s).scores[i] == old(s).scores[i],
{
    let comp = world.crustal_composition;
    let oxidising = world.atmosphere == Atmosphere::Oxidising;
    let aqueous = world.metabolic_substrate == MetabolicSubstrate::Aqueous;
    let reducing_hazy = world.atmosphere == Atmosphere::Reducing || world.atmosphere == Atmosphere::Hazy;
    proof {
        lemma_pct(3);
        lemma_pct(8);
        lemma_pct(10);
        lemma_pct(12);
        lemma_pct(15);
        lemma_pct(18);
        lemma_pct(20);
        lemma_pct(22);
        lemma_pct(25);
        lemma_pct(28);
        lemma_pct(30);
        lemma_pct(32);
        lemma_pct(40);
        lemma_pct(45);
        lemma_pct(50);
        lemma_pct(60);
    }
    if world.magnetosphere == Magnetosphere::Strong && world.crust != Crust::Piezoelectric {
        add_pct(s, Lever::PlasmaEm, 30);
    }
    if reducing_hazy {
        add_pct(s, Lever::PlasmaEm, 12);
    }
    proof {
        assert(s.score(Lever::PlasmaEm) == world_score(*world, Lever::PlasmaEm));
    }
}
/// Gravitational: many moons, high gravity.
fn score_gravitational(world: &WorldProfile, s: &mut LeverScores)
    requires
        world.wf(),
        old(s).wf(),
        old(s).score(Lever::Gravitational) == 0,
    ensures
        final(s).wf(),
        final(s).score(Lever::Gravitational) == world_score(*world, Lever::Gravitational),
        forall|i: int| 0 <= i < 11 && i != lever_index(Lever::Gravitational) ==> #[trigger] final(s).scores[i] == old(s).scores[i],
{
    let comp = world.crustal_composition;
    let oxidising = world.atmosphere == Atmosphere::Oxidising;
    let aqueous = world.metabolic_substrate == MetabolicSubstrate::Aqueous;
    let reducing_hazy = world.atmosphere == Atmosphere::Reducing || world.atmosphere == Atmosphere::Hazy;
    proof {
        lemma_pct(3);
        lemma_pct(8);
        lemma_pct(10);
        lemma_pct(12);
        lemma_pct(15);
        lemma_pct(18);
        lemma_pct(20);
        lemma_pct(22);
        lemma_pct(25);
        lemma_pct(28);
        lemma_pct(30);
        lemma_pct(32);
        lemma_pct(40);
        lemma_pct(45);
        lemma_pct(50);
        lemma_pct(60);
    }
    if world.moon_count >= 3 {
        add_pct(s, Lever::Gravitational, 30);
    } else if world.moon_count == 2 {
        add_pct(s, Lever::Gravitational, 15);
    }
    if world.gravity.to_bits() > Real::from_int(13).to_bits() {
        add_pct(s, Lever::Gravitational, 20);
    }
    proof {
        assert(s.score(Lever::Gravitational) == world_score(*world, Lever::Gravitational));
    }
}
/// Photonic: bright star, light-sensing biology, clear air.
fn score_photonic(world: &WorldProfile, s: &mut LeverScores)
    requires
        world.wf(),
        old(s).wf(),
        old(s).score(Lever::Photonic) == 0,
    ensures
        final(s).wf(),
        final(s).score(Lever::Photonic) == world_score(*world, Lever::Photonic),
        forall|i: int| 0 <= i < 11 && i != lever_index(Lever::Photonic) ==> #[trigger] final(s).scores[i] == old(s).scores[i],
{
    let comp = world.crustal_composition;
    let oxidising = world.atmosphere == Atmosphere::Oxidising;
    let aqueous = world.metabolic_substrate == MetabolicSubstrate::Aqueous;
    let reducing_hazy = world.atmosphere == Atmosphere::Reducing || world.atmosphere == Atmosphere::Hazy;
    proof {
        lemma_pct(3);
        lemma_pct(8);
        lemma_pct(10);
        lemma_pct(12);
        lemma_pct(15);
        lemma_pct(18);
        lemma_pct(20);
        lemma_pct(22);
        lemma_pct(25);
        lemma_pct(28);
        lemma_pct(30);
        lemma_pct(32);
        lemma_pct(40);
        lemma_pct(45);
        lemma_pct(50);
        lemma_pct(60);
    }
    if world.stellar_luminosity.to_bits() > Real::from_int(1800).to_bits() {
        add_pct(s, Lever::Photonic, 32);
    }
    if has_modality(world, ModalityKind::VisualLight) {
        add_pct(s, Lever::Photonic, 20);
    }
    if world.atmosphere == Atmosphere::Thin || oxidising {
        add_pct(s, Lever::Photonic, 8);
    }
    proof {
        assert(s.score(Lever::Photonic) == world_score(*world, Lever::Photonic));
    }
}
/// Nuclear: radiogenic crust, unshielded radiation-hardened niche.
fn score_nuclear(world: &WorldProfile, s: &mut LeverScores)
    requires
        world.wf(),
        old(s).wf(),
        old(s).score(Lever::Nuclear) == 0,
    ensures
        final(s).wf(),
        final(s).score(Lever::Nuclear) == world_score(*world, Lever::Nuclear),
        forall|i: int| 0 <= i < 11 && i != lever_index(Lever::Nuclear) ==> #[trigger] final(s).scores[i] == old(s).scores[i],
{
    let comp = world.crustal_composition;
    let oxidising = world.atmosphere == Atmosphere::Oxidising;
    let aqueous = world.metabolic_substrate == MetabolicSubstrate::Aqueous;
    let reducing_hazy = world.atmosphere == Atmosphere::Reducing || world.atmosphere == Atmosphere::Hazy;
    proof {
        lemma_pct(3);
        lemma_pct(8);
        lemma_pct(10);
        lemma_pct(12);
        lemma_pct(15);
        lemma_pct(18);
        lemma_pct(20);
        lemma_pct(22);
        lemma_pct(25);
        lemma_pct(28);
        lemma_pct(30);
        lemma_pct(32);
        lemma_pct(40);
        lemma_pct(45);
        lemma_pct(50);
        lemma_pct(60);
    }
    if world.crust == Crust::RareEarth {
        add_pct(s, Lever::Nuclear, 28);
    }
    if world.magnetosphere == Magnetosphere::Absent {
        add_pct(s, Lever::Nuclear, 18);
    }
    if world.radiation_max.to_bits() > Real::from_int(2).to_bits() {
        add_pct(s, Lever::Nuclear, 18);
    }
    proof {
        assert(s.score(Lever::Nuclear) == world_score(*world, Lever::Nuclear));
    }
}
/// Score every lever from the world and species prior: each lever's
/// applicable contributions, summed and capped at one.
pub fn score_world_species(world: &WorldProfile) -> (s: LeverScores)
    requires
        world.wf(),
    ensures
        s.wf(),
        forall|l: Lever| #[trigger] s.score(l) == world_score(*world, l),
{
    let mut s = LeverScores::zero();
    score_combustion(world, &mut s);
    score_field_resonance(world, &mut s);
    score_biochemical(world, &mut s);
    score_cryogenic(world, &mut s);
    score_mechanical(world, &mut s);
    score_hydraulic(world, &mut s);
    score_exotic_chemistry(world, &mut s);
    score_plasma_em(world, &mut s);
    score_gravitational(world, &mut s);
    score_photonic(world, &mut s);
    score_nuclear(world, &mut s);
    proof {
        assert forall|l: Lever| #[trigger] s.score(l) == world_score(*world, l) by {
            match l {
                Lever::Combustion => {},
                Lever::FieldResonance => {},
                Lever::Biochemical => {},
                Lever::Cryogenic => {},
                Lever::Mechanical => {},
                Lever::Hydraulic => {},
                Lever::ExoticChemistry => {},
                Lever::PlasmaEm => {},
                Lever::Gravitational => {},
                Lever::Photonic => {},
                Lever::Nuclear => {},
            }
        }
    }
    s
}


/// Full run-start profile: prior scores, label and cognition overlay.
pub fn classify_world_species(world: &WorldProfile) -> (p: ArchetypeProfile)
    requires
        world.wf(),
    ensures
        p.scores.wf(),
        forall|l: Lever| #[trigger] p.scores.score(l) == world_score(*world, l),
        exists|v: Seq<(Lever, Real)>| ranked_spec(p.scores, v) && p.label == #[trigger] classify_ranked(v),
        p.cognition == cognition_mode_of(world.cognition_topology),
{
    let scores = score_world_species(world);
    let label = classify(&scores);
    ArchetypeProfile { scores, label, cognition: cognition_mode(world) }
}

/// The lever a confirmed-relation channel points at; temperature is
/// neutral.
pub open spec fn channel_lever_spec(c: Channel) -> Option<Lever> {
    match c {
        Channel::Fuel | Channel::Oxidiser | Channel::Fossil => Some(Lever::Combustion),
        Channel::ChargeMagnitude => Some(Lever::FieldResonance),
        Channel::MagneticField => Some(Lever::PlasmaEm),
        Channel::WaterDepth | Channel::Vapour => Some(Lever::Hydraulic),
        Channel::Ice => Some(Lever::Cryogenic),
        Channel::Elevation => Some(Lever::Mechanical),
        Channel::Temperature => None,
    }
}

/// Primary lever a confirmed-relation channel points at.
pub fn channel_lever(channel: Channel) -> (r: Option<Lever>)
    ensures
        r == channel_lever_spec(channel),
{
    match channel {
        Channel::Fuel | Channel::Oxidiser | Channel::Fossil => Some(Lever::Combustion),
        Channel::ChargeMagnitude => Some(Lever::FieldResonance),
        Channel::MagneticField => Some(Lever::PlasmaEm),
        Channel::WaterDepth | Channel::Vapour => Some(Lever::Hydraulic),
        Channel::Ice => Some(Lever::Cryogenic),
        Channel::Elevation => Some(Lever::Mechanical),
        Channel::Temperature => None,
    }
}

/// The lever a tool's unlock points at.
pub open spec fn tool_lever_spec(t: ToolKind) -> Option<Lever> {
    match t {
        ToolKind::LocalisedCombustion | ToolKind::MaterialRefining | ToolKind::ChemicalSynthesis
        | ToolKind::ChemicalProjectile | ToolKind::PowerGeneration => Some(Lever::Combustion),
        ToolKind::FieldSensor | ToolKind::MagneticSensor | ToolKind::BioelectricResonator
        | ToolKind::FieldPropulsionEngine | ToolKind::MetamaterialLattice => Some(Lever::FieldResonance),
        ToolKind::AnimalSymbiosis | ToolKind::BiomimeticDesign | ToolKind::GeneCultureCoevolution
        | ToolKind::GeneticManipulation | ToolKind::OrganicSynthesis | ToolKind::AdvancedMedicine
        | ToolKind::EcosystemEngineering => Some(Lever::Biochemical),
        ToolKind::CryogenicEngineering | ToolKind::EnergyStorage => Some(Lever::Cryogenic),
        ToolKind::MechanicalAdvantage | ToolKind::WindPower | ToolKind::PrecisionTimekeeping
        | ToolKind::AnalyticalEngines | ToolKind::Mechanisation | ToolKind::MotivePropulsion => Some(Lever::Mechanical),
        ToolKind::HydraulicWorks | ToolKind::FluidControl | ToolKind::WatercraftConstruction => Some(Lever::Hydraulic),
        ToolKind::DistanceImaging => Some(Lever::Photonic),
        _ => None,
    }
}

/// Primary lever a tool's unlock points at.
pub fn tool_lever(tool: ToolKind) -> (r: Option<Lever>)
    ensures
        r == tool_lever_spec(tool),
{
    match tool {
        ToolKind::LocalisedCombustion | ToolKind::MaterialRefining | ToolKind::ChemicalSynthesis
        | ToolKind::ChemicalProjectile | ToolKind::PowerGeneration => Some(Lever::Combustion),
        ToolKind::FieldSensor | ToolKind::MagneticSensor | ToolKind::BioelectricResonator
        | ToolKind::FieldPropulsionEngine | ToolKind::MetamaterialLattice => Some(Lever::FieldResonance),
        ToolKind::AnimalSymbiosis | ToolKind::BiomimeticDesign | ToolKind::GeneCultureCoevolution
        | ToolKind::GeneticManipulation | ToolKind::OrganicSynthesis | ToolKind::AdvancedMedicine
        | ToolKind::EcosystemEngineering => Some(Lever::Biochemical),
        ToolKind::CryogenicEngineering | ToolKind::EnergyStorage => Some(Lever::Cryogenic),
        ToolKind::MechanicalAdvantage | ToolKind::WindPower | ToolKind::PrecisionTimekeeping
        | ToolKind::AnalyticalEngines | ToolKind::Mechanisation | ToolKind::MotivePropulsion => Some(Lever::Mechanical),
        ToolKind::HydraulicWorks | ToolKind::FluidControl | ToolKind::WatercraftConstruction => Some(Lever::Hydraulic),
        ToolKind::DistanceImaging => Some(Lever::Photonic),
        _ => None,
    }
}

/// Contribution of `count` confirmed relations: `0.02` each, capped at
/// `0.35`.
pub open spec fn relation_contribution(count: u32) -> int {
    min_bits(mul_bits(pct(2), int_bits(count as int)), pct(35))
}

/// Total channel contribution to lever `l` over a list of `(channel,
/// count)` entries.
pub open spec fn channel_total(l: Lever, entries: Seq<(Channel, u32)>) -> int
    decreases entries.len(),
{
    if entries.len() == 0 {
        0
    } else {
        channel_total(l, entries.drop_last()) + when(
            channel_lever_spec(entries.last().0) == Some(l),
            relation_contribution(entries.last().1),
        )
    }
}

/// Total tool contribution to lever `l`: `0.10` per tool on its branch.
pub open spec fn tool_total(l: Lever, tools: Seq<ToolKind>) -> int
    decreases tools.len(),
{
    if tools.len() == 0 {
        0
    } else {
        tool_total(l, tools.drop_last()) + when(tool_lever_spec(tools.last()) == Some(l), pct(10))
    }
}

/// The refined score of a lever: prior plus channel and tool
/// contributions, capped at one.
pub open spec fn refined_score(prior: LeverScores, l: Lever, entries: Seq<(Channel, u32)>, tools: Seq<ToolKind>) -> int {
    min_bits(prior.score(l) + channel_total(l, entries) + tool_total(l, tools), scale())
}

/// Channel totals are non-negative.
proof fn lemma_channel_total_nonneg(l: Lever, entries: Seq<(Channel, u32)>)
    requires
        forall|i: int| 0 <= i < entries.len() ==> #[trigger] entries[i].1 < 0x8000_0000,
    ensures
        channel_total(l, entries) >= 0,
    decreases entries.len(),
{
    if entries.len() > 0 {
        lemma_channel_total_nonneg(l, entries.drop_last());
        lemma_relation_contribution(entries.last().1);
    }
}

/// A relation contribution lies in `[0, 0.35]`.
proof fn lemma_relation_contribution(count: u32)
    requires
        count < 0x8000_0000,
    ensures
        0 <= relation_contribution(count) <= pct(35),
        mul_ok(pct(2), int_bits(count as int)),
{
    lemma_pct(2);
    lemma_pct(35);
    let b = int_bits(count as int);
    assert(0 <= b < 0x8000_0000 * scale()) by (nonlinear_arith) requires b == count * scale(), count < 0x8000_0000, scale() > 0;
    assert(0 <= pct(2) * b <= scale() * (0x8000_0000 * scale())) by (nonlinear_arith)
        requires 0 <= pct(2) <= scale(), 0 <= b < 0x8000_0000 * scale();
    vstd::arithmetic::div_mod::lemma_div_pos_is_pos(pct(2) * b, scale());
    assert(pct(2) * b < 0x8000_0000_0000_0000_0000_0000) by (nonlinear_arith)
        requires 0 <= pct(2) <= scale(), 0 <= b < 0x8000_0000 * scale(), scale() == 4294967296;
}

/// Tool totals are non-negative.
proof fn lemma_tool_total_nonneg(l: Lever, tools: Seq<ToolKind>)
    ensures
        tool_total(l, tools) >= 0,
    decreases tools.len(),
{
    lemma_pct(10);
    if tools.len() > 0 {
        lemma_tool_total_nonneg(l, tools.drop_last());
    }
}

/// Refine the world-and-species prior with a civ's realized
/// trajectory: `0.02` per confirmed relation on a lever's channel
/// (capped at `0.35` per entry) and `0.10` per unlocked tool on its
/// branch. The original panics on a count of `2^31` or more; excluded.
pub fn refine_with_run(prior: &LeverScores, confirmed_by_channel: &Vec<(Channel, u32)>, unlocked_tools: &Vec<ToolKind>) -> (s: LeverScores)
    requires
        prior.wf(),
        forall|i: int| 0 <= i < confirmed_by_channel.len() ==> #[trigger] confirmed_by_channel@[i].1 < 0x8000_0000,
    ensures
        s.wf(),
        forall|l: Lever| #[trigger] s.score(l) == refined_score(*prior, l, confirmed_by_channel@, unlocked_tools@),
{
    let mut s = *prior;
    let per_relation = Real::from_ratio(2, 100);
    let channel_cap = Real::from_ratio(35, 100);
    let mut i: usize = 0;
    while i < confirmed_by_channel.len()
        invariant
            i <= confirmed_by_channel.len(),
            s.wf(),
            prior.wf(),
            per_relation@ == pct(2),
            channel_cap@ == pct(35),
            forall|q: int| 0 <= q < confirmed_by_channel.len() ==> #[trigger] confirmed_by_channel@[q].1 < 0x8000_0000,
            forall|l: Lever| #[trigger] s.score(l) == min_bits(prior.score(l) + channel_total(l, confirmed_by_channel@.subrange(0, i as int)), scale()),
        decreases confirmed_by_channel.len() - i,
    {
        let (channel, count) = confirmed_by_channel[i];
        let ghost sub = confirmed_by_channel@.subrange(0, i as int);
        proof {
            assert(confirmed_by_channel@.subrange(0, i + 1).drop_last() =~= sub);
            lemma_relation_contribution(count);
        }
        let ghost s_before = s;
        match channel_lever(channel) {
            Some(lever) => {
                let contribution = per_relation.mul(Real::from_int(count as i64)).min(channel_cap);
                proof {
                    lemma_pct(35);
                    assert forall|l: Lever| l != lever implies lever_index(l) != lever_index(lever) by {
                        lemma_lever_index_roundtrip(l);
                        lemma_lever_index_roundtrip(lever);
                    }
                    assert forall|l: Lever| #[trigger] lever_index(l) < 11 implies channel_total(l, sub) >= 0 by {
                        lemma_channel_total_nonneg(l, sub);
                    }
                }
                add_unit(&mut s, lever, contribution);
            },
            None => {},
        }
        proof {
            let full = confirmed_by_channel@.subrange(0, i + 1);
            assert(full.last() == (channel, count));
            assert(full.drop_last() =~= sub);
            assert forall|l: Lever| #[trigger] s.score(l) == min_bits(prior.score(l) + channel_total(l, confirmed_by_channel@.subrange(0, i + 1)), scale()) by {
                assert(channel_total(l, full) == channel_total(l, sub) + when(channel_lever_spec(channel) == Some(l), relation_contribution(count)));
                assert(s_before.score(l) == min_bits(prior.score(l) + channel_total(l, sub), scale()));
                lemma_channel_total_nonneg(l, sub);
                match channel_lever_spec(channel) {
                    Some(lv) => {
                        lemma_lever_index_roundtrip(lv);
                        if lv != l {
                            assert(lever_index(lv) != lever_index(l)) by {
                                lemma_lever_index_roundtrip(l);
                            }
                            assert(s.scores[lever_index(l) as int] == s_before.scores[lever_index(l) as int]);
                        }
                    },
                    None => {},
                }
                lemma_lever_index_roundtrip(l);
                assert(0 <= prior.scores[lever_index(l) as int]@ <= scale());
            }
        }
        i = i + 1;
    }
    proof {
        assert(confirmed_by_channel@.subrange(0, i as int) =~= confirmed_by_channel@);
    }
    let per_tool = Real::from_ratio(10, 100);
    let mut j: usize = 0;
    while j < unlocked_tools.len()
        invariant
            j <= unlocked_tools.len(),
            s.wf(),
            prior.wf(),
            per_tool@ == pct(10),
            forall|q: int| 0 <= q < confirmed_by_channel.len() ==> #[trigger] confirmed_by_channel@[q].1 < 0x8000_0000,
            forall|l: Lever| #[trigger] s.score(l) == min_bits(prior.score(l) + channel_total(l, confirmed_by_channel@) + tool_total(l, unlocked_tools@.subrange(0, j as int)), scale()),
        decreases unlocked_tools.len() - j,
    {
        let tool = unlocked_tools[j];
        let ghost sub = unlocked_tools@.subrange(0, j as int);
        proof {
            assert(unlocked_tools@.subrange(0, j + 1).drop_last() =~= sub);
            lemma_pct(10);
        }
        let ghost s_before = s;
        match tool_lever(tool) {
            Some(lever) => {
                add_unit(&mut s, lever, per_tool);
            },
            None => {},
        }
        proof {
            let full = unlocked_tools@.subrange(0, j + 1);
            assert(full.last() == tool);
            assert(full.drop_last() =~= sub);
            assert forall|l: Lever| #[trigger] s.score(l) == min_bits(prior.score(l) + channel_total(l, confirmed_by_channel@) + tool_total(l, unlocked_tools@.subrange(0, j + 1)), scale()) by {
                assert(tool_total(l, full) == tool_total(l, sub) + when(tool_lever_spec(tool) == Some(l), pct(10)));
                assert(s_before.score(l) == min_bits(prior.score(l) + channel_total(l, confirmed_by_channel@) + tool_total(l, sub), scale()));
                match tool_lever_spec(tool) {
                    Some(lv) => {
                        lemma_lever_index_roundtrip(lv);
                        if lv != l {
                            assert(lever_index(lv) != lever_index(l)) by {
                                lemma_lever_index_roundtrip(l);
                            }
                            assert(s.scores[lever_index(l) as int] == s_before.scores[lever_index(l) as int]);
                        }
                    },
                    None => {},
                }
                lemma_channel_total_nonneg(l, confirmed_by_channel@);
                lemma_tool_total_nonneg(l, sub);
                lemma_lever_index_roundtrip(l);
                assert(0 <= prior.scores[lever_index(l) as int]@ <= scale());
                match tool_lever_spec(tool) {
                    Some(lv) => {
                        lemma_lever_index_roundtrip(lv);
                    },
                    None => {},
                }
            }
        }
        j = j + 1;
    }
    proof {
        assert(unlocked_tools@.subrange(0, j as int) =~= unlocked_tools@);
    }
    s
}

/// Realized profile: refine the prior with the run's signals, then
/// classify.
pub fn classify_realized(
    world: &WorldProfile,
    confirmed_by_channel: &Vec<(Channel, u32)>,
    unlocked_tools: &Vec<ToolKind>,
) -> (p: ArchetypeProfile)
    requires
        world.wf(),
        forall|i: int| 0 <= i < confirmed_by_channel.len() ==> #[trigger] confirmed_by_channel@[i].1 < 0x8000_0000,
    ensures
        p.scores.wf(),
        exists|prior: LeverScores| #![trigger prior.wf()] prior.wf() && (forall|l: Lever| #[trigger] prior.score(l) == world_score(*world, l))
            && forall|l: Lever| #[trigger] p.scores.score(l) == refined_score(prior, l, confirmed_by_channel@, unlocked_tools@),
        exists|v: Seq<(Lever, Real)>| ranked_spec(p.scores, v) && p.label == #[trigger] classify_ranked(v),
        p.cognition == cognition_mode_of(world.cognition_topology),
{
    let prior = score_world_species(world);
    let scores = refine_with_run(&prior, confirmed_by_channel, unlocked_tools);
    let label = classify(&scores);
    ArchetypeProfile { scores, label, cognition: cognition_mode(world) }
}

} // verus!
