//! The war round. Strength is `population × (1 + literacy) × (1 +
//! hierarchy/2) × tool multiplier × surplus modifier`; the stronger civ
//! (ties to the lower id) wins each check. In every disputed cell the
//! loser's fertile adults fall by the casualty fraction and its
//! juveniles by 30% of it, and a cell whose loser head count drops to
//! 25 or below passes to the winner.

use crate::arith::{clamp01_bits, div_bits, div_ok, fits, int_bits, lemma_mul_unit, lemma_ratio_unit, max_bits, min_bits, mul_bits, mul_ok, ratio_bits, scale, Real};
use crate::cohort::{cohort_total, Cohort};
use crate::conflict::grudge::{bump_grudge, bumped_entry, grudge_bump_loser, grudge_bump_winner, grudge_ceiling};
use crate::cosmology::Cosmology;
use crate::economy::{surplus_war_strength_modifier, war_modifier_bits};
use crate::religion::Religion;
use crate::transcendental::{abs_int, ln, ln_bits, LN_2_BITS};
use std::collections::{BTreeMap, BTreeSet};
use vstd::prelude::*;

verus! {

broadcast use vstd::laws_cmp::group_laws_cmp;

/// Ticks between two conflict checks of a pair.
pub const CONFLICT_CHECK_TICKS: u64 = 75;

/// Head count at or below which a disputed cell passes to the winner.
pub const CELL_FLIP_FLOOR: i64 = 25;

/// Whether a sequence of cell ids is strictly increasing.
pub open spec fn ascending(s: Seq<u32>) -> bool {
    forall|i: int, j: int| 0 <= i < j < s.len() ==> s[i] < s[j]
}

/// What the war logic reads and changes of a civ.
#[derive(Debug, Clone)]
pub struct WarParty {
    pub id: u32,
    /// Aggregate population.
    pub population: Real,
    /// Literacy score at the current tick.
    pub literacy: Real,
    pub cosmology: Cosmology,
    pub religion: Religion,
    /// Internal cohesion.
    pub cohesion: Real,
    pub surplus: Real,
    /// Product of the war-strength contributions of the civ's tools.
    pub tool_war_multiplier: Real,
    /// Claimed cells, ascending.
    pub claimed_cells: Vec<u32>,
    /// Per-cell cohorts.
    pub region_cohorts: BTreeMap<u32, Cohort>,
    /// Grudge score and last-bump tick per other civ.
    pub grudges: BTreeMap<u32, (Real, u64)>,
    /// Civs this one is allied with.
    pub allied_with: BTreeSet<u32>,
    /// Generations since the species' founding civ.
    pub lineage_depth: u32,
    /// Carrying capacity of the civ's territory, terrain included.
    pub carrying_capacity: Real,
}

impl WarParty {
    /// Claims ascending, cohorts well formed, worldview axes in range,
    /// stored grudges within `[0, 0.6]`.
    pub open spec fn wf(&self) -> bool {
        &&& ascending(self.claimed_cells@)
        &&& forall|k: u32| #[trigger] self.region_cohorts@.contains_key(k) ==> self.region_cohorts@[k].wf()
        &&& self.religion.wf()
        &&& forall|k: u32|
            #[trigger] self.grudges@.contains_key(k) ==> 0 <= self.grudges@[k].0@ <= grudge_ceiling()
    }
}

/// Composite hierarchical strength in `[0, 1]`: 40% the cosmology's
/// hierarchical axis, 20% the mean magnitude of theology and ritual,
/// 25% cohesion and 15% surplus per head, each clamped to `[0, 1]`.
pub open spec fn hierarchical_bits(p: WarParty) -> int {
    let cosmology_h = clamp01_bits(p.cosmology.hierarchical@);
    let religion_h = clamp01_bits(
        div_bits(abs_int(p.religion.theology@) + abs_int(p.religion.ritual@), int_bits(2)),
    );
    let kinship_h = clamp01_bits(p.cohesion@);
    let economic_h = if p.population@ > 0 {
        clamp01_bits(div_bits(p.surplus@, p.population@))
    } else {
        0
    };
    clamp01_bits(
        mul_bits(ratio_bits(40, 100), cosmology_h) + mul_bits(ratio_bits(20, 100), religion_h)
            + mul_bits(ratio_bits(25, 100), kinship_h) + mul_bits(ratio_bits(15, 100), economic_h),
    )
}

/// Surplus per head is representable (needed whenever the civ is
/// populated).
pub open spec fn surplus_ratio_ok(p: WarParty) -> bool {
    p.population@ > 0 ==> div_ok(p.surplus@, p.population@)
}

fn weighted(w_pct: i64, x: Real) -> (r: Real)
    requires
        0 <= w_pct <= 100,
        0 <= x@ <= scale(),
    ensures
        r@ == mul_bits(ratio_bits(w_pct as int, 100), x@),
        0 <= r@ <= scale(),
{
    proof {
        lemma_ratio_unit(w_pct as int, 100);
        lemma_mul_unit(ratio_bits(w_pct as int, 100), x@);
    }
    Real::percent(w_pct).mul(x)
}

/// The civ's composite hierarchical strength.
pub fn hierarchical_strength(civ: &WarParty) -> (r: Real)
    requires
        civ.religion.wf(),
        surplus_ratio_ok(*civ),
    ensures
        r@ == hierarchical_bits(*civ),
        0 <= r@ <= scale(),
{
    let cosmology_h = civ.cosmology.hierarchical.clamp01();
    let t = civ.religion.theology.abs();
    let ri = civ.religion.ritual.abs();
    let both = t.add(ri);
    proof {
        crate::transcendental::lemma_div_int_bound(both@, 2);
    }
    let religion_h = both.div(Real::from_int(2)).clamp01();
    let kinship_h = civ.cohesion.clamp01();
    let economic_h = if civ.population.bits > 0 {
        civ.surplus.div(civ.population).clamp01()
    } else {
        Real::zero()
    };
    let sum = weighted(40, cosmology_h).add(weighted(20, religion_h)).add(weighted(25, kinship_h)).add(
        weighted(15, economic_h),
    );
    sum.clamp01()
}

/// `min(1, ln(cells) / (2 ln 10))`, zero for no cells.
pub open spec fn size_factor_bits(cells: int) -> int {
    if cells == 0 {
        0
    } else {
        clamp01_bits(div_bits(ln_bits(int_bits(cells)), mul_bits(ln_bits(int_bits(10)), int_bits(2))))
    }
}

/// Organisational reach of a civ of `cells` cells: `min(1, log10(cells)
/// / 2)`, so a single cell has none and a hundred cells have it all.
pub fn hierarchy_size_factor(cells: usize) -> (r: Real)
    requires
        cells < 0x8000_0000,
    ensures
        r@ == size_factor_bits(cells as int),
        0 <= r@ <= scale(),
{
    if cells == 0 {
        return Real::zero();
    }
    let n = Real::from_int(cells as i64);
    let ln_n = ln(n);
    let ln_10 = ln(Real::from_int(10));
    let two = Real::from_int(2);
    proof {
        assert(0 <= ln_10@ < 0x40_0000_0000);
        assert(mul_ok(ln_10@, two@)) by (nonlinear_arith)
            requires 0 <= ln_10@ < 0x40_0000_0000, two@ == 8589934592;
    }
    let den = ln_10.mul(two);
    proof {
        assert(ln_10@ >= LN_2_BITS);
        assert(den@ == 2 * ln_10@) by {
            assert(ln_10@ * two@ == (2 * ln_10@) * scale()) by (nonlinear_arith)
                requires two@ == 8589934592;
            vstd::arithmetic::div_mod::lemma_div_by_multiple(2 * ln_10@, scale());
        }
        assert(0 <= ln_n@ < 0x40_0000_0000);
        assert(div_ok(ln_n@, den@)) by {
            let a = ln_n@;
            let q = a * scale();
            assert(0 <= q) by (nonlinear_arith) requires 0 <= a, q == a * 4294967296;
            assert(den@ >= scale());
            vstd::arithmetic::div_mod::lemma_div_is_ordered_by_denominator(q, scale(), den@);
            vstd::arithmetic::div_mod::lemma_div_by_multiple(a, scale());
            vstd::arithmetic::div_mod::lemma_div_pos_is_pos(q, den@);
        }
    }
    ln_n.div(den).clamp01()
}

/// `population × (1 + literacy) × (1 + hierarchy/2) × tools × surplus
/// modifier`, each product in Q32.32.
pub open spec fn strength_bits(p: WarParty) -> int {
    let war_bonus = scale() + div_bits(hierarchical_bits(p), int_bits(2));
    let s1 = mul_bits(p.population@, scale() + p.literacy@);
    let s2 = mul_bits(s1, war_bonus);
    let s3 = mul_bits(s2, p.tool_war_multiplier@);
    mul_bits(s3, war_modifier_bits(p.surplus@, p.population@))
}

/// The products of `strength_bits` are representable.
pub open spec fn strength_ok(p: WarParty) -> bool {
    let war_bonus = scale() + div_bits(hierarchical_bits(p), int_bits(2));
    let s1 = mul_bits(p.population@, scale() + p.literacy@);
    let s2 = mul_bits(s1, war_bonus);
    let s3 = mul_bits(s2, p.tool_war_multiplier@);
    &&& p.religion.wf()
    &&& surplus_ratio_ok(p)
    &&& fits(scale() + p.literacy@)
    &&& mul_ok(p.population@, scale() + p.literacy@)
    &&& mul_ok(s1, war_bonus)
    &&& mul_ok(s2, p.tool_war_multiplier@)
    &&& mul_ok(s3, war_modifier_bits(p.surplus@, p.population@))
}

/// The civ's war strength.
pub fn strength(civ: &WarParty) -> (r: Real)
    requires
        strength_ok(*civ),
    ensures
        r@ == strength_bits(*civ),
{
    let literacy = civ.literacy;
    let hier = hierarchical_strength(civ);
    proof {
        crate::transcendental::lemma_div_int_bound(hier@, 2);
    }
    let war_bonus = Real::one().add(hier.div(Real::from_int(2)));
    let surplus_modifier = surplus_war_strength_modifier(civ.surplus, civ.population);
    civ.population.mul(Real::one().add(literacy)).mul(war_bonus).mul(civ.tool_war_multiplier).mul(
        surplus_modifier,
    )
}

/// `mul_bits` grows with either factor while the other is non-negative.
proof fn lemma_mul_bits_mono(a: int, a2: int, b: int, b2: int)
    requires
        0 <= a <= a2,
        0 <= b <= b2,
    ensures
        0 <= mul_bits(a, b) <= mul_bits(a2, b2),
{
    assert(0 <= a * b <= a2 * b2) by (nonlinear_arith) requires 0 <= a <= a2, 0 <= b <= b2;
    vstd::arithmetic::div_mod::lemma_div_is_ordered(a * b, a2 * b2, scale());
    vstd::arithmetic::div_mod::lemma_div_pos_is_pos(a * b, scale());
}

/// Division by a positive value keeps the order of the numerators.
proof fn lemma_div_bits_mono(x: int, x2: int, d: int)
    requires
        x <= x2,
        d > 0,
    ensures
        div_bits(x, d) <= div_bits(x2, d),
{
    let s = scale();
    let n = x * s;
    let n2 = x2 * s;
    assert(n <= n2) by (nonlinear_arith) requires x <= x2, s > 0, n == x * s, n2 == x2 * s;
    if n >= 0 {
        vstd::arithmetic::div_mod::lemma_div_is_ordered(n, n2, d);
    } else if n2 < 0 {
        vstd::arithmetic::div_mod::lemma_div_is_ordered(-n2, -n, d);
    } else {
        vstd::arithmetic::div_mod::lemma_div_pos_is_pos(-n, d);
        vstd::arithmetic::div_mod::lemma_div_pos_is_pos(n2, d);
    }
}

/// A larger surplus never weakens a civ in war: with everything else
/// equal, raising the surplus of a populated civ (of literacy at least
/// minus one and non-negative tool multiplier) raises its hierarchy and
/// its surplus modifier, so its strength does not drop.
pub proof fn lemma_surplus_never_weakens(p: WarParty, q: WarParty)
    requires
        q == (WarParty { surplus: q.surplus, ..p }),
        p.surplus@ <= q.surplus@,
        p.population@ > 0,
        p.literacy@ >= -scale(),
        p.tool_war_multiplier@ >= 0,
    ensures
        strength_bits(p) <= strength_bits(q),
{
    let s = scale();
    let pop = p.population@;
    let c = ratio_bits(15, 100);
    lemma_ratio_unit(15, 100);
    lemma_div_bits_mono(p.surplus@, q.surplus@, pop);
    let e_p = clamp01_bits(div_bits(p.surplus@, pop));
    let e_q = clamp01_bits(div_bits(q.surplus@, pop));
    assert(0 <= e_p <= e_q <= s);
    lemma_mul_bits_mono(c, c, e_p, e_q);
    lemma_mul_bits_mono(e_p, e_q, c, c);
    let h_p = hierarchical_bits(p);
    let h_q = hierarchical_bits(q);
    assert(0 <= h_p <= h_q <= s);
    crate::transcendental::lemma_div_int_bound(h_p, 2);
    crate::transcendental::lemma_div_int_bound(h_q, 2);
    let wb_p = s + div_bits(h_p, int_bits(2));
    let wb_q = s + div_bits(h_q, int_bits(2));
    assert(0 <= wb_p <= wb_q);
    let s1 = mul_bits(pop, s + p.literacy@);
    crate::transcendental::lemma_mul_bits_bound(pop, s + p.literacy@);
    lemma_mul_bits_mono(s1, s1, wb_p, wb_q);
    let t = p.tool_war_multiplier@;
    lemma_mul_bits_mono(mul_bits(s1, wb_p), mul_bits(s1, wb_q), t, t);
    let m_p = war_modifier_bits(p.surplus@, pop);
    let m_q = war_modifier_bits(q.surplus@, pop);
    assert(0 <= m_p <= m_q);
    lemma_mul_bits_mono(mul_bits(mul_bits(s1, wb_p), t), mul_bits(mul_bits(s1, wb_q), t), m_p, m_q);
}

/// A surplus that covers the whole population makes a civ at least 14%
/// stronger in war than the same civ with empty granaries: the surplus
/// modifier alone is worth 15%, and a surplus also adds to the civ's
/// hierarchy (the remaining point is fixed-point rounding, negligible
/// once the strength is above a few hundred bits).
pub proof fn lemma_full_granary_strengthens(p0: WarParty, p1: WarParty)
    requires
        p1 == (WarParty { surplus: p1.surplus, ..p0 }),
        p0.surplus@ == 0,
        p1.surplus@ >= p0.population@ > 0,
        p0.literacy@ >= -scale(),
        p0.tool_war_multiplier@ >= 0,
        strength_bits(p0) >= 200,
    ensures
        100 * strength_bits(p1) >= 114 * strength_bits(p0),
{
    let s = scale();
    let pop = p0.population@;
    let x = p1.surplus@;
    let c = ratio_bits(15, 100);
    crate::arith::lemma_ratio_value(15, 100);
    assert(c == 644245094) by {
        assert(15 * s == 64424509440);
        assert(64424509440int / 100int == 644245094);
    }
    // Surplus per head: zero against full.
    assert(div_bits(0, pop) == 0);
    assert(div_bits(x, pop) >= s) by {
        assert(x * s >= pop * s) by (nonlinear_arith) requires x >= pop > 0, s > 0;
        vstd::arithmetic::div_mod::lemma_div_is_ordered(pop * s, x * s, pop);
        vstd::arithmetic::div_mod::lemma_div_multiples_vanish(s, pop);
        assert(pop * s == s * pop) by (nonlinear_arith);
    }
    assert(clamp01_bits(div_bits(x, pop)) == s);
    assert(mul_bits(0, c) == 0);
    assert(mul_bits(s, c) == c) by {
        vstd::arithmetic::div_mod::lemma_div_multiples_vanish(c, s);
        assert(s * c == c * s) by (nonlinear_arith);
    }
    assert(mul_bits(c, 0) == 0);
    assert(mul_bits(c, s) == c) by {
        vstd::arithmetic::div_mod::lemma_div_multiples_vanish(c, s);
    }
    // The hierarchy can only grow.
    let h0 = hierarchical_bits(p0);
    let h1 = hierarchical_bits(p1);
    assert(0 <= h0 <= h1 <= s);
    crate::transcendental::lemma_div_int_bound(h0, 2);
    crate::transcendental::lemma_div_int_bound(h1, 2);
    let wb0 = s + div_bits(h0, int_bits(2));
    let wb1 = s + div_bits(h1, int_bits(2));
    assert(0 <= wb0 <= wb1);
    // The products before the surplus modifier can only grow.
    let s1 = mul_bits(pop, s + p0.literacy@);
    crate::transcendental::lemma_mul_bits_bound(pop, s + p0.literacy@);
    lemma_mul_bits_mono(s1, s1, wb0, wb1);
    let s2_0 = mul_bits(s1, wb0);
    let s2_1 = mul_bits(s1, wb1);
    let t = p0.tool_war_multiplier@;
    lemma_mul_bits_mono(s2_0, s2_1, t, t);
    let s3_0 = mul_bits(s2_0, t);
    let s3_1 = mul_bits(s2_1, t);
    // The modifiers: one against one plus 15%.
    assert(war_modifier_bits(p0.surplus@, pop) == s);
    assert(war_modifier_bits(x, pop) == s + c);
    assert(strength_bits(p0) == mul_bits(s3_0, s));
    assert(strength_bits(p1) == mul_bits(s3_1, s + c));
    assert(mul_bits(s3_0, s) == s3_0) by {
        vstd::arithmetic::div_mod::lemma_div_multiples_vanish(s3_0, s);
        assert(s3_0 * s == s * s3_0) by (nonlinear_arith);
    }
    lemma_mul_bits_mono(s3_0, s3_1, s + c, s + c);
    let q = mul_bits(s3_0, s + c);
    assert(100 * q >= 114 * s3_0) by {
        let y = s3_0 * (s + c);
        vstd::arithmetic::div_mod::lemma_fundamental_div_mod(y, s);
        vstd::arithmetic::div_mod::lemma_mod_bound(y, s);
        assert(q == y / s);
        assert(s * q + s > y);
        assert(100 * q >= 114 * s3_0) by (nonlinear_arith)
            requires
                s * q + s > y,
                y == s3_0 * (s + c),
                s == 4294967296,
                c == 644245094,
                s3_0 >= 200;
    }
}

/// Whether `x` occurs in `v`.
pub(crate) fn contains_cell(v: &Vec<u32>, x: u32) -> (b: bool)
    ensures
        b == v@.contains(x),
{
    let mut i: usize = 0;
    while i < v.len()
        invariant
            i <= v.len(),
            forall|j: int| 0 <= j < i ==> v@[j] != x,
        decreases v.len() - i,
    {
        if v[i] == x {
            assert(v@[i as int] == x);
            return true;
        }
        i += 1;
    }
    false
}

/// `r` lists, ascending, exactly the cells both `a` and `b` hold.
pub open spec fn is_overlap(r: Seq<u32>, a: Seq<u32>, b: Seq<u32>) -> bool {
    &&& ascending(r)
    &&& forall|x: u32| r.contains(x) <==> (a.contains(x) && b.contains(x))
}

/// Two ascending sequences holding the same values are equal.
proof fn lemma_ascending_unique(s: Seq<u32>, t: Seq<u32>)
    requires
        ascending(s),
        ascending(t),
        forall|x: u32| s.contains(x) <==> t.contains(x),
    ensures
        s == t,
    decreases s.len(),
{
    if s.len() == 0 {
        if t.len() > 0 {
            assert(t.contains(t[0]));
        }
        assert(s =~= t);
    } else {
        assert(s.contains(s[0]));
        assert(t.len() > 0);
        assert(t.contains(t[0]));
        let j = choose|j: int| 0 <= j < t.len() && t[j] == s[0];
        let i = choose|i: int| 0 <= i < s.len() && s[i] == t[0];
        assert(s[0] <= s[i]);
        assert(t[0] <= t[j]);
        assert(s[0] == t[0]);
        let s1 = s.drop_first();
        let t1 = t.drop_first();
        assert forall|x: u32| s1.contains(x) <==> t1.contains(x) by {
            if s1.contains(x) {
                let k = choose|k: int| 0 <= k < s1.len() && s1[k] == x;
                assert(s[k + 1] == x);
                assert(s.contains(x));
                let m = choose|m: int| 0 <= m < t.len() && t[m] == x;
                assert(m != 0);
                assert(t1[m - 1] == x);
            }
            if t1.contains(x) {
                let k = choose|k: int| 0 <= k < t1.len() && t1[k] == x;
                assert(t[k + 1] == x);
                assert(t.contains(x));
                let m = choose|m: int| 0 <= m < s.len() && s[m] == x;
                assert(m != 0);
                assert(s1[m - 1] == x);
            }
        }
        lemma_ascending_unique(s1, t1);
        assert(s =~= seq![s[0]] + s1);
        assert(t =~= seq![t[0]] + t1);
    }
}

/// Overlap does not depend on the order of the two claims: the overlap
/// of `a` with `b` and that of `b` with `a` are the same list.
pub proof fn lemma_overlap_commutes(r1: Seq<u32>, r2: Seq<u32>, a: Seq<u32>, b: Seq<u32>)
    requires
        is_overlap(r1, a, b),
        is_overlap(r2, b, a),
    ensures
        r1 == r2,
{
    lemma_ascending_unique(r1, r2);
}

/// The cells both claims hold, ascending (`a` and `b` ascending).
pub fn overlap(a: &Vec<u32>, b: &Vec<u32>) -> (r: Vec<u32>)
    requires
        ascending(a@),
    ensures
        is_overlap(r@, a@, b@),
{
    let mut r: Vec<u32> = Vec::new();
    let mut i: usize = 0;
    while i < a.len()
        invariant
            i <= a.len(),
            ascending(a@),
            ascending(r@),
            forall|k: int| 0 <= k < r@.len() ==> exists|j: int| 0 <= j < i && a@[j] == #[trigger] r@[k],
            forall|x: u32| r@.contains(x) <==> (a@.take(i as int).contains(x) && b@.contains(x)),
        decreases a.len() - i,
    {
        let x = a[i];
        proof {
            assert(a@.take(i + 1) =~= a@.take(i as int).push(x));
            assert forall|k: int| 0 <= k < r@.len() implies r@[k] < x by {
                let j = choose|j: int| 0 <= j < i && #[trigger] a@[j] == r@[k];
            }
        }
        let ghost old_r = r@;
        if contains_cell(b, x) {
            r.push(x);
        }
        proof {
            assert forall|y: u32| r@.contains(y) <==> (a@.take(i + 1).contains(y) && b@.contains(y)) by {
                if r@.contains(y) {
                    let k = choose|k: int| 0 <= k < r@.len() && #[trigger] r@[k] == y;
                    if k < old_r.len() {
                        assert(old_r[k] == y);
                        assert(old_r.contains(y));
                        let m = choose|m: int| 0 <= m < i && #[trigger] a@.take(i as int)[m] == y;
                        assert(a@.take(i + 1)[m] == y);
                    } else {
                        assert(a@.take(i + 1)[i as int] == y);
                    }
                }
                if a@.take(i + 1).contains(y) && b@.contains(y) {
                    let m = choose|m: int| 0 <= m < i + 1 && #[trigger] a@.take(i + 1)[m] == y;
                    if m < i {
                        assert(a@.take(i as int)[m] == y);
                        assert(old_r.contains(y));
                        let k = choose|k: int| 0 <= k < old_r.len() && #[trigger] old_r[k] == y;
                        assert(r@[k] == y);
                    } else {
                        assert(r@[r@.len() - 1] == y);
                    }
                }
            }
        }
        i += 1;
    }
    proof {
        assert(a@.take(a.len() as int) =~= a@);
    }
    r
}

/// Whether the pair is peaceful enough for knowledge diffusion: both
/// hierarchical axes below 0.4.
pub fn is_peaceful_pair(a: &Cosmology, b: &Cosmology) -> (r: bool)
    ensures
        r == (a.hierarchical@ < ratio_bits(40, 100) && b.hierarchical@ < ratio_bits(40, 100)),
{
    let floor = Real::percent(40);
    a.hierarchical.bits < floor.bits && b.hierarchical.bits < floor.bits
}


/// Outcome of one conflict check between two civs.
#[derive(Debug, Clone)]
pub struct ConflictOutcome {
    pub winner_id: u32,
    pub loser_id: u32,
    /// Cells both civs claimed at the start of the check, ascending.
    pub disputed_cells: Vec<u32>,
    pub loss_fraction: Real,
    /// No claim overlap remains: the war ends with this check.
    pub loser_defeated: bool,
}

/// The first civ wins: stronger, or equally strong with the lower id.
pub open spec fn first_wins(sa: int, sb: int, ida: u32, idb: u32) -> bool {
    sa > sb || (sa == sb && ida < idb)
}

/// Per-cell casualty fraction: `0.10 + hier × 0.30 × size factor +
/// (clamp(winner tools / loser tools, 1, 4) − 1) × 0.10`, clamped to
/// `[0, 0.60]`; the tool ratio counts as 4 when the loser has none.
pub open spec fn casualty_bits(winner_hier: int, wmult: int, lmult: int, wcells: int) -> int {
    let raw_ratio = if lmult > 0 { div_bits(wmult, lmult) } else { int_bits(4) };
    let clamped = min_bits(max_bits(raw_ratio, scale()), int_bits(4));
    let tech_gap = mul_bits(clamped - scale(), ratio_bits(10, 100));
    let hier_term = mul_bits(mul_bits(winner_hier, ratio_bits(30, 100)), size_factor_bits(wcells));
    min_bits(max_bits(ratio_bits(10, 100) + hier_term + tech_gap, 0), ratio_bits(60, 100))
}

fn casualty_fraction(winner_hier: Real, wmult: Real, lmult: Real, wcells: usize) -> (r: Real)
    requires
        0 <= winner_hier@ <= scale(),
        lmult@ > 0 ==> div_ok(wmult@, lmult@),
        wcells < 0x8000_0000,
    ensures
        r@ == casualty_bits(winner_hier@, wmult@, lmult@, wcells as int),
        0 <= r@ <= scale(),
{
    let raw_ratio = if lmult.bits > 0 {
        wmult.div(lmult)
    } else {
        Real::from_int(4)
    };
    let clamped = raw_ratio.max(Real::one()).min(Real::from_int(4));
    proof {
        lemma_ratio_unit(10, 100);
        lemma_ratio_unit(30, 100);
        lemma_ratio_unit(60, 100);
        assert(mul_ok(clamped@ - scale(), ratio_bits(10, 100))) by (nonlinear_arith)
            requires
                0 <= clamped@ - scale() <= 3 * 4294967296,
                0 <= ratio_bits(10, 100) <= 4294967296;
        let g = clamped@ - scale();
        let c = ratio_bits(10, 100);
        assert(g * c <= (3 * scale()) * scale()) by (nonlinear_arith)
            requires 0 <= g <= 3 * 4294967296, 0 <= c <= 4294967296;
        vstd::arithmetic::div_mod::lemma_div_is_ordered(g * c, (3 * scale()) * scale(), scale());
        vstd::arithmetic::div_mod::lemma_div_by_multiple(3 * scale(), scale());
        assert(0 <= g * c) by (nonlinear_arith) requires 0 <= g, 0 <= c;
        vstd::arithmetic::div_mod::lemma_div_pos_is_pos(g * c, scale());
    }
    let tech_gap = clamped.sub(Real::one()).mul(Real::percent(10));
    let size = hierarchy_size_factor(wcells);
    proof {
        lemma_mul_unit(winner_hier@, ratio_bits(30, 100));
        lemma_mul_unit(mul_bits(winner_hier@, ratio_bits(30, 100)), size@);
    }
    let hier_term = winner_hier.mul(Real::percent(30)).mul(size);
    Real::percent(10).add(hier_term).add(tech_gap).max(Real::zero()).min(Real::percent(60))
}

/// A cohort after one skirmish round at casualty fraction `loss`: its
/// fertile adults fall by `loss`, its juveniles by `loss × 30%`, each
/// floored at zero.
pub open spec fn skirmished(c: Cohort, loss: int) -> Cohort {
    Cohort {
        fertile: Real { bits: max_bits(c.fertile@ - mul_bits(c.fertile@, loss), 0) as i64 },
        juvenile: Real {
            bits: max_bits(c.juvenile@ - mul_bits(mul_bits(c.juvenile@, loss), ratio_bits(30, 100)), 0)
                as i64,
        },
        ..c
    }
}

/// `a × b` for `a ≥ 0` and `b` in `[0, 1]` is representable and lies in
/// `[0, a]`.
proof fn lemma_mul_shrinks(a: int, b: int)
    requires
        0 <= a <= i64::MAX,
        0 <= b <= scale(),
    ensures
        mul_ok(a, b),
        0 <= mul_bits(a, b) <= a,
{
    assert(0 <= a * b <= a * scale()) by (nonlinear_arith) requires 0 <= a, 0 <= b <= 4294967296;
    assert(a * b < 0x8000_0000_0000_0000_0000_0000) by (nonlinear_arith)
        requires 0 <= a <= 0x7fff_ffff_ffff_ffff, 0 <= b <= 4294967296;
    vstd::arithmetic::div_mod::lemma_div_is_ordered(a * b, a * scale(), scale());
    vstd::arithmetic::div_mod::lemma_div_by_multiple(a, scale());
    vstd::arithmetic::div_mod::lemma_div_pos_is_pos(a * b, scale());
}

fn skirmish_cohort(c: Cohort, loss: Real) -> (r: Cohort)
    requires
        c.wf(),
        0 <= loss@ <= scale(),
    ensures
        r == skirmished(c, loss@),
        r.wf(),
        cohort_total(r) <= cohort_total(c),
{
    proof {
        lemma_mul_shrinks(c.fertile@, loss@);
        lemma_mul_shrinks(c.juvenile@, loss@);
        lemma_ratio_unit(30, 100);
        lemma_mul_shrinks(mul_bits(c.juvenile@, loss@), ratio_bits(30, 100));
    }
    let fertile_loss = c.fertile.mul(loss);
    let fertile = c.fertile.sub(fertile_loss).max(Real::zero());
    let juvenile_loss = c.juvenile.mul(loss).mul(Real::percent(30));
    let juvenile = c.juvenile.sub(juvenile_loss).max(Real::zero());
    Cohort { fertile, juvenile, ..c }
}

/// The loser's head count in `cell` after the round (zero without a
/// cohort there).
pub open spec fn post_count(cohorts: Map<u32, Cohort>, cell: u32, loss: int) -> int {
    if cohorts.contains_key(cell) {
        cohort_total(skirmished(cohorts[cell], loss))
    } else {
        0
    }
}

/// The cell passes to the winner: the loser keeps 25 or fewer there.
pub open spec fn flips(cohorts: Map<u32, Cohort>, cell: u32, loss: int) -> bool {
    post_count(cohorts, cell, loss) <= int_bits(25)
}

/// The empty cohort, as a value.
pub open spec fn empty_cohort() -> Cohort {
    Cohort {
        infant: Real { bits: 0 },
        juvenile: Real { bits: 0 },
        fertile: Real { bits: 0 },
        elder: Real { bits: 0 },
    }
}

/// The cell is one of `disputed` and passes to the winner.
pub open spec fn flipped(disputed: Seq<u32>, cohorts: Map<u32, Cohort>, cell: u32, loss: int) -> bool {
    disputed.contains(cell) && flips(cohorts, cell, loss)
}

/// Claims and cohorts of both sides after a round over `disputed`.
pub open spec fn round_applied(
    old_l: WarParty,
    new_l: WarParty,
    old_w: WarParty,
    new_w: WarParty,
    disputed: Seq<u32>,
    loss: int,
) -> bool {
    let lc = old_l.region_cohorts@;
    &&& forall|k: u32|
        #[trigger] new_l.region_cohorts@.contains_key(k) <==> (lc.contains_key(k) && !flipped(
            disputed,
            lc,
            k,
            loss,
        ))
    &&& forall|k: u32|
        #[trigger] new_l.region_cohorts@.contains_key(k) ==> new_l.region_cohorts@[k] == if disputed.contains(
            k,
        ) {
            skirmished(lc[k], loss)
        } else {
            lc[k]
        }
    &&& forall|k: u32|
        #[trigger] new_l.claimed_cells@.contains(k) <==> (old_l.claimed_cells@.contains(k) && !flipped(
            disputed,
            lc,
            k,
            loss,
        ))
    &&& ascending(new_l.claimed_cells@)
    &&& new_w.claimed_cells@ == old_w.claimed_cells@
    &&& forall|k: u32|
        #[trigger] new_w.region_cohorts@.contains_key(k) <==> (old_w.region_cohorts@.contains_key(k)
            || flipped(disputed, lc, k, loss))
    &&& forall|k: u32|
        #[trigger] new_w.region_cohorts@.contains_key(k) ==> new_w.region_cohorts@[k] == if old_w.region_cohorts@.contains_key(
            k,
        ) {
            old_w.region_cohorts@[k]
        } else {
            empty_cohort()
        }
}

/// Everything but claims, cohorts and grudges is unchanged.
pub open spec fn same_standing(a: WarParty, b: WarParty) -> bool {
    &&& a.id == b.id
    &&& a.population == b.population
    &&& a.literacy == b.literacy
    &&& a.cosmology == b.cosmology
    &&& a.religion == b.religion
    &&& a.cohesion == b.cohesion
    &&& a.surplus == b.surplus
    &&& a.tool_war_multiplier == b.tool_war_multiplier
    &&& a.allied_with@ == b.allied_with@
    &&& a.lineage_depth == b.lineage_depth
    &&& a.carrying_capacity == b.carrying_capacity
}

proof fn lemma_remove_ascending(s: Seq<u32>, i: int)
    requires
        ascending(s),
        0 <= i < s.len(),
    ensures
        ascending(s.remove(i)),
        forall|y: u32| s.remove(i).contains(y) <==> (s.contains(y) && y != s[i]),
{
    let r = s.remove(i);
    assert(r =~= s.subrange(0, i) + s.subrange(i + 1, s.len() as int));
    assert forall|a: int, b: int| 0 <= a < b < r.len() implies r[a] < r[b] by {
        let sa = if a < i { a } else { a + 1 };
        let sb = if b < i { b } else { b + 1 };
        assert(r[a] == s[sa]);
        assert(r[b] == s[sb]);
    }
    assert forall|y: u32| r.contains(y) <==> (s.contains(y) && y != s[i]) by {
        if r.contains(y) {
            let a = choose|a: int| 0 <= a < r.len() && #[trigger] r[a] == y;
            let sa = if a < i { a } else { a + 1 };
            assert(s[sa] == y);
        }
        if s.contains(y) && y != s[i] {
            let a = choose|a: int| 0 <= a < s.len() && #[trigger] s[a] == y;
            if a < i {
                assert(r[a] == y);
            } else {
                assert(a != i);
                assert(r[a - 1] == y);
            }
        }
    }
}

fn position_of(v: &Vec<u32>, x: u32) -> (i: usize)
    requires
        v@.contains(x),
    ensures
        i < v@.len(),
        v@[i as int] == x,
{
    let mut i: usize = 0;
    while i < v.len()
        invariant
            i <= v.len(),
            v@.contains(x),
            forall|j: int| 0 <= j < i ==> v@[j] != x,
        decreases v.len() - i,
    {
        if v[i] == x {
            return i;
        }
        i += 1;
    }
    proof {
        let j = choose|j: int| 0 <= j < v@.len() && v@[j] == x;
    }
    0
}

/// Play one skirmish round over `disputed` with casualty fraction
/// `loss`.
fn skirmish(loser: &mut WarParty, winner: &mut WarParty, disputed: &Vec<u32>, loss: Real)
    requires
        old(loser).wf(),
        old(winner).wf(),
        is_overlap(disputed@, old(loser).claimed_cells@, old(winner).claimed_cells@),
        0 <= loss@ <= scale(),
    ensures
        round_applied(*old(loser), *final(loser), *old(winner), *final(winner), disputed@, loss@),
        same_standing(*old(loser), *final(loser)),
        same_standing(*old(winner), *final(winner)),
        final(loser).grudges@ == old(loser).grudges@,
        final(winner).grudges@ == old(winner).grudges@,
        final(loser).wf(),
        final(winner).wf(),
{
    let ghost ol = *loser;
    let ghost ow = *winner;
    let ghost lc = ol.region_cohorts@;
    let flip_floor = Real::from_int(CELL_FLIP_FLOOR);
    let mut i: usize = 0;
    while i < disputed.len()
        invariant
            i <= disputed.len(),
            ol.wf(),
            ow.wf(),
            lc == ol.region_cohorts@,
            is_overlap(disputed@, ol.claimed_cells@, ow.claimed_cells@),
            0 <= loss@ <= scale(),
            flip_floor@ == int_bits(25),
            same_standing(ol, *loser),
            same_standing(ow, *winner),
            loser.grudges@ == ol.grudges@,
            winner.grudges@ == ow.grudges@,
            winner.claimed_cells@ == ow.claimed_cells@,
            ascending(loser.claimed_cells@),
            forall|k: u32|
                #[trigger] loser.region_cohorts@.contains_key(k) <==> (lc.contains_key(k) && !flipped(
                    disputed@.take(i as int),
                    lc,
                    k,
                    loss@,
                )),
            forall|k: u32|
                #[trigger] loser.region_cohorts@.contains_key(k) ==> loser.region_cohorts@[k] == if disputed@.take(
                    i as int,
                ).contains(k) {
                    skirmished(lc[k], loss@)
                } else {
                    lc[k]
                },
            forall|k: u32|
                #[trigger] loser.claimed_cells@.contains(k) <==> (ol.claimed_cells@.contains(k) && !flipped(
                    disputed@.take(i as int),
                    lc,
                    k,
                    loss@,
                )),
            forall|k: u32|
                #[trigger] winner.region_cohorts@.contains_key(k) <==> (ow.region_cohorts@.contains_key(k)
                    || flipped(disputed@.take(i as int), lc, k, loss@)),
            forall|k: u32|
                #[trigger] winner.region_cohorts@.contains_key(k) ==> winner.region_cohorts@[k]
                    == if ow.region_cohorts@.contains_key(k) {
                    ow.region_cohorts@[k]
                } else {
                    empty_cohort()
                },
        decreases disputed.len() - i,
    {
        let cell = disputed[i];
        let ghost pre = disputed@.take(i as int);
        let ghost post = disputed@.take(i + 1);
        proof {
            assert(post =~= pre.push(cell));
            assert(!pre.contains(cell)) by {
                if pre.contains(cell) {
                    let j = choose|j: int| 0 <= j < pre.len() && pre[j] == cell;
                    assert(disputed@[j] == cell);
                    assert(disputed@[j] < disputed@[i as int]);
                }
            }
            assert(disputed@.contains(cell)) by {
                assert(disputed@[i as int] == cell);
            }
            assert forall|k: u32| post.contains(k) <==> (pre.contains(k) || k == cell) by {
                if post.contains(k) {
                    let j = choose|j: int| 0 <= j < post.len() && post[j] == k;
                    if j < pre.len() {
                        assert(pre[j] == k);
                    }
                }
                if pre.contains(k) {
                    let j = choose|j: int| 0 <= j < pre.len() && pre[j] == k;
                    assert(post[j] == k);
                }
                if k == cell {
                    assert(post[i as int] == k);
                }
            }
        }
        let removed = loser.region_cohorts.remove(&cell);
        let mut count = Real::zero();
        match removed {
            Some(c) => {
                assert(lc.contains_key(cell) && c == lc[cell]);
                let c2 = skirmish_cohort(c, loss);
                count = c2.total();
                if count.bits > flip_floor.bits {
                    loser.region_cohorts.insert(cell, c2);
                }
            },
            None => {
                assert(!lc.contains_key(cell));
            },
        }
        assert(count@ == post_count(lc, cell, loss@));
        let ghost claims_before = loser.claimed_cells@;
        if count.bits <= flip_floor.bits {
            proof {
                assert(loser.claimed_cells@.contains(cell));
            }
            let idx = position_of(&loser.claimed_cells, cell);
            proof {
                lemma_remove_ascending(loser.claimed_cells@, idx as int);
            }
            loser.claimed_cells.remove(idx);
            if !winner.region_cohorts.contains_key(&cell) {
                winner.region_cohorts.insert(cell, Cohort::zero());
            }
        }
        proof {
            assert forall|k: u32| #[trigger] loser.claimed_cells@.contains(k) <==> (ol.claimed_cells@.contains(k)
                && !flipped(post, lc, k, loss@)) by {
                assert(claims_before.contains(k) <==> (ol.claimed_cells@.contains(k) && !flipped(pre, lc, k, loss@)));
                if k == cell {
                    assert(ol.claimed_cells@.contains(cell));
                    assert(!flipped(pre, lc, k, loss@));
                    if flips(lc, cell, loss@) {
                        assert(!loser.claimed_cells@.contains(k));
                    } else {
                        assert(loser.claimed_cells@ == claims_before);
                    }
                } else {
                    assert(flipped(post, lc, k, loss@) == flipped(pre, lc, k, loss@));
                }
            }
            assert forall|k: u32| #[trigger] loser.region_cohorts@.contains_key(k) <==> (lc.contains_key(k)
                && !flipped(post, lc, k, loss@)) by {}
            assert forall|k: u32| #[trigger] winner.region_cohorts@.contains_key(k) <==> (ow.region_cohorts@.contains_key(k)
                || flipped(post, lc, k, loss@)) by {}
        }
        i += 1;
    }
    proof {
        assert(disputed@.take(disputed.len() as int) =~= disputed@);
        assert forall|k: u32| #[trigger] loser.region_cohorts@.contains_key(k) implies loser.region_cohorts@[k].wf() by {
            if disputed@.contains(k) {
                let c = lc[k];
                assert(c.wf());
            }
        }
    }
}

/// What a settled check between winner `w` and loser `l` leaves: the
/// outcome's fields, the round over the disputed cells, and each side's
/// grudge against the other bumped (the loser's harder).
pub open spec fn check_settled(
    old_w: WarParty,
    new_w: WarParty,
    old_l: WarParty,
    new_l: WarParty,
    o: ConflictOutcome,
    tick: u64,
) -> bool {
    let loss = o.loss_fraction@;
    &&& o.winner_id == old_w.id
    &&& o.loser_id == old_l.id
    &&& is_overlap(o.disputed_cells@, old_l.claimed_cells@, old_w.claimed_cells@)
    &&& loss == casualty_bits(
        hierarchical_bits(old_w),
        old_w.tool_war_multiplier@,
        old_l.tool_war_multiplier@,
        old_w.claimed_cells@.len() as int,
    )
    &&& round_applied(
        old_l,
        new_l,
        old_w,
        new_w,
        o.disputed_cells@,
        loss,
    )
    &&& o.loser_defeated == !exists|k: u32| new_l.claimed_cells@.contains(k) && new_w.claimed_cells@.contains(k)
    &&& same_standing(old_l, new_l)
    &&& same_standing(old_w, new_w)
    &&& new_l.grudges@ == old_l.grudges@.insert(
        old_w.id,
        (Real { bits: bumped_entry(old_l.grudges@, old_w.id, grudge_bump_loser()) as i64 }, tick),
    )
    &&& new_w.grudges@ == old_w.grudges@.insert(
        old_l.id,
        (Real { bits: bumped_entry(old_w.grudges@, old_l.id, grudge_bump_winner()) as i64 }, tick),
    )
}

/// The casualty fraction of `w` beating `l` can be computed.
pub open spec fn casualty_ok(w: WarParty, l: WarParty) -> bool {
    &&& l.tool_war_multiplier@ > 0 ==> div_ok(w.tool_war_multiplier@, l.tool_war_multiplier@)
    &&& w.claimed_cells@.len() < 0x8000_0000
}

fn settle(
    winner: &mut WarParty,
    loser: &mut WarParty,
    disputed: Vec<u32>,
    tick: u64,
) -> (o: ConflictOutcome)
    requires
        old(winner).wf(),
        old(loser).wf(),
        surplus_ratio_ok(*old(winner)),
        casualty_ok(*old(winner), *old(loser)),
        is_overlap(disputed@, old(loser).claimed_cells@, old(winner).claimed_cells@),
    ensures
        check_settled(*old(winner), *final(winner), *old(loser), *final(loser), o, tick),
        final(winner).wf(),
        final(loser).wf(),
{
    let hier = hierarchical_strength(winner);
    let loss = casualty_fraction(
        hier,
        winner.tool_war_multiplier,
        loser.tool_war_multiplier,
        winner.claimed_cells.len(),
    );
    let ghost mid_w = *winner;
    skirmish(loser, winner, &disputed, loss);
    let remaining = overlap(&loser.claimed_cells, &winner.claimed_cells);
    let defeated = remaining.len() == 0;
    proof {
        if defeated {
            assert forall|k: u32| !(loser.claimed_cells@.contains(k) && winner.claimed_cells@.contains(k)) by {
                assert(!remaining@.contains(k));
            }
        } else {
            assert(remaining@.contains(remaining@[0]));
        }
        lemma_ratio_unit(10, 100);
        lemma_ratio_unit(5, 100);
        lemma_ratio_unit(60, 100);
    }
    let loser_bump = Real::percent(10);
    let winner_bump = Real::percent(5);
    let winner_id = winner.id;
    let loser_id = loser.id;
    bump_grudge(&mut loser.grudges, winner_id, loser_bump, tick);
    bump_grudge(&mut winner.grudges, loser_id, winner_bump, tick);
    proof {
        assert forall|k: u32| #[trigger] loser.grudges@.contains_key(k) implies 0 <= loser.grudges@[k].0@ <= grudge_ceiling() by {
            if k != winner_id {
                assert(old(loser).grudges@.contains_key(k));
            }
        }
        assert forall|k: u32| #[trigger] winner.grudges@.contains_key(k) implies 0 <= winner.grudges@[k].0@ <= grudge_ceiling() by {
            if k != loser_id {
                assert(old(winner).grudges@.contains_key(k));
            }
        }
    }
    ConflictOutcome {
        winner_id,
        loser_id,
        disputed_cells: disputed,
        loss_fraction: loss,
        loser_defeated: defeated,
    }
}

/// Resolve a conflict check between `a` and `b` at `tick`. Allied pairs
/// (each side's alliance list naming the other) and pairs without a
/// disputed cell yield `None` and change nothing; otherwise the
/// stronger civ (ties to the lower id) wins the round.
pub fn resolve(a: &mut WarParty, b: &mut WarParty, tick: u64) -> (r: Option<ConflictOutcome>)
    requires
        old(a).wf(),
        old(b).wf(),
        old(a).id != old(b).id,
        strength_ok(*old(a)),
        strength_ok(*old(b)),
        casualty_ok(*old(a), *old(b)),
        casualty_ok(*old(b), *old(a)),
    ensures
        ({
            let allied = old(a).allied_with@.contains(old(b).id) && old(b).allied_with@.contains(old(a).id);
            let contested = exists|k: u32| old(a).claimed_cells@.contains(k) && old(b).claimed_cells@.contains(k);
            &&& (allied || !contested) ==> r is None && *final(a) == *old(a) && *final(b) == *old(b)
            &&& (!allied && contested) ==> r is Some && if first_wins(
                strength_bits(*old(a)),
                strength_bits(*old(b)),
                old(a).id,
                old(b).id,
            ) {
                check_settled(*old(a), *final(a), *old(b), *final(b), r->0, tick)
            } else {
                check_settled(*old(b), *final(b), *old(a), *final(a), r->0, tick)
            }
        }),
        final(a).wf(),
        final(b).wf(),
{
    if a.allied_with.contains(&b.id) && b.allied_with.contains(&a.id) {
        return None;
    }
    let disputed = overlap(&a.claimed_cells, &b.claimed_cells);
    if disputed.len() == 0 {
        proof {
            assert forall|k: u32| !(old(a).claimed_cells@.contains(k) && old(b).claimed_cells@.contains(k)) by {
                assert(!disputed@.contains(k));
            }
        }
        return None;
    }
    proof {
        assert(disputed@.contains(disputed@[0]));
    }
    let s_a = strength(a);
    let s_b = strength(b);
    if s_a.bits > s_b.bits || (s_a.bits == s_b.bits && a.id < b.id) {
        Some(settle(a, b, disputed, tick))
    } else {
        proof {
            assert forall|k: u32| disputed@.contains(k) <==> (old(b).claimed_cells@.contains(k) && old(a).claimed_cells@.contains(k)) by {}
        }
        Some(settle(b, a, disputed, tick))
    }
}
} // verus!
