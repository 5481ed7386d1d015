//! Carrying-capacity bookkeeping: the share of the planet a civ farms,
//! the live producer-biomass reading and the ecological resilience it
//! implies, and the deposit of revived seed-bank population into the
//! civ's cohorts.

use crate::arith::{div_bits, fits, int_bits, mul_bits, mul_ok, ratio_bits, scale, Real};
use crate::cohort::{cohort_total, Cohort};
use vstd::prelude::*;

verus! {

/// Share of the planet a civ holds: `claimed / total`, and the whole
/// planet for a civ without claims or a grid without cells.
pub open spec fn claimed_fraction_bits(claimed: int, total: int) -> int {
    if claimed == 0 || total == 0 {
        scale()
    } else {
        ratio_bits(claimed, total)
    }
}

/// The civ's claimed share of the planet's cells.
pub fn claimed_cell_fraction(claimed: usize, total: usize) -> (r: Real)
    requires
        claimed < 0x8000_0000,
        total < 0x8000_0000,
    ensures
        r@ == claimed_fraction_bits(claimed as int, total as int),
{
    if claimed == 0 || total == 0 {
        return Real::one();
    }
    proof {
        crate::arith::lemma_ratio_fits(claimed as int, total as int);
    }
    Real::from_int(claimed as i64).div(Real::from_int(total as i64))
}

/// The civ's cached reading of the planet's producer tier.
#[derive(Debug, Clone, Copy, PartialEq, Eq, Structural)]
pub struct EcologyReading {
    /// Planet-wide primary-producer biomass, this tick.
    pub producer_biomass: Real,
    /// The first live reading after founding (1 until captured).
    pub initial_producer_biomass: Real,
    /// `producer / max(initial, 1)`, clamped to `[0, 2]`.
    pub ecological_resilience: Real,
}

/// The anchor after a reading: captured from the first reading that is
/// not exactly one while the anchor still holds its initial one.
pub open spec fn next_anchor(anchor: int, producer: int) -> int {
    if anchor == scale() && producer != scale() {
        producer
    } else {
        anchor
    }
}

/// Resilience of a reading against an anchor: `producer / max(anchor,
/// 1)`, clamped to `[0, 2]`.
pub open spec fn resilience_bits(anchor: int, producer: int) -> int {
    let denom = if anchor < scale() { scale() } else { anchor };
    let ratio = div_bits(producer, denom);
    if ratio < 0 {
        0
    } else if ratio > int_bits(2) {
        int_bits(2)
    } else {
        ratio
    }
}

impl EcologyReading {
    /// A fresh reading: biomass and anchor at one, resilience one.
    pub fn new() -> (r: EcologyReading)
        ensures
            r.producer_biomass@ == scale(),
            r.initial_producer_biomass@ == scale(),
            r.ecological_resilience@ == scale(),
    {
        EcologyReading {
            producer_biomass: Real::one(),
            initial_producer_biomass: Real::one(),
            ecological_resilience: Real::one(),
        }
    }

    /// Take this tick's producer-biomass reading, capturing the anchor
    /// on the first live value and refreshing the resilience.
    pub fn update_producer_biomass(&mut self, producer_biomass: Real)
        requires
            producer_biomass@ >= 0,
        ensures
            final(self).producer_biomass == producer_biomass,
            final(self).initial_producer_biomass@ == next_anchor(
                old(self).initial_producer_biomass@,
                producer_biomass@,
            ),
            final(self).ecological_resilience@ == resilience_bits(
                final(self).initial_producer_biomass@,
                producer_biomass@,
            ),
    {
        self.producer_biomass = producer_biomass;
        if self.initial_producer_biomass.bits == Real::one().bits && producer_biomass.bits
            != Real::one().bits {
            self.initial_producer_biomass = producer_biomass;
        }
        let denom = if self.initial_producer_biomass.bits < Real::one().bits {
            Real::one()
        } else {
            self.initial_producer_biomass
        };
        proof {
            let p = producer_biomass@;
            let d = denom@;
            assert(d >= scale());
            assert(0 <= p * scale()) by (nonlinear_arith) requires 0 <= p;
            vstd::arithmetic::div_mod::lemma_div_is_ordered_by_denominator(p * scale(), scale(), d);
            vstd::arithmetic::div_mod::lemma_div_by_multiple(p, scale());
            vstd::arithmetic::div_mod::lemma_div_pos_is_pos(p * scale(), d);
        }
        let ratio = producer_biomass.div(denom);
        let two = Real::from_int(2);
        let clamped = if ratio.bits < 0 {
            Real::zero()
        } else if ratio.bits > two.bits {
            two
        } else {
            ratio
        };
        self.ecological_resilience = clamped;
    }
}

/// Sum of the fertile brackets of `cs`.
pub open spec fn fertile_sum(cs: Seq<Cohort>) -> int
    decreases cs.len(),
{
    if cs.len() == 0 {
        0
    } else {
        fertile_sum(cs.drop_last()) + cs.last().fertile@
    }
}

/// Sum of the head counts of `cs`.
pub open spec fn total_sum(cs: Seq<Cohort>) -> int
    decreases cs.len(),
{
    if cs.len() == 0 {
        0
    } else {
        total_sum(cs.drop_last()) + cohort_total(cs.last())
    }
}

/// The proportional deposit of cell `i`: `revived × fertile_i / total`.
pub open spec fn deposit_bits(cs: Seq<Cohort>, i: int, revived: int) -> int {
    mul_bits(revived, div_bits(cs[i].fertile@, fertile_sum(cs)))
}

/// Sum of the proportional deposits of the first `n` cells.
pub open spec fn deposits_sum(cs: Seq<Cohort>, n: nat, revived: int) -> int
    decreases n,
{
    if n == 0 {
        0
    } else {
        deposits_sum(cs, (n - 1) as nat, revived) + deposit_bits(cs, n - 1, revived)
    }
}

/// Index of the last cell with the largest fertile bracket.
pub open spec fn is_last_max(cs: Seq<Cohort>, k: int) -> bool {
    &&& 0 <= k < cs.len()
    &&& forall|j: int| 0 <= j < cs.len() ==> #[trigger] cs[j].fertile@ <= cs[k].fertile@
    &&& forall|j: int| k < j < cs.len() ==> #[trigger] cs[j].fertile@ < cs[k].fertile@
}

/// Every cohort is well formed, and the head counts, summed over the
/// cells and together with `extra`, stay representable.
pub open spec fn cohorts_ok(cs: Seq<Cohort>, extra: int) -> bool {
    &&& forall|i: int| 0 <= i < cs.len() ==> (#[trigger] cs[i]).wf()
    &&& 0 <= extra
    &&& total_sum(cs) + extra <= i64::MAX
}

proof fn lemma_prefix_total_le(cs: Seq<Cohort>, n: nat)
    requires
        n <= cs.len(),
        forall|i: int| 0 <= i < cs.len() ==> (#[trigger] cs[i]).wf(),
    ensures
        total_sum(cs.take(n as int)) <= total_sum(cs),
    decreases cs.len() - n,
{
    if n < cs.len() {
        lemma_prefix_total_le(cs, n + 1);
        assert(cs.take(n as int + 1).drop_last() =~= cs.take(n as int));
        assert(cs[n as int].wf());
    } else {
        assert(cs.take(n as int) =~= cs);
    }
}

proof fn lemma_sums_prefix(cs: Seq<Cohort>, n: nat)
    requires
        n <= cs.len(),
        forall|i: int| 0 <= i < cs.len() ==> (#[trigger] cs[i]).wf(),
    ensures
        0 <= fertile_sum(cs.take(n as int)) <= total_sum(cs.take(n as int)),
        forall|i: int| 0 <= i < n ==> cohort_total(#[trigger] cs[i]) <= total_sum(cs.take(n as int)),
    decreases n,
{
    if n > 0 {
        lemma_sums_prefix(cs, (n - 1) as nat);
        assert(cs.take(n as int).drop_last() =~= cs.take(n - 1));
        assert(cs.take(n as int).last() == cs[n - 1]);
        assert(cs[n - 1].wf());
    }
}

fn fertile_total(cs: &Vec<Cohort>) -> (t: Real)
    requires
        cohorts_ok(cs@, 0),
    ensures
        t@ == fertile_sum(cs@),
        0 <= t@,
{
    let mut t = Real::zero();
    let mut i: usize = 0;
    proof {
        lemma_sums_prefix(cs@, 0);
    }
    while i < cs.len()
        invariant
            i <= cs.len(),
            cohorts_ok(cs@, 0),
            t@ == fertile_sum(cs@.take(i as int)),
        decreases cs.len() - i,
    {
        proof {
            assert(cs@.take(i + 1).drop_last() =~= cs@.take(i as int));
            lemma_sums_prefix(cs@, i as nat + 1);
            lemma_prefix_total_le(cs@, i as nat + 1);
        }
        t = t.add(cs[i].fertile);
        i += 1;
    }
    proof {
        assert(cs@.take(cs.len() as int) =~= cs@);
        lemma_sums_prefix(cs@, cs.len() as nat);
    }
    t
}


/// `c` with `n` more fertile adults.
pub open spec fn with_more_fertile(c: Cohort, n: int) -> Cohort {
    Cohort { fertile: Real { bits: (c.fertile@ + n) as i64 }, ..c }
}

/// The cohorts after the proportional deposits.
pub open spec fn after_deposits(cs: Seq<Cohort>, revived: int) -> Seq<Cohort> {
    Seq::new(cs.len(), |i: int| with_more_fertile(cs[i], deposit_bits(cs, i, revived)))
}

proof fn lemma_fertile_sum_update(cs: Seq<Cohort>, k: int, c: Cohort)
    requires
        0 <= k < cs.len(),
    ensures
        fertile_sum(cs.update(k, c)) == fertile_sum(cs) + c.fertile@ - cs[k].fertile@,
    decreases cs.len(),
{
    let u = cs.update(k, c);
    if k == cs.len() - 1 {
        assert(u.drop_last() =~= cs.drop_last());
    } else {
        lemma_fertile_sum_update(cs.drop_last(), k, c);
        assert(u.drop_last() =~= cs.drop_last().update(k, c));
    }
}

proof fn lemma_total_sum_update(cs: Seq<Cohort>, k: int, c: Cohort)
    requires
        0 <= k < cs.len(),
    ensures
        total_sum(cs.update(k, c)) == total_sum(cs) + cohort_total(c) - cohort_total(cs[k]),
    decreases cs.len(),
{
    let u = cs.update(k, c);
    if k == cs.len() - 1 {
        assert(u.drop_last() =~= cs.drop_last());
    } else {
        lemma_total_sum_update(cs.drop_last(), k, c);
        assert(u.drop_last() =~= cs.drop_last().update(k, c));
    }
}

/// One step of the deposit accounting: the shares taken so far add up
/// to at most their cells' part of the fertile total, so the deposits
/// add up to at most the revived head count.
proof fn lemma_deposit_step(r: int, t: int, f: int, s_sum: int, f_sum: int, dep: int)
    requires
        r >= 0,
        t > 0,
        f >= 0,
        s_sum >= 0,
        scale() * dep <= r * s_sum,
        t * s_sum <= scale() * f_sum,
    ensures
        scale() * (dep + mul_bits(r, div_bits(f, t))) <= r * (s_sum + div_bits(f, t)),
        t * (s_sum + div_bits(f, t)) <= scale() * (f_sum + f),
        div_bits(f, t) >= 0,
        mul_bits(r, div_bits(f, t)) >= 0,
{
    let s = scale();
    let q = div_bits(f, t);
    assert(f * s >= 0) by (nonlinear_arith) requires f >= 0, s == 4294967296;
    assert(q == (f * s) / t);
    vstd::arithmetic::div_mod::lemma_fundamental_div_mod(f * s, t);
    vstd::arithmetic::div_mod::lemma_mod_bound(f * s, t);
    vstd::arithmetic::div_mod::lemma_div_pos_is_pos(f * s, t);
    assert(t * q <= f * s);
    crate::transcendental::lemma_mul_bits_bound(r, q);
    assert(t * (s_sum + q) <= s * (f_sum + f)) by (nonlinear_arith)
        requires t * s_sum <= s * f_sum, t * q <= f * s;
    assert(s * (dep + mul_bits(r, q)) <= r * (s_sum + q)) by (nonlinear_arith)
        requires s * dep <= r * s_sum, s * mul_bits(r, q) <= r * q;
}

/// Deposit `revived` seed-bank survivors into the fertile brackets. With
/// no per-cell cohorts the civ-level cohort takes them; with cells but
/// no fertile adults anywhere, both the civ-level cohort and the first
/// cell take them; otherwise each cell takes its proportional share of
/// the fertile population and the rounding residual goes to the last
/// cell with the most fertile adults, so the cells together gain exactly
/// `revived`, and the civ-level fertile bracket is re-summed from the
/// cells.
pub fn step_dormant_resurrection(cohorts: &mut Vec<Cohort>, aggregate: &mut Cohort, revived: Real)
    requires
        cohorts_ok(old(cohorts)@, revived@),
        old(aggregate).wf(),
        fits(cohort_total(*old(aggregate)) + revived@),
    ensures
        revived@ <= 0 ==> final(cohorts)@ == old(cohorts)@ && *final(aggregate) == *old(aggregate),
        final(cohorts)@.len() == old(cohorts)@.len(),
        forall|i: int| 0 <= i < old(cohorts)@.len() ==> {
            &&& (#[trigger] final(cohorts)@[i]).infant == old(cohorts)@[i].infant
            &&& final(cohorts)@[i].juvenile == old(cohorts)@[i].juvenile
            &&& final(cohorts)@[i].elder == old(cohorts)@[i].elder
            &&& final(cohorts)@[i].fertile@ >= old(cohorts)@[i].fertile@
        },
        final(aggregate).infant == old(aggregate).infant,
        final(aggregate).juvenile == old(aggregate).juvenile,
        final(aggregate).elder == old(aggregate).elder,
        revived@ > 0 && (fertile_sum(old(cohorts)@) <= 0 || old(aggregate).fertile@ == fertile_sum(old(cohorts)@))
            ==> cohort_total(*final(aggregate)) == cohort_total(*old(aggregate)) + revived@,
        revived@ > 0 && old(cohorts)@.len() == 0 ==> final(cohorts)@ == old(cohorts)@
            && *final(aggregate) == with_more_fertile(*old(aggregate), revived@),
        revived@ > 0 && old(cohorts)@.len() > 0 && fertile_sum(old(cohorts)@) <= 0 ==> *final(aggregate)
            == with_more_fertile(*old(aggregate), revived@) && final(cohorts)@ == old(cohorts)@.update(
            0,
            with_more_fertile(old(cohorts)@[0], revived@),
        ),
        revived@ > 0 && fertile_sum(old(cohorts)@) > 0 ==> {
            let d = after_deposits(old(cohorts)@, revived@);
            let residual = revived@ - deposits_sum(old(cohorts)@, old(cohorts)@.len(), revived@);
            &&& final(aggregate).fertile@ == fertile_sum(final(cohorts)@)
            &&& final(aggregate).infant == old(aggregate).infant
            &&& final(aggregate).juvenile == old(aggregate).juvenile
            &&& final(aggregate).elder == old(aggregate).elder
            &&& 0 <= residual
            &&& fertile_sum(final(cohorts)@) == fertile_sum(old(cohorts)@) + revived@
            &&& residual == 0 ==> final(cohorts)@ == d
            &&& residual > 0 ==> exists|k: int|
                is_last_max(d, k) && final(cohorts)@ == d.update(k, with_more_fertile(d[k], residual))
        },
{
    if revived.bits <= 0 {
        return;
    }
    if cohorts.len() == 0 {
        aggregate.add_fertile(revived);
        return;
    }
    let ghost old_cs = cohorts@;
    proof {
        lemma_prefix_total_le(old_cs, 1);
        lemma_sums_prefix(old_cs, 1);
        assert(old_cs.take(1).drop_last() =~= old_cs.take(0));
    }
    let total_fertile = fertile_total(cohorts);
    if total_fertile.bits <= 0 {
        aggregate.add_fertile(revived);
        let mut c0 = cohorts[0];
        c0.add_fertile(revived);
        cohorts.set(0, c0);
        return;
    }
    let ghost t = total_fertile@;
    let ghost mut s_sum: int = 0;
    let mut deposited = Real::zero();
    let mut i: usize = 0;
    proof {
        lemma_prefix_total_le(old_cs, old_cs.len());
    }
    while i < cohorts.len()
        invariant
            i <= cohorts.len(),
            cohorts@.len() == old_cs.len(),
            cohorts_ok(old_cs, revived@),
            t == fertile_sum(old_cs),
            t > 0,
            total_fertile@ == t,
            revived@ > 0,
            s_sum >= 0,
            deposited@ == deposits_sum(old_cs, i as nat, revived@),
            scale() * deposited@ <= revived@ * s_sum,
            t * s_sum <= scale() * fertile_sum(old_cs.take(i as int)),
            0 <= deposited@ <= revived@ || i == 0,
            forall|j: int| 0 <= j < i ==> cohorts@[j] == #[trigger] after_deposits(old_cs, revived@)[j],
            forall|j: int| i <= j < cohorts@.len() ==> cohorts@[j] == old_cs[j],
            forall|j: int| 0 <= j < i ==> 0 <= #[trigger] deposit_bits(old_cs, j, revived@) <= deposited@,
        decreases cohorts.len() - i,
    {
        let c = cohorts[i];
        proof {
            assert(c == old_cs[i as int]);
            assert(c.wf());
            lemma_sums_prefix(old_cs, i as nat + 1);
            assert(old_cs.take(i + 1).drop_last() =~= old_cs.take(i as int));
            lemma_sums_prefix(old_cs, old_cs.len());
            assert(old_cs.take(old_cs.len() as int) =~= old_cs);
            lemma_prefix_total_le(old_cs, i as nat + 1);
            assert(c.fertile@ <= t) by {
                assert(fertile_sum(old_cs.take(i + 1)) <= t) by {
                    lemma_fertile_prefix_le(old_cs, i as nat + 1);
                }
                lemma_sums_prefix(old_cs, i as nat);
            }
            lemma_deposit_step(revived@, t, c.fertile@, s_sum, fertile_sum(old_cs.take(i as int)), deposited@);
            let q = div_bits(c.fertile@, t);
            assert(q <= scale()) by {
                assert(c.fertile@ * scale() <= t * scale()) by (nonlinear_arith) requires c.fertile@ <= t;
                assert(c.fertile@ * scale() >= 0) by (nonlinear_arith) requires c.fertile@ >= 0;
                vstd::arithmetic::div_mod::lemma_div_is_ordered(c.fertile@ * scale(), t * scale(), t);
                vstd::arithmetic::div_mod::lemma_div_by_multiple(scale(), t);
                assert(scale() * t == t * scale()) by (nonlinear_arith);
            }
            assert(mul_ok(revived@, q)) by (nonlinear_arith)
                requires 0 < revived@ <= 0x7fff_ffff_ffff_ffff, 0 <= q <= 4294967296;
            crate::transcendental::lemma_mul_bits_bound(revived@, q);
            assert(mul_bits(revived@, q) <= revived@) by (nonlinear_arith)
                requires 4294967296 * mul_bits(revived@, q) <= revived@ * q, 0 <= q <= 4294967296, revived@ > 0;
        }
        let share = c.fertile.div(total_fertile);
        let delta = revived.mul(share);
        proof {
            assert(cohort_total(c) <= total_sum(old_cs)) by {
                lemma_cell_total_le(old_cs, i as int);
            }
        }
        let mut c2 = c;
        c2.add_fertile(delta);
        cohorts.set(i, c2);
        proof {
            assert(deposits_sum(old_cs, i as nat + 1, revived@) == deposited@ + delta@);
            s_sum = s_sum + div_bits(c.fertile@, t);
            assert(scale() * (deposited@ + delta@) <= revived@ * s_sum);
            assert(t * s_sum <= scale() * fertile_sum(old_cs.take(i + 1)));
            assert(c2 == after_deposits(old_cs, revived@)[i as int]);
            assert(t * s_sum <= scale() * t) by {
                lemma_fertile_prefix_le(old_cs, i as nat + 1);
            }
            assert(s_sum <= scale()) by (nonlinear_arith) requires t * s_sum <= 4294967296 * t, t > 0;
            let nd = deposited@ + delta@;
            assert(nd <= revived@) by (nonlinear_arith)
                requires 4294967296 * nd <= revived@ * s_sum, s_sum <= 4294967296, revived@ > 0;
        }
        deposited = deposited.add(delta);
        i += 1;
    }
    let ghost d = after_deposits(old_cs, revived@);
    proof {
        assert(cohorts@ =~= d);
        assert(old_cs.take(old_cs.len() as int) =~= old_cs);
        assert(s_sum <= scale()) by (nonlinear_arith) requires t * s_sum <= 4294967296 * t, t > 0;
        assert(deposited@ <= revived@) by (nonlinear_arith)
            requires 4294967296 * deposited@ <= revived@ * s_sum, s_sum <= 4294967296, revived@ > 0, s_sum >= 0;
        lemma_deposits_fertile(old_cs, old_cs.len(), revived@);
        assert(d.take(d.len() as int) =~= d);
        assert(old_cs.take(old_cs.len() as int) =~= old_cs);
    }
    let residual = revived.sub(deposited);
    if residual.bits > 0 {
        let mut k: usize = 0;
        let mut j: usize = 1;
        while j < cohorts.len()
            invariant
                0 <= k < j <= cohorts.len(),
                cohorts@ == d,
                forall|m: int| 0 <= m < j ==> #[trigger] d[m].fertile@ <= d[k as int].fertile@,
                forall|m: int| k < m < j ==> #[trigger] d[m].fertile@ < d[k as int].fertile@,
            decreases cohorts.len() - j,
        {
            if cohorts[j].fertile.bits >= cohorts[k].fertile.bits {
                k = j;
            }
            j += 1;
        }
        let mut ck = cohorts[k];
        proof {
            assert(is_last_max(d, k as int));
            assert(ck.wf()) by {
                lemma_after_deposits_wf(old_cs, revived@, k as int, deposited@);
            }
            assert(cohort_total(ck) + residual@ <= i64::MAX) by {
                lemma_after_deposits_wf(old_cs, revived@, k as int, deposited@);
                lemma_cell_total_le(old_cs, k as int);
            }
        }
        ck.add_fertile(residual);
        cohorts.set(k, ck);
        proof {
            lemma_fertile_sum_update(d, k as int, ck);
        }
    }
    proof {
        lemma_sums_prefix(old_cs, old_cs.len());
        assert(old_cs.take(old_cs.len() as int) =~= old_cs);
    }
    aggregate.fertile = total_fertile.add(revived);
}

proof fn lemma_fertile_prefix_le(cs: Seq<Cohort>, n: nat)
    requires
        n <= cs.len(),
        forall|i: int| 0 <= i < cs.len() ==> (#[trigger] cs[i]).wf(),
    ensures
        fertile_sum(cs.take(n as int)) <= fertile_sum(cs),
    decreases cs.len() - n,
{
    if n < cs.len() {
        lemma_fertile_prefix_le(cs, n + 1);
        assert(cs.take(n as int + 1).drop_last() =~= cs.take(n as int));
        assert(cs[n as int].wf());
    } else {
        assert(cs.take(n as int) =~= cs);
    }
}

proof fn lemma_cell_total_le(cs: Seq<Cohort>, i: int)
    requires
        0 <= i < cs.len(),
        forall|j: int| 0 <= j < cs.len() ==> (#[trigger] cs[j]).wf(),
    ensures
        cohort_total(cs[i]) <= total_sum(cs),
{
    lemma_sums_prefix(cs, cs.len());
    assert(cs.take(cs.len() as int) =~= cs);
}

/// The fertile sum after the first `n` deposits grows by exactly those
/// deposits.
proof fn lemma_deposits_fertile(cs: Seq<Cohort>, n: nat, revived: int)
    requires
        n <= cs.len(),
        cohorts_ok(cs, revived),
        forall|i: int| 0 <= i < n ==> 0 <= #[trigger] deposit_bits(cs, i, revived) <= revived,
    ensures
        fertile_sum(after_deposits(cs, revived).take(n as int)) == fertile_sum(cs.take(n as int))
            + deposits_sum(cs, n, revived),
    decreases n,
{
    if n > 0 {
        lemma_deposits_fertile(cs, (n - 1) as nat, revived);
        let d = after_deposits(cs, revived);
        assert(d.take(n as int).drop_last() =~= d.take(n - 1));
        assert(cs.take(n as int).drop_last() =~= cs.take(n - 1));
        assert(d.take(n as int).last() == d[n - 1]);
        assert(cs.take(n as int).last() == cs[n - 1]);
        lemma_cell_total_le(cs, n - 1);
        assert(cs[n - 1].wf());
        assert(0 <= deposit_bits(cs, n - 1, revived) <= revived);
    }
}

/// A cell after its deposit is still well formed, and its head count
/// grew by at most the deposits made.
proof fn lemma_after_deposits_wf(cs: Seq<Cohort>, revived: int, k: int, deposited: int)
    requires
        0 <= k < cs.len(),
        cohorts_ok(cs, revived),
        fertile_sum(cs) > 0,
        revived > 0,
        0 <= deposit_bits(cs, k, revived) <= deposited <= revived,
    ensures
        after_deposits(cs, revived)[k].wf(),
        cohort_total(after_deposits(cs, revived)[k]) <= cohort_total(cs[k]) + deposited,
{
    lemma_cell_total_le(cs, k);
    assert(cs[k].wf());
}


/// Carrying capacity from the civ's per-unit capacity and a producer
/// share: `per_unit × (share × tech × tools)`, multiplied left to right.
pub open spec fn capacity_from_share(per_unit: int, share: int, tech: int, tools: int) -> int {
    mul_bits(per_unit, mul_bits(mul_bits(share, tech), tools))
}

/// The products of `capacity_from_share` stay in range.
pub open spec fn capacity_ok(per_unit: int, share: int, tech: int, tools: int) -> bool {
    &&& mul_ok(share, tech)
    &&& mul_ok(mul_bits(share, tech), tools)
    &&& mul_ok(per_unit, mul_bits(mul_bits(share, tech), tools))
}

fn capacity_of_share(per_unit: Real, share: Real, tech: Real, tools: Real) -> (r: Real)
    requires
        capacity_ok(per_unit@, share@, tech@, tools@),
    ensures
        r@ == capacity_from_share(per_unit@, share@, tech@, tools@),
{
    per_unit.mul(share.mul(tech).mul(tools))
}

/// Carrying capacity: the live producer biomass times the civ's claimed
/// share of the planet, times the tech and tool multipliers, in units of
/// the per-unit capacity.
pub fn carrying_capacity(
    capacity_per_unit: Real,
    producer_biomass: Real,
    claimed: usize,
    total_cells: usize,
    tech_multiplier: Real,
    tool_capacity_multiplier: Real,
) -> (r: Real)
    requires
        claimed < 0x8000_0000,
        total_cells < 0x8000_0000,
        mul_ok(producer_biomass@, claimed_fraction_bits(claimed as int, total_cells as int)),
        capacity_ok(
            capacity_per_unit@,
            mul_bits(producer_biomass@, claimed_fraction_bits(claimed as int, total_cells as int)),
            tech_multiplier@,
            tool_capacity_multiplier@,
        ),
    ensures
        r@ == capacity_from_share(
            capacity_per_unit@,
            mul_bits(producer_biomass@, claimed_fraction_bits(claimed as int, total_cells as int)),
            tech_multiplier@,
            tool_capacity_multiplier@,
        ),
{
    let frac = claimed_cell_fraction(claimed, total_cells);
    capacity_of_share(capacity_per_unit, producer_biomass.mul(frac), tech_multiplier, tool_capacity_multiplier)
}

/// Sum of the first `n` values.
pub open spec fn sum_prefix(v: Seq<Real>, n: int) -> int
    decreases n,
{
    if n <= 0 {
        0
    } else {
        sum_prefix(v, n - 1) + v[n - 1]@
    }
}

/// Every partial sum of `v` is representable.
pub open spec fn sums_fit(v: Seq<Real>) -> bool {
    forall|n: int| 0 <= n <= v.len() ==> #[trigger] fits(sum_prefix(v, n))
}

/// Terrain-weighted producer share: the claimed cells' habitability
/// multipliers summed over the planet's cell count.
pub open spec fn terrain_share(habitability: Seq<Real>, total_cells: int) -> int {
    div_bits(sum_prefix(habitability, habitability.len() as int), int_bits(total_cells))
}

/// Carrying capacity with terrain: as `carrying_capacity`, with each
/// claimed cell's share weighted by its habitability for the civ's
/// species (`habitability` holds one multiplier per claimed cell). A
/// civ without claims, or a grid without cells, gets the unweighted
/// capacity.
pub fn carrying_capacity_with_terrain(
    capacity_per_unit: Real,
    producer_biomass: Real,
    habitability: &Vec<Real>,
    total_cells: usize,
    tech_multiplier: Real,
    tool_capacity_multiplier: Real,
) -> (r: Real)
    requires
        habitability.len() < 0x8000_0000,
        total_cells < 0x8000_0000,
        habitability.len() == 0 || total_cells == 0 ==> mul_ok(
            producer_biomass@,
            claimed_fraction_bits(habitability.len() as int, total_cells as int),
        ) && capacity_ok(
            capacity_per_unit@,
            mul_bits(producer_biomass@, claimed_fraction_bits(habitability.len() as int, total_cells as int)),
            tech_multiplier@,
            tool_capacity_multiplier@,
        ),
        habitability.len() > 0 && total_cells > 0 ==> {
            &&& sums_fit(habitability@)
            &&& crate::arith::div_ok(sum_prefix(habitability@, habitability.len() as int), int_bits(total_cells as int))
            &&& mul_ok(producer_biomass@, terrain_share(habitability@, total_cells as int))
            &&& capacity_ok(
                capacity_per_unit@,
                mul_bits(producer_biomass@, terrain_share(habitability@, total_cells as int)),
                tech_multiplier@,
                tool_capacity_multiplier@,
            )
        },
    ensures
        habitability.len() == 0 || total_cells == 0 ==> r@ == capacity_from_share(
            capacity_per_unit@,
            mul_bits(producer_biomass@, claimed_fraction_bits(habitability.len() as int, total_cells as int)),
            tech_multiplier@,
            tool_capacity_multiplier@,
        ),
        habitability.len() > 0 && total_cells > 0 ==> r@ == capacity_from_share(
            capacity_per_unit@,
            mul_bits(producer_biomass@, terrain_share(habitability@, total_cells as int)),
            tech_multiplier@,
            tool_capacity_multiplier@,
        ),
{
    if habitability.len() == 0 || total_cells == 0 {
        return carrying_capacity(
            capacity_per_unit,
            producer_biomass,
            habitability.len(),
            total_cells,
            tech_multiplier,
            tool_capacity_multiplier,
        );
    }
    let mut weighted = Real::zero();
    let mut i: usize = 0;
    while i < habitability.len()
        invariant
            i <= habitability.len(),
            sums_fit(habitability@),
            weighted@ == sum_prefix(habitability@, i as int),
        decreases habitability.len() - i,
    {
        proof {
            assert(fits(sum_prefix(habitability@, i + 1)));
        }
        weighted = weighted.add(habitability[i]);
        i = i + 1;
    }
    let share = weighted.div(Real::from_int(total_cells as i64));
    capacity_of_share(capacity_per_unit, producer_biomass.mul(share), tech_multiplier, tool_capacity_multiplier)
}


/// What one claimed cell offers this tick: its seasonal capacity factor
/// (after the civ's tools have lifted the seasonal floor) and its
/// terrain habitability for the civ's species.
#[derive(Debug, Clone, Copy, PartialEq, Eq, Structural)]
pub struct CellOutlook {
    pub seasonal_factor: Real,
    pub habitability: Real,
}

/// Each cell's share of the planet-wide producer biomass.
pub open spec fn producer_per_cell_bits(producer: int, total_cells: int) -> int {
    div_bits(producer, int_bits(total_cells))
}

/// The product `producer_per_cell × tech × tools × factor × hab`,
/// multiplied left to right.
pub open spec fn cell_share_bits(ppc: int, tech: int, tools: int, factor: int, hab: int) -> int {
    mul_bits(mul_bits(mul_bits(mul_bits(ppc, tech), tools), factor), hab)
}

/// One cell's capacity: the per-unit capacity times its share.
pub open spec fn cell_yield_bits(per_unit: int, ppc: int, tech: int, tools: int, factor: int, hab: int) -> int {
    mul_bits(per_unit, cell_share_bits(ppc, tech, tools, factor, hab))
}

/// The products of `cell_yield_bits` stay in range.
pub open spec fn cell_yield_ok(per_unit: int, ppc: int, tech: int, tools: int, factor: int, hab: int) -> bool {
    &&& mul_ok(ppc, tech)
    &&& mul_ok(mul_bits(ppc, tech), tools)
    &&& mul_ok(mul_bits(mul_bits(ppc, tech), tools), factor)
    &&& mul_ok(mul_bits(mul_bits(mul_bits(ppc, tech), tools), factor), hab)
    &&& mul_ok(per_unit, cell_share_bits(ppc, tech, tools, factor, hab))
}

fn cell_yield(per_unit: Real, ppc: Real, tech: Real, tools: Real, factor: Real, hab: Real) -> (r: Real)
    requires
        cell_yield_ok(per_unit@, ppc@, tech@, tools@, factor@, hab@),
    ensures
        r@ == cell_yield_bits(per_unit@, ppc@, tech@, tools@, factor@, hab@),
{
    per_unit.mul(ppc.mul(tech).mul(tools).mul(factor).mul(hab))
}

/// Capacity of one cell: its share of the producer biomass, weighted by
/// the tech and tool multipliers, the cell's seasonal factor and its
/// habitability. A grid without cells has no capacity.
pub fn cell_capacity(
    capacity_per_unit: Real,
    producer_biomass: Real,
    total_cells: usize,
    tech_multiplier: Real,
    tool_capacity_multiplier: Real,
    cell: CellOutlook,
) -> (r: Real)
    requires
        total_cells < 0x8000_0000,
        total_cells > 0 ==> crate::arith::div_ok(producer_biomass@, int_bits(total_cells as int))
            && cell_yield_ok(
            capacity_per_unit@,
            producer_per_cell_bits(producer_biomass@, total_cells as int),
            tech_multiplier@,
            tool_capacity_multiplier@,
            cell.seasonal_factor@,
            cell.habitability@,
        ),
    ensures
        total_cells == 0 ==> r@ == 0,
        total_cells > 0 ==> r@ == cell_yield_bits(
            capacity_per_unit@,
            producer_per_cell_bits(producer_biomass@, total_cells as int),
            tech_multiplier@,
            tool_capacity_multiplier@,
            cell.seasonal_factor@,
            cell.habitability@,
        ),
{
    if total_cells == 0 {
        return Real::zero();
    }
    let ppc = producer_biomass.div(Real::from_int(total_cells as i64));
    cell_yield(
        capacity_per_unit,
        ppc,
        tech_multiplier,
        tool_capacity_multiplier,
        cell.seasonal_factor,
        cell.habitability,
    )
}

/// Sum of the first `n` cells' capacities.
pub open spec fn yields_sum(cells: Seq<CellOutlook>, n: int, per_unit: int, ppc: int, tech: int, tools: int) -> int
    decreases n,
{
    if n <= 0 {
        0
    } else {
        yields_sum(cells, n - 1, per_unit, ppc, tech, tools) + cell_yield_bits(
            per_unit,
            ppc,
            tech,
            tools,
            cells[n - 1].seasonal_factor@,
            cells[n - 1].habitability@,
        )
    }
}

/// Every cell's capacity is computable and every partial sum fits.
pub open spec fn yields_fit(cells: Seq<CellOutlook>, per_unit: int, ppc: int, tech: int, tools: int) -> bool {
    &&& forall|i: int|
        0 <= i < cells.len() ==> #[trigger] cell_yield_ok(
            per_unit,
            ppc,
            tech,
            tools,
            cells[i].seasonal_factor@,
            cells[i].habitability@,
        )
    &&& forall|n: int| 0 <= n <= cells.len() ==> #[trigger] fits(yields_sum(cells, n, per_unit, ppc, tech, tools))
}

/// Season-aware carrying capacity: the sum of the claimed cells'
/// capacities (`cells` holds one outlook per claimed cell). A civ
/// without claims gets the unweighted `carrying_capacity`; a grid
/// without cells gives nothing.
pub fn seasonal_carrying_capacity(
    capacity_per_unit: Real,
    producer_biomass: Real,
    cells: &Vec<CellOutlook>,
    total_cells: usize,
    tech_multiplier: Real,
    tool_capacity_multiplier: Real,
) -> (r: Real)
    requires
        total_cells < 0x8000_0000,
        cells.len() == 0 ==> mul_ok(producer_biomass@, scale()) && capacity_ok(
            capacity_per_unit@,
            mul_bits(producer_biomass@, scale()),
            tech_multiplier@,
            tool_capacity_multiplier@,
        ),
        cells.len() > 0 && total_cells > 0 ==> {
            &&& crate::arith::div_ok(producer_biomass@, int_bits(total_cells as int))
            &&& yields_fit(
                cells@,
                capacity_per_unit@,
                producer_per_cell_bits(producer_biomass@, total_cells as int),
                tech_multiplier@,
                tool_capacity_multiplier@,
            )
        },
    ensures
        cells.len() == 0 ==> r@ == capacity_from_share(
            capacity_per_unit@,
            mul_bits(producer_biomass@, scale()),
            tech_multiplier@,
            tool_capacity_multiplier@,
        ),
        cells.len() > 0 && total_cells == 0 ==> r@ == 0,
        cells.len() > 0 && total_cells > 0 ==> r@ == yields_sum(
            cells@,
            cells.len() as int,
            capacity_per_unit@,
            producer_per_cell_bits(producer_biomass@, total_cells as int),
            tech_multiplier@,
            tool_capacity_multiplier@,
        ),
{
    if cells.len() == 0 {
        return carrying_capacity(
            capacity_per_unit,
            producer_biomass,
            0,
            total_cells,
            tech_multiplier,
            tool_capacity_multiplier,
        );
    }
    if total_cells == 0 {
        return Real::zero();
    }
    let ppc = producer_biomass.div(Real::from_int(total_cells as i64));
    let ghost ppc_bits = producer_per_cell_bits(producer_biomass@, total_cells as int);
    let mut total = Real::zero();
    let mut i: usize = 0;
    while i < cells.len()
        invariant
            i <= cells.len(),
            ppc@ == ppc_bits,
            yields_fit(cells@, capacity_per_unit@, ppc_bits, tech_multiplier@, tool_capacity_multiplier@),
            total@ == yields_sum(cells@, i as int, capacity_per_unit@, ppc_bits, tech_multiplier@, tool_capacity_multiplier@),
        decreases cells.len() - i,
    {
        let c = cells[i];
        proof {
            assert(cell_yield_ok(
                capacity_per_unit@,
                ppc_bits,
                tech_multiplier@,
                tool_capacity_multiplier@,
                cells@[i as int].seasonal_factor@,
                cells@[i as int].habitability@,
            ));
            assert(fits(yields_sum(cells@, i + 1, capacity_per_unit@, ppc_bits, tech_multiplier@, tool_capacity_multiplier@)));
        }
        let y = cell_yield(
            capacity_per_unit,
            ppc,
            tech_multiplier,
            tool_capacity_multiplier,
            c.seasonal_factor,
            c.habitability,
        );
        total = total.add(y);
        i = i + 1;
    }
    total
}

/// Bracket `b` of a cohort: 0 infants, 1 juveniles, 2 fertile adults,
/// 3 elders.
pub open spec fn bracket(c: Cohort, b: int) -> int {
    if b == 0 {
        c.infant@
    } else if b == 1 {
        c.juvenile@
    } else if b == 2 {
        c.fertile@
    } else {
        c.elder@
    }
}

/// Sum of bracket `b` over the cells.
pub open spec fn bracket_sum(cs: Seq<Cohort>, b: int) -> int
    decreases cs.len(),
{
    if cs.len() == 0 {
        0
    } else {
        bracket_sum(cs.drop_last(), b) + bracket(cs.last(), b)
    }
}

proof fn lemma_bracket_le_total(cs: Seq<Cohort>, b: int)
    requires
        forall|i: int| 0 <= i < cs.len() ==> (#[trigger] cs[i]).wf(),
    ensures
        0 <= bracket_sum(cs, b) <= total_sum(cs),
    decreases cs.len(),
{
    if cs.len() > 0 {
        let init = cs.drop_last();
        assert forall|i: int| 0 <= i < init.len() implies (#[trigger] init[i]).wf() by {
            assert(init[i] == cs[i]);
        }
        lemma_bracket_le_total(init, b);
        assert(cs.last() == cs[cs.len() - 1]);
    }
}

/// The civ-level cohort re-summed from its cells: each bracket the sum
/// of that bracket over the cells.
pub fn aggregate_cohorts(cells: &Vec<Cohort>) -> (agg: Cohort)
    requires
        cohorts_ok(cells@, 0),
    ensures
        agg.infant@ == bracket_sum(cells@, 0),
        agg.juvenile@ == bracket_sum(cells@, 1),
        agg.fertile@ == bracket_sum(cells@, 2),
        agg.elder@ == bracket_sum(cells@, 3),
        agg.wf(),
{
    let mut agg = Cohort::zero();
    let mut i: usize = 0;
    while i < cells.len()
        invariant
            i <= cells.len(),
            cohorts_ok(cells@, 0),
            agg.infant@ == bracket_sum(cells@.take(i as int), 0),
            agg.juvenile@ == bracket_sum(cells@.take(i as int), 1),
            agg.fertile@ == bracket_sum(cells@.take(i as int), 2),
            agg.elder@ == bracket_sum(cells@.take(i as int), 3),
        decreases cells.len() - i,
    {
        let ghost pre = cells@.take(i as int);
        let ghost post = cells@.take(i + 1);
        proof {
            assert(post.drop_last() =~= pre);
            assert(post.last() == cells@[i as int]);
            lemma_prefix_total_le(cells@, i as nat + 1);
            assert forall|j: int| 0 <= j < post.len() implies (#[trigger] post[j]).wf() by {
                assert(post[j] == cells@[j]);
            }
            lemma_bracket_le_total(post, 0);
            lemma_bracket_le_total(post, 1);
            lemma_bracket_le_total(post, 2);
            lemma_bracket_le_total(post, 3);
        }
        let c = cells[i];
        agg.infant = agg.infant.add(c.infant);
        agg.juvenile = agg.juvenile.add(c.juvenile);
        agg.fertile = agg.fertile.add(c.fertile);
        agg.elder = agg.elder.add(c.elder);
        i += 1;
    }
    proof {
        assert(cells@.take(cells.len() as int) =~= cells@);
        lemma_sum_brackets_total(cells@);
        lemma_bracket_le_total(cells@, 0);
        lemma_bracket_le_total(cells@, 1);
        lemma_bracket_le_total(cells@, 2);
        lemma_bracket_le_total(cells@, 3);
        assert(total_sum(cells@) <= i64::MAX);
    }
    agg
}

proof fn lemma_sum_brackets_total(cs: Seq<Cohort>)
    requires
        forall|i: int| 0 <= i < cs.len() ==> (#[trigger] cs[i]).wf(),
    ensures
        bracket_sum(cs, 0) + bracket_sum(cs, 1) + bracket_sum(cs, 2) + bracket_sum(cs, 3) == total_sum(cs),
    decreases cs.len(),
{
    if cs.len() > 0 {
        let init = cs.drop_last();
        assert forall|i: int| 0 <= i < init.len() implies (#[trigger] init[i]).wf() by {
            assert(init[i] == cs[i]);
        }
        lemma_sum_brackets_total(init);
    }
}

} // verus!
