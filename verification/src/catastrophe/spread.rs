//! How a catastrophe's loss spreads over a civ's cells: each struck
//! cell loses a fraction of its head count, and a strike at a centre
//! cell reaches its hex neighbours with a smaller fraction (only the
//! civ's claimed neighbours when asked).

use crate::arith::{mul_bits, scale, Real};
use crate::catastrophe::cells::{hex_neighbor, hex_neighbors, axial_row, CellPopulation};
use crate::conflict::war::contains_cell;
use crate::transcendental::lemma_mul_bits_bound;
use vstd::prelude::*;

verus! {

/// Head count over all cells.
pub open spec fn cells_sum(cs: Seq<CellPopulation>) -> int
    decreases cs.len(),
{
    if cs.len() == 0 {
        0
    } else {
        cells_sum(cs.drop_last()) + cs.last().total@
    }
}

/// No cell holds a negative head count, and the head counts sum to a
/// representable value.
pub open spec fn cells_ok(cs: Seq<CellPopulation>) -> bool {
    &&& forall|i: int| 0 <= i < cs.len() ==> (#[trigger] cs[i]).total@ >= 0
    &&& cells_sum(cs) <= i64::MAX
}

/// Cell `c` after `cell` lost the fraction `frac` of its head count.
pub open spec fn shrunk(c: CellPopulation, cell: u32, frac: int) -> CellPopulation {
    if c.cell == cell {
        CellPopulation { cell: c.cell, total: Real { bits: (c.total@ - mul_bits(c.total@, frac)) as i64 } }
    } else {
        c
    }
}

/// The cells after `cell` lost the fraction `frac` of its head count.
pub open spec fn dropped(cs: Seq<CellPopulation>, cell: u32, frac: int) -> Seq<CellPopulation> {
    cs.map_values(|c: CellPopulation| shrunk(c, cell, frac))
}

/// The head count `cell` loses to the fraction `frac` (zero when the civ
/// holds no such cell).
pub open spec fn lost_at(cs: Seq<CellPopulation>, cell: u32, frac: int) -> int
    decreases cs.len(),
{
    if cs.len() == 0 {
        0
    } else {
        lost_at(cs.drop_last(), cell, frac) + (if cs.last().cell == cell {
            mul_bits(cs.last().total@, frac)
        } else {
            0
        })
    }
}

/// Strikes applied in order: each `(cell, frac)` takes its fraction of
/// that cell's head count as it then stands. Gives the cells after all
/// strikes and the head count lost in total.
pub open spec fn strikes(cs: Seq<CellPopulation>, targets: Seq<(u32, int)>) -> (Seq<CellPopulation>, int)
    decreases targets.len(),
{
    if targets.len() == 0 {
        (cs, 0)
    } else {
        let (c1, l1) = strikes(cs, targets.drop_last());
        let (cell, frac) = targets.last();
        (dropped(c1, cell, frac), l1 + lost_at(c1, cell, frac))
    }
}

/// The neighbour strikes among the first `k` hex neighbours of `center`:
/// each neighbour in order with `frac`, skipping unclaimed ones when
/// `claimed_only`; none on an empty grid.
pub open spec fn neighbour_targets(
    center: u32,
    width: u32,
    height: u32,
    claimed: Seq<u32>,
    claimed_only: bool,
    frac: int,
    k: int,
) -> Seq<(u32, int)>
    decreases k,
{
    if k <= 0 || width == 0 || height == 0 {
        Seq::empty()
    } else {
        let earlier = neighbour_targets(center, width, height, claimed, claimed_only, frac, k - 1);
        let n = hex_neighbor(center, width, height, k - 1) as u32;
        if claimed_only && !claimed.contains(n) {
            earlier
        } else {
            earlier.push((n, frac))
        }
    }
}

/// A strike at `center` with `center_frac`, then at its six neighbours
/// with `neighbor_frac`.
pub open spec fn strike_targets(
    center: u32,
    width: u32,
    height: u32,
    claimed: Seq<u32>,
    claimed_only: bool,
    center_frac: int,
    neighbor_frac: int,
) -> Seq<(u32, int)> {
    seq![(center, center_frac)] + neighbour_targets(center, width, height, claimed, claimed_only, neighbor_frac, 6)
}

/// The cells and total loss after a strike at `center` and around it.
pub open spec fn drop_around(
    cs: Seq<CellPopulation>,
    center: u32,
    width: u32,
    height: u32,
    claimed: Seq<u32>,
    claimed_only: bool,
    center_frac: int,
    neighbor_frac: int,
) -> (Seq<CellPopulation>, int) {
    strikes(cs, strike_targets(center, width, height, claimed, claimed_only, center_frac, neighbor_frac))
}

/// Losing a fraction of one cell conserves head count: what the cells
/// keep plus what is lost is what they held; no cell grows or goes
/// negative.
pub proof fn lemma_drop_conserves(cs: Seq<CellPopulation>, cell: u32, frac: int)
    requires
        forall|i: int| 0 <= i < cs.len() ==> (#[trigger] cs[i]).total@ >= 0,
        0 <= frac <= scale(),
    ensures
        cells_sum(dropped(cs, cell, frac)) + lost_at(cs, cell, frac) == cells_sum(cs),
        lost_at(cs, cell, frac) >= 0,
        dropped(cs, cell, frac).len() == cs.len(),
        forall|i: int| 0 <= i < cs.len() ==> 0 <= (#[trigger] dropped(cs, cell, frac)[i]).total@ <= cs[i].total@
            && dropped(cs, cell, frac)[i].cell == cs[i].cell,
    decreases cs.len(),
{
    if cs.len() > 0 {
        let init = cs.drop_last();
        lemma_drop_conserves(init, cell, frac);
        assert(dropped(cs, cell, frac).drop_last() =~= dropped(init, cell, frac));
        let t = cs.last().total@;
        lemma_mul_bits_bound(t, frac);
        assert(t * frac <= t * scale()) by (nonlinear_arith)
            requires t >= 0, frac <= scale();
        assert(scale() * mul_bits(t, frac) <= scale() * t);
        assert(mul_bits(t, frac) <= t) by (nonlinear_arith)
            requires scale() * mul_bits(t, frac) <= scale() * t, scale() > 0;
        assert forall|i: int| 0 <= i < cs.len() implies 0 <= (#[trigger] dropped(cs, cell, frac)[i]).total@ <= cs[i].total@
            && dropped(cs, cell, frac)[i].cell == cs[i].cell by {
            let ti = cs[i].total@;
            lemma_mul_bits_bound(ti, frac);
            assert(ti * frac <= ti * scale()) by (nonlinear_arith)
                requires ti >= 0, frac <= scale();
            assert(mul_bits(ti, frac) <= ti) by (nonlinear_arith)
                requires scale() * mul_bits(ti, frac) <= ti * frac, ti * frac <= ti * scale(), scale() > 0;
        }
    }
}

/// Applying strikes in order conserves head count.
pub proof fn lemma_strikes_conserve(cs: Seq<CellPopulation>, targets: Seq<(u32, int)>)
    requires
        forall|i: int| 0 <= i < cs.len() ==> (#[trigger] cs[i]).total@ >= 0,
        forall|j: int| 0 <= j < targets.len() ==> 0 <= (#[trigger] targets[j]).1 <= scale(),
    ensures
        cells_sum(strikes(cs, targets).0) + strikes(cs, targets).1 == cells_sum(cs),
        strikes(cs, targets).1 >= 0,
        strikes(cs, targets).0.len() == cs.len(),
        forall|i: int| 0 <= i < cs.len() ==> 0 <= (#[trigger] strikes(cs, targets).0[i]).total@ <= cs[i].total@
            && strikes(cs, targets).0[i].cell == cs[i].cell,
    decreases targets.len(),
{
    if targets.len() > 0 {
        let init = targets.drop_last();
        assert forall|j: int| 0 <= j < init.len() implies 0 <= (#[trigger] init[j]).1 <= scale() by {
            assert(init[j] == targets[j]);
        }
        lemma_strikes_conserve(cs, init);
        let c1 = strikes(cs, init).0;
        let (cell, frac) = targets.last();
        assert(targets.last() == targets[targets.len() - 1]);
        lemma_drop_conserves(c1, cell, frac);
    }
}

/// Strikes keep every cell's id.
pub proof fn lemma_strikes_conserve_cells(cs: Seq<CellPopulation>, targets: Seq<(u32, int)>)
    ensures
        strikes(cs, targets).0.len() == cs.len(),
        forall|i: int| 0 <= i < cs.len() ==> (#[trigger] strikes(cs, targets).0[i]).cell == cs[i].cell,
    decreases targets.len(),
{
    if targets.len() > 0 {
        lemma_strikes_conserve_cells(cs, targets.drop_last());
    }
}

/// One cell loses `frac` of its head count; returns what it lost.
pub(crate) fn drop_cell(cells: &mut Vec<CellPopulation>, cell: u32, frac: Real) -> (lost: Real)
    requires
        cells_ok(old(cells)@),
        0 <= frac@ <= scale(),
    ensures
        final(cells)@ == dropped(old(cells)@, cell, frac@),
        lost@ == lost_at(old(cells)@, cell, frac@),
{
    let ghost cs = cells@;
    proof {
        lemma_drop_conserves(cs, cell, frac@);
    }
    let mut lost = Real::zero();
    let mut i: usize = 0;
    while i < cells.len()
        invariant
            i <= cells.len(),
            cells@.len() == cs.len(),
            cells_ok(cs),
            0 <= frac@ <= scale(),
            forall|j: int| 0 <= j < i ==> cells@[j] == #[trigger] shrunk(cs[j], cell, frac@),
            forall|j: int| i <= j < cells@.len() ==> cells@[j] == cs[j],
            lost@ == lost_at(cs.take(i as int), cell, frac@),
            0 <= lost@ <= cells_sum(cs.take(i as int)),
        decreases cells.len() - i,
    {
        proof {
            let pre = cs.take(i as int);
            let post = cs.take(i + 1);
            assert(post.drop_last() =~= pre);
            lemma_prefix_sum(cs, i + 1);
            lemma_drop_conserves(post, cell, frac@);
            lemma_drop_conserves(pre, cell, frac@);
        }
        let c = cells[i];
        if c.cell == cell {
            proof {
                lemma_mul_bits_bound(c.total@, frac@);
                assert(c.total@ * frac@ <= c.total@ * scale()) by (nonlinear_arith)
                    requires c.total@ >= 0, frac@ <= scale();
                assert(mul_bits(c.total@, frac@) <= c.total@) by (nonlinear_arith)
                    requires scale() * mul_bits(c.total@, frac@) <= c.total@ * frac@, c.total@ * frac@ <= c.total@ * scale(), scale() > 0;
                assert(crate::arith::mul_ok(c.total@, frac@)) by (nonlinear_arith)
                    requires 0 <= c.total@ <= i64::MAX, 0 <= frac@ <= 4294967296;
            }
            let l = c.total.mul(frac);
            cells.set(i, CellPopulation { cell: c.cell, total: c.total.sub(l) });
            lost = lost.add(l);
        }
        i += 1;
    }
    proof {
        assert(cs.take(cs.len() as int) =~= cs);
        assert(cells@ =~= dropped(cs, cell, frac@));
    }
    lost
}

/// The head counts of a prefix sum to at most the whole (they are
/// non-negative).
proof fn lemma_prefix_sum(cs: Seq<CellPopulation>, n: int)
    requires
        0 <= n <= cs.len(),
        forall|i: int| 0 <= i < cs.len() ==> (#[trigger] cs[i]).total@ >= 0,
    ensures
        0 <= cells_sum(cs.take(n)) <= cells_sum(cs),
    decreases cs.len() - n,
{
    if n < cs.len() {
        lemma_prefix_sum(cs, n + 1);
        assert(cs.take(n + 1).drop_last() =~= cs.take(n));
        assert(cs.take(n + 1).last() == cs[n]);
    } else {
        assert(cs.take(n) =~= cs);
    }
    lemma_sum_nonneg(cs.take(n));
}

pub(crate) proof fn lemma_sum_nonneg(cs: Seq<CellPopulation>)
    requires
        forall|i: int| 0 <= i < cs.len() ==> (#[trigger] cs[i]).total@ >= 0,
    ensures
        cells_sum(cs) >= 0,
    decreases cs.len(),
{
    if cs.len() > 0 {
        let init = cs.drop_last();
        assert forall|i: int| 0 <= i < init.len() implies (#[trigger] init[i]).total@ >= 0 by {
            assert(init[i] == cs[i]);
        }
        lemma_sum_nonneg(init);
    }
}

/// A strike at `center`: it loses `center_frac` of its head count, then
/// each of its six hex neighbours in order (only the claimed ones when
/// `claimed_only`) loses `neighbor_frac` of its own. Cells the civ does
/// not hold lose nothing. Returns the head count lost in total; the
/// cells keep the rest.
pub fn apply_to_cell_and_neighbors(
    cells: &mut Vec<CellPopulation>,
    claimed: &Vec<u32>,
    width: u32,
    height: u32,
    center: u32,
    center_frac: Real,
    neighbor_frac: Real,
    claimed_only: bool,
) -> (lost: Real)
    requires
        cells_ok(old(cells)@),
        0 <= center_frac@ <= scale(),
        0 <= neighbor_frac@ <= scale(),
        width <= i32::MAX,
        height <= i32::MAX,
        width * height <= 0x1_0000_0000,
        width > 0 ==> axial_row(center, width) < i32::MAX,
    ensures
        final(cells)@ == drop_around(old(cells)@, center, width, height, claimed@, claimed_only, center_frac@, neighbor_frac@).0,
        lost@ == drop_around(old(cells)@, center, width, height, claimed@, claimed_only, center_frac@, neighbor_frac@).1,
        cells_sum(final(cells)@) + lost@ == cells_sum(old(cells)@),
        lost@ >= 0,
        cells_ok(final(cells)@),
{
    let ghost cs = cells@;
    let ghost first = seq![(center, center_frac@)];
    proof {
        lemma_drop_conserves(cs, center, center_frac@);
        assert(first.drop_last() =~= Seq::<(u32, int)>::empty());
        assert(first + neighbour_targets(center, width, height, claimed@, claimed_only, neighbor_frac@, 0) =~= first);
    }
    let mut lost = drop_cell(cells, center, center_frac);
    proof {
        assert(first.last() == (center, center_frac@));
        assert(strikes(cs, Seq::<(u32, int)>::empty()) == (cs, 0int));
        assert(strikes(cs, first) == (dropped(cs, center, center_frac@), lost_at(cs, center, center_frac@)));
        lemma_sum_nonneg(dropped(cs, center, center_frac@));
    }
    let ns = hex_neighbors(center, width, height);
    let mut k: usize = 0;
    while k < ns.len()
        invariant
            k <= ns.len(),
            width == 0 || height == 0 ==> ns@.len() == 0,
            width > 0 && height > 0 ==> ns@.len() == 6,
            forall|q: int| 0 <= q < ns@.len() ==> #[trigger] ns@[q] as int == hex_neighbor(center, width, height, q),
            0 <= neighbor_frac@ <= scale(),
            (cells@, lost@) == strikes(cs, first + neighbour_targets(center, width, height, claimed@, claimed_only, neighbor_frac@, k as int)),
            forall|i: int| 0 <= i < cells@.len() ==> (#[trigger] cells@[i]).total@ >= 0,
            cells_sum(cells@) + lost@ == cells_sum(cs),
            cells_sum(cs) <= i64::MAX,
            lost@ >= 0,
        decreases ns.len() - k,
    {
        let n = ns[k];
        let ghost before = first + neighbour_targets(center, width, height, claimed@, claimed_only, neighbor_frac@, k as int);
        let ghost after = first + neighbour_targets(center, width, height, claimed@, claimed_only, neighbor_frac@, k + 1);
        proof {
            assert(n == hex_neighbor(center, width, height, k as int) as u32);
        }
        if claimed_only && !contains_cell(claimed, n) {
            proof {
                assert(after =~= before);
            }
        } else {
            proof {
                assert(after =~= before.push((n, neighbor_frac@)));
                assert(after.drop_last() =~= before);
                lemma_drop_conserves(cells@, n, neighbor_frac@);
                lemma_sum_nonneg(dropped(cells@, n, neighbor_frac@));
            }
            let l = drop_cell(cells, n, neighbor_frac);
            lost = lost.add(l);
        }
        k += 1;
    }
    proof {
        assert(neighbour_targets(center, width, height, claimed@, claimed_only, neighbor_frac@, k as int)
            == neighbour_targets(center, width, height, claimed@, claimed_only, neighbor_frac@, 6));
    }
    lost
}

} // verus!
