//! Cell-targeting helpers shared across catastrophe kinds: the densest
//! claimed cell, a deterministic per-tick pick, and hex-grid neighbours.

use crate::arith::Real;
use vstd::prelude::*;

verus! {

/// Population of one claimed cell.
#[derive(Debug, Clone, Copy, PartialEq, Eq, Structural)]
pub struct CellPopulation {
    pub cell: u32,
    pub total: Real,
}

/// Entry `i` holds the largest population, and no later entry ties it
/// (the last maximum wins).
pub open spec fn is_densest(v: Seq<CellPopulation>, i: int) -> bool {
    &&& 0 <= i < v.len()
    &&& forall|j: int| 0 <= j < v.len() ==> #[trigger] v[j].total@ <= v[i].total@
    &&& forall|j: int| i < j < v.len() ==> #[trigger] v[j].total@ < v[i].total@
}

/// The densest claimed cell among `cells` (one entry per cell, in cell
/// order): the last one holding the maximal population, or `None` when
/// the civ holds no cell.
pub fn densest_claimed_cell(cells: &Vec<CellPopulation>) -> (r: Option<u32>)
    ensures
        cells@.len() == 0 ==> r is None,
        cells@.len() > 0 ==> exists|i: int| is_densest(cells@, i) && r == Some(cells@[i].cell),
{
    if cells.len() == 0 {
        return None;
    }
    let mut best: usize = 0;
    let mut j: usize = 1;
    while j < cells.len()
        invariant
            0 <= best < j <= cells.len(),
            forall|k: int| 0 <= k < j ==> #[trigger] cells@[k].total@ <= cells@[best as int].total@,
            forall|k: int| best < k < j ==> #[trigger] cells@[k].total@ < cells@[best as int].total@,
        decreases cells.len() - j,
    {
        if cells[j].total.bits >= cells[best].total.bits {
            best = j;
        }
        j += 1;
    }
    assert(is_densest(cells@, best as int));
    Some(cells[best].cell)
}

/// Per-(tick, civ) hash: `tick·2654435761 + civ_id·40503`, wrapping at
/// 2^64.
pub open spec fn pick_mix(tick: u64, civ_id: u32) -> int {
    ((tick * 2654435761) % 0x1_0000_0000_0000_0000 + (civ_id * 40503)
        % 0x1_0000_0000_0000_0000) % 0x1_0000_0000_0000_0000
}

/// A deterministic cell of the claim (ascending cell ids): the one at
/// `pick_mix(tick, civ_id) mod len`. `None` when nothing is claimed.
pub fn deterministic_cell_pick(claimed_cells: &Vec<u32>, civ_id: u32, tick: u64) -> (r: Option<u32>)
    ensures
        claimed_cells@.len() == 0 ==> r is None,
        claimed_cells@.len() > 0 ==> r == Some(
            claimed_cells@[pick_mix(tick, civ_id) % (claimed_cells@.len() as int)],
        ),
{
    if claimed_cells.len() == 0 {
        return None;
    }
    let a = tick.wrapping_mul(2_654_435_761);
    let b = (civ_id as u64).wrapping_mul(40_503);
    let mix = a.wrapping_add(b);
    assert(mix == pick_mix(tick, civ_id));
    let len = claimed_cells.len() as u64;
    let idx = (mix % len) as usize;
    Some(claimed_cells[idx])
}

/// Axial offsets of the six hex neighbours, in output order.
pub open spec fn hex_offsets() -> Seq<(int, int)> {
    seq![(1, 0), (1, -1), (0, -1), (-1, 0), (-1, 1), (0, 1)]
}

/// Axial row of `cell`; a row that does not fit an `i32` reads as 0.
pub open spec fn axial_row(cell: u32, width: u32) -> int {
    if cell / width <= i32::MAX {
        (cell / width) as int
    } else {
        0
    }
}

/// Neighbour `k` of `cell` on the torus: both axial coordinates offset
/// and wrapped (Euclidean remainder), re-flattened row-major.
pub open spec fn hex_neighbor(cell: u32, width: u32, height: u32, k: int) -> int {
    let d = hex_offsets()[k];
    ((axial_row(cell, width) + d.1) % (height as int)) * width + ((cell % width) + d.0) % (
    width as int)
}

fn wrap_step(v: u64, d: u64, n: u64) -> (r: u64)
    requires
        n >= 1,
        d <= 2,
        v + n + d <= u64::MAX,
    ensures
        r == (v + d - 1) % (n as int),
{
    let r = (v + n + d - 1) % n;
    proof {
        vstd::arithmetic::div_mod::lemma_mod_add_multiples_vanish((v + d - 1) as int, n as int);
    }
    r
}

/// The six axial neighbours of `cell` on a torus-wrapping hex grid of
/// `width × height`, in the fixed offset order. Empty when either side
/// is zero. Axial coordinates are `i32`s and the flattened result a
/// `u32`, which bounds the grid.
pub fn hex_neighbors(cell: u32, width: u32, height: u32) -> (v: Vec<u32>)
    requires
        width <= i32::MAX,
        height <= i32::MAX,
        width * height <= 0x1_0000_0000,
        width > 0 ==> axial_row(cell, width) < i32::MAX,
    ensures
        (width == 0 || height == 0) ==> v@.len() == 0,
        (width > 0 && height > 0) ==> v@.len() == 6 && forall|k: int|
            0 <= k < 6 ==> #[trigger] v@[k] as int == hex_neighbor(cell, width, height, k),
        (width > 0 && height > 0 && cell < width * height) ==> forall|k: int|
            0 <= k < 6 ==> #[trigger] v@[k] < width * height,
{
    if width == 0 || height == 0 {
        return Vec::new();
    }
    let q = (cell % width) as u64;
    let r: u64 = if cell / width <= 0x7fff_ffff {
        (cell / width) as u64
    } else {
        0
    };
    let w = width as u64;
    let h = height as u64;
    // Offsets are stored shifted by one: (dq + 1, dr + 1).
    let offsets: [(u64, u64); 6] = [(2, 1), (2, 0), (1, 0), (0, 1), (0, 2), (1, 2)];
    let mut out: Vec<u32> = Vec::new();
    let mut k: usize = 0;
    while k < 6
        invariant
            k <= 6,
            out@.len() == k,
            width > 0,
            height > 0,
            width * height <= 0x1_0000_0000,
            q == cell % width,
            r == axial_row(cell, width),
            w == width,
            h == height,
            r < i32::MAX,
            offsets@ == seq![(2u64, 1u64), (2u64, 0u64), (1u64, 0u64), (0u64, 1u64), (0u64, 2u64), (1u64, 2u64)],
            forall|i: int| 0 <= i < k ==> #[trigger] out@[i] as int == hex_neighbor(cell, width, height, i),
        decreases 6 - k,
    {
        let (dq, dr) = offsets[k];
        let nq = wrap_step(q, dq, w);
        let nr = wrap_step(r, dr, h);
        proof {
            assert(nr < h && nq < w);
            assert(nr * w + nq < w * h) by (nonlinear_arith)
                requires nr < h, nq < w;
            assert(w * h == width * height);
        }
        let nc = (nr * w + nq) as u32;
        out.push(nc);
        k += 1;
    }
    proof {
        if cell < width * height {
            assert forall|k: int| 0 <= k < 6 implies #[trigger] out@[k] < width * height by {
                lemma_hex_neighbors_symmetric(cell, width, height, k);
            }
        }
    }
    out
}


/// Flattening a cell's wrapped coordinates and reading them back.
proof fn lemma_cell_coords(row: int, col: int, width: int)
    requires
        0 <= row,
        0 <= col < width,
    ensures
        (row * width + col) / width == row,
        (row * width + col) % width == col,
{
    vstd::arithmetic::div_mod::lemma_fundamental_div_mod_converse(row * width + col, width, row, col);
}

/// Offsetting by `d` and then by `-d`, each wrapped into `0..n`, returns
/// a value already in `0..n`.
proof fn lemma_wrap_back(v: int, d: int, n: int)
    requires
        n > 0,
        0 <= v < n,
    ensures
        (((v + d) % n) - d) % n == v,
{
    vstd::arithmetic::div_mod::lemma_add_mod_noop(v + d, -d, n);
    vstd::arithmetic::div_mod::lemma_mod_twice(v + d, n);
    vstd::arithmetic::div_mod::lemma_add_mod_noop((v + d) % n, -d, n);
    vstd::arithmetic::div_mod::lemma_small_mod(v as nat, n as nat);
}

/// On a non-empty grid, each of a cell's six neighbours is a cell of the
/// grid, and the relation is symmetric: the cell is the opposite
/// neighbour (offset `k + 3`) of its `k`-th neighbour.
pub proof fn lemma_hex_neighbors_symmetric(cell: u32, width: u32, height: u32, k: int)
    requires
        0 < width <= i32::MAX,
        0 < height <= i32::MAX,
        width * height <= 0x1_0000_0000,
        cell < width * height,
        0 <= k < 6,
    ensures
        0 <= hex_neighbor(cell, width, height, k) < width * height,
        hex_neighbor(hex_neighbor(cell, width, height, k) as u32, width, height, (k + 3) % 6) == cell,
{
    let w = width as int;
    let h = height as int;
    let q = (cell % width) as int;
    let r = (cell / width) as int;
    vstd::arithmetic::div_mod::lemma_fundamental_div_mod(cell as int, w);
    assert(r < h) by {
        vstd::arithmetic::div_mod::lemma_div_by_multiple_is_strongly_ordered(cell as int, w * h, h, w);
        assert(w * h == h * w) by (nonlinear_arith);
        vstd::arithmetic::div_mod::lemma_div_multiples_vanish(h, w);
    }
    assert(axial_row(cell, width) == r);
    let d = hex_offsets()[k];
    let e = hex_offsets()[(k + 3) % 6];
    assert(e.0 == -d.0 && e.1 == -d.1);
    let nr = (r + d.1) % h;
    let nq = (q + d.0) % w;
    let n = nr * w + nq;
    assert(0 <= nr < h && 0 <= nq < w);
    assert(n == hex_neighbor(cell, width, height, k));
    assert(0 <= n < w * h) by (nonlinear_arith)
        requires 0 <= nr < h, 0 <= nq < w, n == nr * w + nq;
    lemma_cell_coords(nr, nq, w);
    let nu = n as u32;
    assert(nu % width == nq);
    assert(nu / width == nr);
    assert(axial_row(nu, width) == nr);
    lemma_wrap_back(r, d.1, h);
    lemma_wrap_back(q, d.0, w);
    assert(hex_neighbor(nu, width, height, (k + 3) % 6) == r * w + q);
    assert(cell == w * r + q);
    assert(r * w == w * r) by (nonlinear_arith);
}

} // verus!
