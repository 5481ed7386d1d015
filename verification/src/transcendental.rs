//! Deterministic transcendentals over `Real` (Q32.32). Every operation
//! works on the underlying bit pattern; the same inputs give the same
//! output bits on every platform.
//!
//! - `sqrt`: Newton–Raphson on the bit pattern, seeded from the highest
//!   set bit.
//! - `ln`: range reduction to `[1, 2)` by shifts, then the series
//!   `2(v + v³/3 + v⁵/5 + …)` with `v = (m-1)/(m+1)`.
//! - `exp`: `x = k·ln2 + r`, Taylor series in `r`, then `2^k` by shift.
//! - `pow(a, b) = exp(b·ln(a))`.
//! - `sin` / `cos`: reduction to `[-π, π]`, reflection to `[-π/2, π/2]`,
//!   Taylor series; `cos(x) = sin(x + π/2)`.

use crate::arith::{div_bits, div_ok, fits, int_bits, mul_bits, mul_ok, round_even_int, scale, trunc_div, Real};
use vstd::arithmetic::power2::*;
use vstd::prelude::*;

verus! {

/// `ln 2` in Q32.32: `round(0.6931471805599453 · 2^32)`.
pub const LN_2_BITS: i64 = 2_977_044_472;

/// `1 / ln 2` in Q32.32: `round(1.4426950408889634 · 2^32)`.
pub const INV_LN_2_BITS: i64 = 6_196_328_019;

/// `π` in Q32.32: `round(3.141592653589793 · 2^32)`.
pub const PI_BITS: i64 = 13_493_037_705;

/// `2π` in Q32.32.
pub const TWO_PI_BITS: i64 = 26_986_075_409;

/// `π/2` in Q32.32.
pub const HALF_PI_BITS: i64 = 6_746_518_852;

/// Absolute value of an integer.
pub open spec fn abs_int(v: int) -> int {
    if v < 0 {
        -v
    } else {
        v
    }
}

/// Position of the highest set bit of a positive integer.
pub open spec fn floor_log2(x: int) -> nat
    decreases x,
{
    if x <= 1 {
        0
    } else {
        1 + floor_log2(x / 2)
    }
}

/// `floor_log2` is the unique `h` with `2^h ≤ x < 2^(h+1)`.
proof fn lemma_floor_log2_unique(x: int, h: nat)
    requires
        pow2(h) <= x < pow2(h + 1),
    ensures
        floor_log2(x) == h,
    decreases h,
{
    lemma_pow2_unfold(h + 1);
    if h == 0 {
        lemma2_to64();
    } else {
        lemma_pow2_unfold(h);
        lemma_pow2_pos((h - 1) as nat);
        assert(pow2((h - 1) as nat) <= x / 2 < pow2(h));
        lemma_floor_log2_unique(x / 2, (h - 1) as nat);
    }
}

/// Facts about the fixed-point product: within one unit of `a·b/2^32`,
/// and exactly its floor (non-negative) for non-negative operands.
pub proof fn lemma_mul_bits_bound(a: int, b: int)
    ensures
        scale() * abs_int(mul_bits(a, b)) <= abs_int(a) * abs_int(b) + scale(),
        a >= 0 && b >= 0 ==> mul_bits(a, b) >= 0 && scale() * mul_bits(a, b) <= a * b,
{
    let s = scale();
    let p = a * b;
    vstd::arithmetic::div_mod::lemma_fundamental_div_mod(p, s);
    vstd::arithmetic::div_mod::lemma_mod_bound(p, s);
    let q = p / s;
    assert(s * q <= p < s * q + s);
    assert(abs_int(p) == abs_int(a) * abs_int(b)) by (nonlinear_arith)
        requires p == a * b;
    if a >= 0 && b >= 0 {
        assert(p >= 0) by (nonlinear_arith) requires p == a * b, a >= 0, b >= 0;
        vstd::arithmetic::div_mod::lemma_div_pos_is_pos(p, s);
    }
}

/// Dividing by the fixed-point integer `n ≥ 1` shrinks the magnitude by
/// at least the factor `n` and keeps the sign.
pub proof fn lemma_div_int_bound(a: int, n: int)
    requires
        n >= 1,
    ensures
        abs_int(div_bits(a, int_bits(n))) * n <= abs_int(a),
        a >= 0 ==> div_bits(a, int_bits(n)) == a / n,
        a >= 0 ==> div_bits(a, int_bits(n)) >= 0,
        a <= 0 ==> div_bits(a, int_bits(n)) <= 0,
        fits(a) ==> div_ok(a, int_bits(n)),
{
    let s = scale();
    let m = abs_int(a);
    assert(m * s >= 0) by (nonlinear_arith) requires m >= 0, s == 4294967296;
    assert(n * s > 0) by (nonlinear_arith) requires n >= 1, s == 4294967296;
    vstd::arithmetic::div_mod::lemma_div_denominator(m * s, s, n);
    vstd::arithmetic::div_mod::lemma_div_by_multiple(m, s);
    assert(s * n == n * s) by (nonlinear_arith);
    assert((m * s) / (n * s) == m / n);
    vstd::arithmetic::div_mod::lemma_fundamental_div_mod(m, n);
    vstd::arithmetic::div_mod::lemma_mod_bound(m, n);
    vstd::arithmetic::div_mod::lemma_div_pos_is_pos(m, n);
    assert((m / n) * n <= m) by (nonlinear_arith)
        requires m == n * (m / n) + m % n, 0 <= m % n;
    if a >= 0 {
        assert(a * s == m * s);
    } else {
        assert(-(a * s) == m * s) by (nonlinear_arith) requires m == -a;
        assert(a * s < 0) by (nonlinear_arith) requires a < 0, s == 4294967296;
    }
    assert(int_bits(n) == n * s);
    if fits(a) {
        assert(m / n <= m) by (nonlinear_arith)
            requires (m / n) * n <= m, n >= 1, m / n >= 0;
    }
}

/// `pow2(e) ≥ 2^63` for every `e ≥ 63`.
proof fn lemma_pow2_at_least_63(e: nat)
    requires
        e >= 63,
    ensures
        pow2(e) >= 0x8000_0000_0000_0000,
{
    lemma2_to64_rest();
    if e > 63 {
        lemma_pow2_strictly_increases(63, e);
    }
}

/// Position of the highest set bit of a positive `i64`: the `h` with
/// `2^h ≤ bits < 2^(h+1)`.
pub fn highest_set_bit(bits: i64) -> (h: u32)
    requires
        bits > 0,
    ensures
        h <= 62,
        pow2(h as nat) <= bits < pow2(h as nat + 1),
        h == floor_log2(bits as int),
{
    let mut v: i64 = bits;
    let mut h: u32 = 0;
    proof {
        lemma2_to64();
    }
    while v > 1
        invariant
            1 <= v <= bits,
            h <= 62,
            pow2(h as nat) * v <= bits < pow2(h as nat) * (v + 1),
        decreases v,
    {
        let ghost p = pow2(h as nat) as int;
        proof {
            lemma_pow2_unfold(h as nat + 1);
            let v2 = v / 2;
            assert(2 * p * v2 <= p * v) by (nonlinear_arith)
                requires v2 == v / 2, p >= 0, v >= 2;
            assert(p * (v + 1) <= 2 * p * (v2 + 1)) by (nonlinear_arith)
                requires v2 == v / 2, p >= 0, v >= 2;
            assert(2 * p * 1 <= 2 * p * v2) by (nonlinear_arith)
                requires v2 == v / 2, p >= 0, v >= 2;
            if h as nat + 1 >= 63 {
                lemma_pow2_at_least_63(h as nat + 1);
            }
        }
        v = v / 2;
        h = h + 1;
    }
    proof {
        lemma_pow2_unfold(h as nat + 1);
        assert(v == 1);
        assert(pow2(h as nat) * v == pow2(h as nat));
        assert(pow2(h as nat) * (v + 1) == pow2(h as nat + 1));
        lemma_floor_log2_unique(bits as int, h as nat);
    }
    h
}

/// `r` is the integer square root of `s`.
pub open spec fn is_isqrt(s: int, r: int) -> bool {
    0 <= r && r * r <= s && s < (r + 1) * (r + 1)
}

/// The bit pattern returned by `sqrt` for a positive argument whose
/// scaled square is `s`: the integer square root of `s`, or one more
/// than it when `s + 1` is that next perfect square.
pub open spec fn sqrt_result(s: int, y: int) -> bool {
    is_isqrt(s, y) || (is_isqrt(s, y - 1) && s + 1 == y * y)
}

/// One Newton step on the bit pattern: `⌊(y + ⌊s/y⌋)/2⌋`.
pub open spec fn newton_step(s: int, y: int) -> int {
    (y + s / y) / 2
}

/// Every non-negative integer has an integer square root.
proof fn lemma_isqrt_exists(s: int)
    requires
        s >= 0,
    ensures
        exists|r: int| #[trigger] is_isqrt(s, r),
    decreases s,
{
    if s == 0 {
        assert(is_isqrt(0, 0));
    } else {
        lemma_isqrt_exists(s - 1);
        let r = choose|r: int| #[trigger] is_isqrt(s - 1, r);
        if (r + 1) * (r + 1) <= s {
            assert(s < (r + 2) * (r + 2)) by (nonlinear_arith)
                requires s - 1 < (r + 1) * (r + 1), r >= 0;
            assert(is_isqrt(s, r + 1));
        } else {
            assert(is_isqrt(s, r));
        }
    }
}

/// Facts about `q = ⌊s/y⌋` used by every step lemma.
pub proof fn lemma_quotient(s: int, y: int)
    requires
        s >= 0,
        y >= 1,
    ensures
        (s / y) * y <= s < (s / y + 1) * y,
        s / y >= 0,
{
    vstd::arithmetic::div_mod::lemma_fundamental_div_mod(s, y);
    vstd::arithmetic::div_mod::lemma_div_pos_is_pos(s, y);
    let q = s / y;
    let m = s % y;
    assert(0 <= m < y) by {
        vstd::arithmetic::div_mod::lemma_mod_bound(s, y);
    }
    assert(q * y <= s < (q + 1) * y) by (nonlinear_arith)
        requires s == y * q + m, 0 <= m < y;
}

/// A Newton step from any positive guess never lands below the
/// integer square root.
proof fn lemma_step_not_below(s: int, y: int, r: int)
    requires
        is_isqrt(s, r),
        y >= 1,
    ensures
        newton_step(s, y) >= r,
{
    lemma_quotient(s, y);
    let q = s / y;
    let t = newton_step(s, y);
    assert(2 * t >= y + q - 1);
    if t < r {
        assert(4 * r * r <= 4 * s) by (nonlinear_arith) requires r * r <= s;
        assert(4 * s < 4 * y * (q + 1)) by (nonlinear_arith)
            requires s < (q + 1) * y;
        assert(4 * y * (q + 1) <= (y + q + 1) * (y + q + 1)) by (nonlinear_arith);
        assert((y + q + 1) <= 2 * r) by (nonlinear_arith)
            requires 2 * t >= y + q - 1, t <= r - 1;
        assert((y + q + 1) * (y + q + 1) <= 4 * r * r) by (nonlinear_arith)
            requires 0 <= y + q + 1 <= 2 * r;
        assert(false);
    }
}

/// From at least two above the root, a step strictly descends.
proof fn lemma_step_descends(s: int, y: int, r: int)
    requires
        is_isqrt(s, r),
        y >= r + 2,
    ensures
        newton_step(s, y) <= y - 1,
{
    lemma_quotient(s, y);
    let q = s / y;
    assert((r + 1) * (r + 1) <= (y - 1) * (y - 1)) by (nonlinear_arith)
        requires 0 <= r + 1 <= y - 1;
    if q >= y - 1 {
        assert(q * y >= (y - 1) * y) by (nonlinear_arith) requires q >= y - 1, y >= 1;
        assert((y - 1) * y >= (y - 1) * (y - 1)) by (nonlinear_arith) requires y >= 1;
        assert(false);
    }
}

/// From one above the root, a step lands exactly on the root.
proof fn lemma_step_from_above(s: int, r: int)
    requires
        is_isqrt(s, r),
        r >= 1,
    ensures
        newton_step(s, r + 1) == r,
{
    let y = r + 1;
    lemma_quotient(s, y);
    let q = s / y;
    if q >= y {
        assert(q * y >= y * y) by (nonlinear_arith) requires q >= y, y >= 1;
        assert(false);
    }
    lemma_step_not_below(s, y, r);
}

/// From the root itself, a step stays on the root or moves one up, and
/// moves up only when `s + 1` is the next perfect square.
proof fn lemma_step_from_root(s: int, r: int)
    requires
        is_isqrt(s, r),
        r >= 1,
    ensures
        r <= newton_step(s, r) <= r + 1,
        newton_step(s, r) == r + 1 ==> s + 1 == (r + 1) * (r + 1),
        s / r <= r + 2,
{
    lemma_quotient(s, r);
    let q = s / r;
    if q >= r + 3 {
        assert(q * r >= (r + 3) * r) by (nonlinear_arith) requires q >= r + 3, r >= 1;
        assert((r + 3) * r >= (r + 1) * (r + 1)) by (nonlinear_arith) requires r >= 1;
        assert(false);
    }
    lemma_step_not_below(s, r, r);
    if newton_step(s, r) == r + 1 {
        assert(q >= r + 2);
        assert(q * r >= (r + 2) * r) by (nonlinear_arith) requires q >= r + 2, r >= 1;
        assert((r + 2) * r == (r + 1) * (r + 1) - 1) by (nonlinear_arith);
    }
}

/// Quadratic contraction above the root: with `R = r + 1` and `y ≥ R`,
/// `2·y·(step − R) < (y − R)²`.
proof fn lemma_step_contracts(s: int, y: int, r: int)
    requires
        is_isqrt(s, r),
        y >= r + 1,
    ensures
        2 * y * (newton_step(s, y) - (r + 1)) < (y - (r + 1)) * (y - (r + 1)),
{
    lemma_quotient(s, y);
    let q = s / y;
    let t = newton_step(s, y);
    let rr = r + 1;
    assert(2 * t <= y + q);
    assert(2 * t * y <= y * y + q * y) by (nonlinear_arith)
        requires 2 * t <= y + q, y >= 1;
    assert(2 * y * (t - rr) < (y - rr) * (y - rr)) by (nonlinear_arith)
        requires 2 * t * y <= y * y + q * y, q * y <= s, s < rr * rr;
}

/// Turning `2·y·e' < e²` (with `y ≥ R`) and `k·e < c·R` into
/// `2·k²·e' < c²·R`.
proof fn lemma_square_bound(e: int, e2: int, y: int, rr: int, k: int, c: int)
    requires
        0 <= e,
        0 <= e2,
        rr >= 1,
        y >= rr,
        k >= 1,
        c >= 1,
        k * e < c * rr,
        2 * y * e2 < e * e,
    ensures
        2 * k * k * e2 < c * c * rr,
{
    assert(2 * rr * e2 <= 2 * y * e2) by (nonlinear_arith) requires y >= rr, e2 >= 0;
    assert(k * e * (k * e) < c * rr * (c * rr)) by (nonlinear_arith)
        requires 0 <= k * e < c * rr;
    assert(2 * rr * (k * k * e2) < rr * (c * c * rr)) by (nonlinear_arith)
        requires 2 * rr * e2 < e * e, k * e * (k * e) < c * rr * (c * rr), k >= 1;
    assert(k * k * e2 * 2 < c * c * rr) by (nonlinear_arith)
        requires 2 * rr * (k * k * e2) < rr * (c * c * rr), rr >= 1;
    assert(2 * k * k * e2 < c * c * rr) by (nonlinear_arith)
        requires k * k * e2 * 2 < c * c * rr;
}

/// Every phase bound past the first keeps the guess within `5/2` of
/// the root.
proof fn lemma_phase_weak(i: int, e: int, rr: int)
    requires
        i >= 1,
        rr >= 1,
        phase_bound(i, e, rr),
    ensures
        2 * e < 3 * rr,
{
}

/// Distance-to-root bound after `i` Newton steps (`e = y − (r+1)`,
/// `rr = r + 1`).
pub open spec fn phase_bound(i: int, e: int, rr: int) -> bool {
    if i <= 0 {
        true
    } else if i == 1 {
        2 * e < 3 * rr
    } else if i == 2 {
        8 * e < 9 * rr
    } else if i == 3 {
        e < rr
    } else if i == 4 {
        2 * e < rr
    } else if i == 5 {
        8 * e < rr
    } else if i == 6 {
        128 * e < rr
    } else if i == 7 {
        32768 * e < rr
    } else if i == 8 {
        2147483648 * e < rr
    } else {
        e <= 0
    }
}

/// One more Newton step tightens the phase bound.
proof fn lemma_phase_advance(s: int, y: int, r: int, i: int)
    requires
        is_isqrt(s, r),
        r >= 1,
        r + 1 < 0x8000_0000_0000_0000,
        i >= 1,
        y >= r,
        phase_bound(i, y - (r + 1), r + 1),
    ensures
        phase_bound(i + 1, newton_step(s, y) - (r + 1), r + 1),
        newton_step(s, y) >= r,
{
    let rr = r + 1;
    let e = y - rr;
    let t = newton_step(s, y);
    let e2 = t - rr;
    lemma_step_not_below(s, y, r);
    if y <= rr {
        if y == r {
            lemma_step_from_root(s, r);
        } else {
            lemma_step_from_above(s, r);
        }
        assert(e2 <= 0);
        assert(phase_bound(i + 1, e2, rr));
    } else if e2 <= 0 {
        assert(phase_bound(i + 1, e2, rr));
    } else {
        lemma_step_contracts(s, y, r);
        if i == 1 {
            lemma_square_bound(e, e2, y, rr, 2, 3);
        } else if i == 2 {
            lemma_square_bound(e, e2, y, rr, 8, 9);
            assert(128 * e2 < 81 * rr);
            assert(e2 < rr);
        } else if i == 3 {
            lemma_square_bound(e, e2, y, rr, 1, 1);
        } else if i == 4 {
            lemma_square_bound(e, e2, y, rr, 2, 1);
        } else if i == 5 {
            lemma_square_bound(e, e2, y, rr, 8, 1);
        } else if i == 6 {
            lemma_square_bound(e, e2, y, rr, 128, 1);
        } else if i == 7 {
            lemma_square_bound(e, e2, y, rr, 32768, 1);
        } else if i == 8 {
            lemma_square_bound(e, e2, y, rr, 2147483648, 1);
            assert(0x8000_0000_0000_0000 * e2 < rr);
            assert(e2 <= 0);
        } else {
            assert(false);
        }
    }
}

/// Halving through the fixed-point divide by two.
proof fn lemma_half_bits(a: int)
    requires
        a >= 0,
    ensures
        div_bits(a, 2 * scale()) == a / 2,
{
    let s = scale();
    assert(a * s >= 0) by (nonlinear_arith) requires a >= 0, s == 4294967296;
    vstd::arithmetic::div_mod::lemma_div_denominator(a * s, s, 2);
    vstd::arithmetic::div_mod::lemma_div_by_multiple(a, s);
    assert(s * 2 == 2 * s);
}

/// Deterministic square root. The original panics on a negative
/// argument; that input is excluded.
///
/// The result is the integer square root of the scaled square
/// `x·2^32` (so `sqrt(x)` truncated to Q32.32), or one bit more when
/// `x·2^32 + 1` is a perfect square.
pub fn sqrt(x: Real) -> (r: Real)
    requires
        x@ >= 0,
    ensures
        x@ == 0 ==> r@ == 0,
        x@ > 0 ==> sqrt_result(x@ * scale(), r@),
{
    let bits = x.to_bits();
    if bits == 0 {
        return Real::zero();
    }
    let h = highest_set_bit(bits);
    let g: u32 = (h + 32) / 2;
    let ghost s: int = x@ * scale();
    proof {
        lemma_isqrt_exists(s);
    }
    let ghost r: int = choose|r: int| #[trigger] is_isqrt(s, r);
    let ghost gg: nat = g as nat;
    proof {
        lemma2_to64();
        lemma_pow2_adds(h as nat, 32);
        lemma_pow2_adds(h as nat + 1, 32);
        lemma_pow2_adds(gg, gg);
        lemma_pow2_adds(gg + gg, 2);
        assert(pow2(32) == scale());
        assert(pow2(2) == 4);
        // y0² = 2^(2g) ≤ 2^(h+32) ≤ s and s < 2^(h+33) ≤ 2^(2g+2) = 4·y0².
        if gg + gg < h as nat + 32 {
            lemma_pow2_strictly_increases(gg + gg, h as nat + 32);
        }
        if gg + gg + 2 > h as nat + 33 {
            lemma_pow2_strictly_increases(h as nat + 33, gg + gg + 2);
        }
        assert(pow2(h as nat) * pow2(32) <= x@ * pow2(32)) by (nonlinear_arith)
            requires pow2(h as nat) <= x@;
        assert(x@ * pow2(32) < pow2(h as nat + 1) * pow2(32)) by (nonlinear_arith)
            requires x@ < pow2(h as nat + 1), pow2(32) > 0;
        if gg < 47 {
            lemma_pow2_strictly_increases(gg, 47);
        }
        if gg > 16 {
            lemma_pow2_strictly_increases(16, gg);
        }
    }
    proof {
        lemma2_to64_rest();
        lemma_pow2_strictly_increases(gg, 64);
        if gg < 47 {
            lemma_pow2_strictly_increases(gg, 47);
        }
        vstd::bits::lemma_u64_shl_is_mul(1u64, g as u64);
    }
    let y0: i64 = (1u64 << (g as u64)) as i64;
    let ghost y0b: int = y0 as int;
    proof {
        assert(y0b == pow2(gg));
        assert(y0b * y0b <= s < 4 * (y0b * y0b));
        assert(65536 <= y0b <= 0x8000_0000_0000);
        // Root bounds: 2^16 ≤ r < 2^48.
        if r < y0b {
            assert((r + 1) * (r + 1) <= y0b * y0b) by (nonlinear_arith)
                requires 0 <= r + 1 <= y0b;
            assert(false);
        }
        assert(s < 0x8000_0000_0000_0000 * 4294967296) by (nonlinear_arith)
            requires s == x@ * 4294967296, x@ < 0x8000_0000_0000_0000;
        if r >= 0x1_0000_0000_0000 {
            assert(r * r >= 0x1_0000_0000_0000 * 0x1_0000_0000_0000) by (nonlinear_arith)
                requires r >= 0x1_0000_0000_0000;
            assert(false);
        }
    }
    let two = Real::from_int(2);
    let mut y = Real::from_bits(y0);
    let mut prev = y;
    let mut i: u32 = 0;
    while i < 32
        invariant
            x@ == bits,
            s == x@ * scale(),
            x@ > 0,
            is_isqrt(s, r),
            65536 <= r < 0x1_0000_0000_0000,
            two@ == 2 * scale(),
            0 <= i <= 10,
            y0b * y0b <= s < 4 * (y0b * y0b),
            65536 <= y0b <= r,
            i == 0 ==> y@ == y0b && prev@ == y0b,
            i >= 1 ==> y@ == newton_step(s, prev@) && prev@ >= 1,
            i == 1 ==> prev@ == y0b,
            i >= 2 ==> prev@ >= r,
            i >= 1 ==> y@ >= r && phase_bound(i as int, y@ - (r + 1), r + 1),
            i >= 10 ==> prev@ <= r + 1,
        decreases 32 - i,
    {
        let ghost yb: int = y@;
        let ghost rr: int = r + 1;
        proof {
            // Bounds on y that keep every operation in range.
            if i == 0 {
                assert(yb <= r);
            } else {
                lemma_phase_weak(i as int, yb - rr, rr);
            }
            assert(yb >= 65536);
            lemma_quotient(s, yb);
            if i == 0 {
                assert(s / yb < 4 * yb) by (nonlinear_arith)
                    requires (s / yb) * yb <= s, s < 4 * (yb * yb), yb >= 1;
            } else {
                lemma_step_from_root(s, r);
                vstd::arithmetic::div_mod::lemma_div_is_ordered_by_denominator(s, r, yb);
            }
            assert(trunc_div(x@ * scale(), yb) == s / yb);
        }
        let q = x.div(y);
        let sum = y.add(q);
        proof {
            lemma_half_bits(sum@);
        }
        let next = sum.div(two);
        let ghost nb: int = next@;
        proof {
            assert(nb == newton_step(s, yb));
            lemma_step_not_below(s, yb, r);
            if i == 0 {
                // First step from a guess within a factor of two of the root.
                let q0 = s / yb;
                assert(q0 <= 4 * yb - 1);
                assert(2 * nb <= yb + q0);
                assert(2 * (nb - rr) < 3 * rr);
            } else {
                lemma_phase_advance(s, yb, r, i as int);
            }
        }
        if next == y || next == prev {
            proof {
                if next == y {
                    // A fixed point of the step sits on the root or one above;
                    // one above is impossible.
                    if nb >= r + 2 {
                        lemma_step_descends(s, nb, r);
                    }
                    if nb == r + 1 {
                        lemma_step_from_above(s, r);
                    }
                    assert(nb == r);
                } else if i == 0 {
                    assert(nb == r);
                } else {
                    let pb = prev@;
                    if pb >= r + 2 {
                        lemma_step_descends(s, pb, r);
                        if yb >= r + 2 {
                            lemma_step_descends(s, yb, r);
                        } else if yb == r + 1 {
                            lemma_step_from_above(s, r);
                        } else {
                            lemma_step_from_root(s, r);
                        }
                        assert(false);
                    }
                    if pb < r {
                        assert(false);
                    }
                    if pb == r + 1 {
                        lemma_step_from_above(s, r);
                        assert(yb == r);
                        lemma_step_from_root(s, r);
                    } else {
                        lemma_step_from_root(s, r);
                        if yb == r + 1 {
                            lemma_step_from_above(s, r);
                        }
                    }
                }
                if nb == r + 1 {
                    assert(s + 1 == (r + 1) * (r + 1)) by {
                        lemma_step_from_root(s, r);
                        if yb == r + 1 {
                            lemma_step_from_above(s, r);
                        }
                    }
                }
            }
            return next;
        }
        proof {
            if i >= 9 {
                // Both the current and the previous guess are on the root or
                // one above, so this iteration had to return.
                if i >= 10 {
                    assert(prev@ >= r && prev@ <= r + 1);
                    assert(yb >= r && yb <= r + 1);
                    if prev@ == r + 1 {
                        lemma_step_from_above(s, r);
                    } else {
                        lemma_step_from_root(s, r);
                    }
                    if yb == r + 1 {
                        lemma_step_from_above(s, r);
                    } else {
                        lemma_step_from_root(s, r);
                    }
                    assert(false);
                }
            }
        }
        prev = y;
        y = next;
        i = i + 1;
    }
    proof {
        assert(false);
    }
    y
}

} // verus!

verus! {

/// `ln 2` as a Q32.32 value.
fn ln_2() -> (r: Real)
    ensures
        r@ == LN_2_BITS,
{
    Real::from_bits(LN_2_BITS)
}

/// `1 / ln 2` as a Q32.32 value.
fn inv_ln_2() -> (r: Real)
    ensures
        r@ == INV_LN_2_BITS,
{
    Real::from_bits(INV_LN_2_BITS)
}

/// `π` in Q32.32, for callers doing angle arithmetic.
pub fn pi() -> (r: Real)
    ensures
        r@ == PI_BITS,
{
    Real::from_bits(PI_BITS)
}

/// `2π` in Q32.32, the period used by `sin` and `cos`.
pub fn two_pi() -> (r: Real)
    ensures
        r@ == TWO_PI_BITS,
{
    Real::from_bits(TWO_PI_BITS)
}

/// `π/2` in Q32.32.
pub fn half_pi() -> (r: Real)
    ensures
        r@ == HALF_PI_BITS,
{
    Real::from_bits(HALF_PI_BITS)
}

/// The mantissa of a positive bit pattern: shifted so that its highest
/// set bit lands on the binary point, i.e. into `[1, 2)`.
pub open spec fn ln_mantissa(x: int) -> int {
    let k = floor_log2(x) - 32;
    if k >= 0 {
        x / (pow2(k as nat) as int)
    } else {
        x * pow2((-k) as nat)
    }
}

/// The `(term, sum)` pair after `n` steps of the series
/// `v + v³/3 + v⁵/5 + …`, every operation in Q32.32.
pub open spec fn ln_series(v: int, v2: int, n: nat) -> (int, int)
    decreases n,
{
    if n == 0 {
        (v, v)
    } else {
        let prev = ln_series(v, v2, (n - 1) as nat);
        let term = mul_bits(prev.0, v2);
        (term, prev.1 + div_bits(term, int_bits(2 * n as int + 1)))
    }
}

/// Bit pattern of `ln(x)`: with `x = m · 2^k`, `m ∈ [1, 2)`, it is
/// `2·Σ v^(2i+1)/(2i+1)` over sixteen terms, `v = (m-1)/(m+1)`, plus
/// `k · ln 2`.
pub open spec fn ln_bits(x: int) -> int {
    let k = floor_log2(x) - 32;
    let m = ln_mantissa(x);
    let v = div_bits(m - scale(), m + scale());
    let sum = ln_series(v, mul_bits(v, v), 15).1;
    sum + sum + mul_bits(int_bits(k), LN_2_BITS as int)
}

/// The mantissa of a positive bit pattern lies in `[2^32, 2^33)`.
proof fn lemma_mantissa_range(x: int, h: nat)
    requires
        pow2(h) <= x < pow2(h + 1),
        h <= 62,
    ensures
        scale() <= ln_mantissa(x) < 2 * scale(),
{
    lemma_floor_log2_unique(x, h);
    lemma2_to64();
    lemma_pow2_unfold(h + 1);
    let s = scale();
    if h >= 32 {
        let k: nat = (h - 32) as nat;
        lemma_pow2_adds(32, k);
        lemma_pow2_pos(k);
        let p = pow2(k) as int;
        let m = x / p;
        lemma_quotient(x, p as int);
        assert(s * p <= x < 2 * s * p);
        if m < s {
            assert((m + 1) * p <= s * p) by (nonlinear_arith) requires m + 1 <= s, p > 0;
            assert(false);
        }
        if m >= 2 * s {
            assert(m * p >= 2 * s * p) by (nonlinear_arith) requires m >= 2 * s, p > 0;
            assert(false);
        }
        assert(floor_log2(x) - 32 == k);
        assert(ln_mantissa(x) == m);
    } else {
        let k: nat = (32 - h) as nat;
        lemma_pow2_adds(h, k);
        lemma_pow2_pos(k);
        let p = pow2(k);
        assert(pow2(h) * p <= x * p) by (nonlinear_arith) requires pow2(h) <= x, p > 0;
        assert(x * p < 2 * (pow2(h) * p)) by (nonlinear_arith)
            requires x < 2 * pow2(h), p > 0;
        assert(floor_log2(x) - 32 == -k);
        assert(ln_mantissa(x) == x * p);
        assert(pow2(h) * p == s);
    }
}

/// `v = (m-1)/(m+1)` for a mantissa `m ∈ [1, 2)` lies in `[0, 1/2)`.
proof fn lemma_ln_ratio(m: int)
    requires
        scale() <= m < 2 * scale(),
    ensures
        div_ok(m - scale(), m + scale()),
        0 <= div_bits(m - scale(), m + scale()) < 2147483648,
{
    let s = scale();
    let a = m - s;
    let b = m + s;
    let p = a * s;
    assert(0 <= p < s * s) by (nonlinear_arith) requires 0 <= a < s, p == a * s, s > 0;
    lemma_quotient(p, b);
    let v = p / b;
    assert(v * b <= p);
    assert(v < 2147483648) by (nonlinear_arith)
        requires v * b <= p, p < s * s, b >= 2 * s, s == 4294967296, v >= 0;
}

/// `k · ln 2` through the fixed-point product is exact.
proof fn lemma_int_times_const(k: int, c: int)
    requires
        fits(k * c),
    ensures
        mul_ok(int_bits(k), c),
        mul_bits(int_bits(k), c) == k * c,
{
    let s = scale();
    assert(int_bits(k) * c == s * (k * c)) by (nonlinear_arith) requires s == 4294967296;
    vstd::arithmetic::div_mod::lemma_div_multiples_vanish(k * c, s);
}

/// Natural logarithm. The original panics on a non-positive argument;
/// that input is excluded.
pub fn ln(x: Real) -> (r: Real)
    requires
        x@ > 0,
    ensures
        r@ == ln_bits(x@),
        x@ >= scale() ==> r@ >= 0,
        x@ >= 2 * scale() ==> r@ >= LN_2_BITS,
        r@ < 0x40_0000_0000,
{
    let bits = x.to_bits();
    let h = highest_set_bit(bits);
    proof {
        lemma_mantissa_range(bits as int, h as nat);
        lemma2_to64();
        lemma2_to64_rest();
    }
    let ub: u64 = bits as u64;
    let m_bits: i64;
    if h >= 32 {
        let sh: u64 = (h - 32) as u64;
        proof {
            vstd::bits::lemma_u64_shr_is_div(ub, sh);
        }
        m_bits = (ub >> sh) as i64;
    } else {
        let sh: u64 = (32 - h) as u64;
        proof {
            lemma_pow2_adds(h as nat + 1, sh as nat);
            assert(h as nat + 1 + sh as nat == 33);
            assert(ub * pow2(sh as nat) < pow2(33)) by (nonlinear_arith)
                requires ub < pow2(h as nat + 1), pow2(h as nat + 1) * pow2(sh as nat) == pow2(33),
                    pow2(sh as nat) > 0;
            vstd::bits::lemma_u64_shl_is_mul(ub, sh);
        }
        m_bits = (ub << sh) as i64;
    }
    proof {
        lemma_ln_ratio(m_bits as int);
    }
    let m = Real::from_bits(m_bits);
    let one = Real::one();
    let v = m.sub(one).div(m.add(one));
    proof {
        lemma_mul_bits_bound(v@, v@);
        assert(v@ * v@ < 2147483648 * 2147483648) by (nonlinear_arith)
            requires 0 <= v@ < 2147483648;
    }
    let v2 = v.mul(v);
    let mut term = v;
    let mut sum = v;
    let mut n: i64 = 1;
    while n <= 15
        invariant
            1 <= n <= 16,
            0 <= v@ < 2147483648,
            0 <= v2@ < 1073741824,
            v2@ == mul_bits(v@, v@),
            ln_series(v@, v2@, (n - 1) as nat) == (term@, sum@),
            0 <= term@ <= v@,
            0 <= sum@ <= n * 2147483648,
        decreases 16 - n,
    {
        let ghost t0: int = term@;
        proof {
            lemma_mul_bits_bound(term@, v2@);
            assert(0 <= term@ * v2@ <= 2147483648 * 1073741824) by (nonlinear_arith)
                requires 0 <= term@ <= 2147483648, 0 <= v2@ < 1073741824;
            assert(term@ * v2@ <= term@ * scale()) by (nonlinear_arith)
                requires 0 <= term@, 0 <= v2@ < 1073741824;
        }
        term = term.mul(v2);
        proof {
            assert(term@ <= v@) by (nonlinear_arith)
                requires scale() * term@ <= t0 * v2@, t0 * v2@ <= t0 * scale(),
                    t0 <= v@, scale() > 0;
            lemma_div_int_bound(term@, 2 * n + 1);
        }
        let denom = Real::from_int(2 * n + 1);
        sum = sum.add(term.div(denom));
        n = n + 1;
    }
    let ln_m = sum.add(sum);
    let kk: i64 = h as i64 - 32;
    proof {
        assert(-32 * LN_2_BITS <= kk * LN_2_BITS <= 30 * LN_2_BITS) by (nonlinear_arith)
            requires -32 <= kk <= 30;
        lemma_int_times_const(kk as int, LN_2_BITS as int);
    }
    let t = Real::from_int(kk).mul(ln_2());
    proof {
        assert(-32 * LN_2_BITS <= kk * LN_2_BITS <= 30 * LN_2_BITS) by (nonlinear_arith)
            requires -32 <= kk <= 30;
        assert(h >= 32 ==> kk * LN_2_BITS >= 0) by (nonlinear_arith)
            requires kk == h - 32;
        if x@ >= 2 * scale() && h < 32 {
            vstd::arithmetic::power2::lemma_pow2_strictly_increases(h as nat + 1, 33);
        }
        assert(h >= 33 ==> kk * LN_2_BITS >= LN_2_BITS) by (nonlinear_arith)
            requires kk == h - 32;
    }
    ln_m.add(t)
}

/// `ln(1) = 0`.
pub proof fn lemma_ln_one()
    ensures
        ln_bits(scale()) == 0,
{
    lemma2_to64();
    lemma_pow2_unfold(33);
    lemma_floor_log2_unique(scale(), 32);
    assert(floor_log2(scale()) == 32);
    assert(pow2(0) == 1);
    assert(scale() / 1 == scale());
    assert(ln_mantissa(scale()) == scale());
    assert(div_bits(0, 2 * scale()) == 0);
    assert(mul_bits(0, 0) == 0);
    lemma_ln_series_zero(15);
    assert(mul_bits(int_bits(0), LN_2_BITS as int) == 0);
}

/// The series vanishes on `v = 0`.
proof fn lemma_ln_series_zero(n: nat)
    ensures
        ln_series(0, 0, n) == (0int, 0int),
    decreases n,
{
    if n > 0 {
        lemma_ln_series_zero((n - 1) as nat);
        assert(mul_bits(0, 0) == 0);
        assert(trunc_div(0, int_bits(2 * n as int + 1)) == 0);
    }
}

} // verus!

verus! {

/// The integer `k` nearest to `x / ln 2` that `exp` reduces by.
pub open spec fn exp_k(x: int) -> int {
    round_even_int(mul_bits(x, INV_LN_2_BITS as int))
}

/// The arguments on which `exp` returns: the reduction's product does
/// not overflow, `k` fits the integer bits, and the result does not
/// overflow (`k ≤ 30`).
pub open spec fn exp_ok(x: int) -> bool {
    &&& mul_ok(x, INV_LN_2_BITS as int)
    &&& -0x8000_0000 <= exp_k(x) <= 30
}

/// The `(term, sum)` pair after `n` steps of the Taylor series of
/// `exp(r)`, every operation in Q32.32.
pub open spec fn exp_series(r: int, n: nat) -> (int, int)
    decreases n,
{
    if n == 0 {
        (scale(), scale())
    } else {
        let prev = exp_series(r, (n - 1) as nat);
        let term = div_bits(mul_bits(prev.0, r), int_bits(n as int));
        (term, prev.1 + term)
    }
}

/// Bit pattern of `exp(x)`: `x = k·ln 2 + r`, sixteen Taylor terms of
/// `exp(r)`, then a shift by `k` (zero below `2^-63`).
pub open spec fn exp_bits(x: int) -> int {
    let k = exp_k(x);
    let r = x - k * LN_2_BITS;
    let sum = exp_series(r, 15).1;
    if k < -63 {
        0
    } else if k >= 0 {
        sum * pow2(k as nat)
    } else {
        sum / (pow2((-k) as nat) as int)
    }
}

/// Rounding to the nearest integer moves a value by at most one half.
proof fn lemma_round_even_close(q: int)
    ensures
        abs_int(q - round_even_int(q) * scale()) <= 2147483648,
{
    let s = scale();
    vstd::arithmetic::div_mod::lemma_fundamental_div_mod(q, s);
    vstd::arithmetic::div_mod::lemma_mod_bound(q, s);
    assert(q == s * (q / s) + q % s);
}

/// `exp` accepts every argument in `[-2^29, 0]` (in value).
pub proof fn lemma_exp_ok_nonpos(x: int)
    requires
        -0x2000_0000_0000_0000 <= x <= 0,
    ensures
        exp_ok(x),
{
    let c = INV_LN_2_BITS as int;
    let s = scale();
    assert(-0x2000_0000_0000_0000 * c <= x * c <= 0) by (nonlinear_arith)
        requires -0x2000_0000_0000_0000 <= x <= 0, c == 6_196_328_019;
    let q = mul_bits(x, c);
    vstd::arithmetic::div_mod::lemma_div_is_ordered(-0x2000_0000_0000_0000 * c, x * c, s);
    vstd::arithmetic::div_mod::lemma_div_is_ordered(x * c, 0, s);
    assert(-0x2000_0000_0000_0000 * c / s >= -0x2000_0000_0000_0000 * 2);
    lemma_round_even_close(q);
    let k = round_even_int(q);
    assert(-0x2000_0000_0000_0000 * 2 <= q <= 0);
    assert(k * s <= q + 2147483648);
    assert(k * s >= q - 2147483648);
    assert(k <= 0) by (nonlinear_arith) requires k * 4294967296 <= 2147483648;
    assert(k >= -0x8000_0000) by (nonlinear_arith)
        requires k * 4294967296 >= -0x2000_0000_0000_0000 * 2 - 2147483648;
}

/// The reduced argument `r = x − k·ln 2` of `exp`: within `0.51` of zero
/// on every accepted argument, and within `0.35` once `|k| ≤ 63`.
proof fn lemma_exp_reduction(x: int, k: int)
    requires
        exp_ok(x),
        k == exp_k(x),
    ensures
        abs_int(x - k * LN_2_BITS) <= 2_200_000_000,
        -63 <= k ==> abs_int(x - k * LN_2_BITS) <= 1_500_000_000,
{
    let s = scale();
    let inv = INV_LN_2_BITS as int;
    let l = LN_2_BITS as int;
    let q = mul_bits(x, inv);
    let r = x - k * l;
    vstd::arithmetic::div_mod::lemma_fundamental_div_mod(x * inv, s);
    vstd::arithmetic::div_mod::lemma_mod_bound(x * inv, s);
    assert(s * q <= x * inv < s * q + s);
    lemma_round_even_close(q);
    assert(inv * l == s * s + 1953109352);
    assert(inv * r == (x * inv - s * q) + s * (q - k * s) - k * 1953109352) by (nonlinear_arith)
        requires r == x - k * l, inv * l == s * s + 1953109352;
    let d = q - k * s;
    assert(abs_int(s * d) <= s * 2147483648) by (nonlinear_arith)
        requires abs_int(d) <= 2147483648, s == 4294967296;
    assert(abs_int(k * 1953109352) <= 0x8000_0000 * 1953109352) by (nonlinear_arith)
        requires -0x8000_0000 <= k <= 30;
    assert(abs_int(inv * r) == inv * abs_int(r)) by (nonlinear_arith)
        requires inv == 6196328019;
    assert(inv * abs_int(r) <= s + s * 2147483648 + 0x8000_0000 * 1953109352);
    if -63 <= k {
        assert(abs_int(k * 1953109352) <= 63 * 1953109352) by (nonlinear_arith)
            requires -63 <= k <= 30;
        assert(inv * abs_int(r) <= s + s * 2147483648 + 63 * 1953109352);
    }
}

/// The series terms of `exp(r)` stay bounded: by `2^32` always, and by
/// `2^32 / 2^n` for small `r`.
proof fn lemma_exp_step(t: int, r: int, n: int, p: int, fine: bool)
    requires
        1 <= n <= 15,
        1 <= p <= 16384,
        abs_int(t) <= scale(),
        abs_int(r) <= 2_200_000_000,
        fine ==> abs_int(r) <= 1_500_000_000,
        fine ==> abs_int(t) * p <= scale(),
    ensures
        mul_ok(t, r),
        fits(mul_bits(t, r)),
        abs_int(div_bits(mul_bits(t, r), int_bits(n))) <= scale(),
        fine ==> abs_int(div_bits(mul_bits(t, r), int_bits(n))) * (2 * p) <= scale(),
{
    let s = scale();
    let m = mul_bits(t, r);
    lemma_mul_bits_bound(t, r);
    assert(abs_int(t) * abs_int(r) <= s * 2_200_000_000) by (nonlinear_arith)
        requires abs_int(t) <= s, abs_int(r) <= 2_200_000_000, abs_int(t) >= 0;
    assert(abs_int(t * r) == abs_int(t) * abs_int(r)) by (nonlinear_arith);
    assert(s * abs_int(m) <= s * 2_200_000_001);
    assert(abs_int(m) <= 2_200_000_001) by (nonlinear_arith)
        requires s * abs_int(m) <= s * 2_200_000_001, s > 0;
    lemma_div_int_bound(m, n);
    let d = div_bits(m, int_bits(n));
    assert(abs_int(d) <= abs_int(m)) by (nonlinear_arith)
        requires abs_int(d) * n <= abs_int(m), n >= 1, abs_int(d) >= 0;
    if fine {
        assert(abs_int(t) * p * abs_int(r) <= s * abs_int(r)) by (nonlinear_arith)
            requires abs_int(t) * p <= s, abs_int(r) >= 0;
        assert(s * abs_int(m) * (2 * p) <= 2 * s * abs_int(r) + 2 * p * s) by (nonlinear_arith)
            requires s * abs_int(m) <= abs_int(t) * abs_int(r) + s,
                abs_int(t) * p * abs_int(r) <= s * abs_int(r), p >= 1;
        assert(abs_int(m) * (2 * p) <= 2 * abs_int(r) + 2 * p) by (nonlinear_arith)
            requires s * abs_int(m) * (2 * p) <= 2 * s * abs_int(r) + 2 * p * s, s > 0;
        assert(abs_int(d) * (2 * p) <= abs_int(m) * (2 * p)) by (nonlinear_arith)
            requires abs_int(d) <= abs_int(m), p >= 1;
    }
}

/// Exponential. Underflows to zero for very negative arguments. The
/// original panics when the result would overflow (`k > 30`) or an
/// intermediate product overflows; those arguments are excluded.
pub fn exp(x: Real) -> (r: Real)
    requires
        exp_ok(x@),
    ensures
        r@ == exp_bits(x@),
        r@ >= 0,
        x@ <= 0 ==> r@ < 2 * scale(),
{
    let q = x.mul(inv_ln_2());
    proof {
        lemma_round_even_close(q@);
        let kk = round_even_int(q@);
        assert(int_bits(kk) == kk * scale());
        assert(-0x8000_0000 * scale() <= kk * scale() <= 30 * scale()) by (nonlinear_arith)
            requires -0x8000_0000 <= kk <= 30;
    }
    let k_fixed = q.round_ties_even();
    let k: i64 = k_fixed.to_i64_floor();
    proof {
        let kk = round_even_int(q@);
        vstd::arithmetic::div_mod::lemma_div_multiples_vanish(kk, scale());
        assert(kk * scale() == scale() * kk) by (nonlinear_arith);
        assert(k == kk);
        assert(-0x8000_0000 * LN_2_BITS <= k * LN_2_BITS <= 30 * LN_2_BITS) by (nonlinear_arith)
            requires -0x8000_0000 <= k <= 30;
        lemma_int_times_const(k as int, LN_2_BITS as int);
        lemma_exp_reduction(x@, k as int);
    }
    let kl = Real::from_int(k).mul(ln_2());
    let r = x.sub(kl);
    proof {
        if x@ <= 0 {
            vstd::arithmetic::div_mod::lemma_div_pos_is_pos(0, scale());
            assert(x@ * INV_LN_2_BITS <= 0) by (nonlinear_arith) requires x@ <= 0;
            vstd::arithmetic::div_mod::lemma_div_is_ordered(x@ * INV_LN_2_BITS, 0, scale());
            assert(q@ <= 0);
            vstd::arithmetic::div_mod::lemma_div_is_ordered(q@, 0, scale());
            assert(k <= 0);
        }
    }
    let ghost fine: bool = -63 <= k;
    let mut term = Real::one();
    let mut sum = Real::one();
    let ghost mut p: int = 1;
    let mut n: i64 = 1;
    proof {
        lemma2_to64();
    }
    while n <= 15
        invariant
            1 <= n <= 16,
            abs_int(r@) <= 2_200_000_000,
            fine ==> abs_int(r@) <= 1_500_000_000,
            exp_series(r@, (n - 1) as nat) == (term@, sum@),
            p == pow2((n - 1) as nat),
            abs_int(term@) <= scale(),
            abs_int(sum@ - scale()) <= (n - 1) * scale(),
            fine ==> abs_int(term@) * p <= scale(),
            fine ==> abs_int(sum@ - scale()) * p <= scale() * (p - 1),
        decreases 16 - n,
    {
        proof {
            lemma_pow2_pos((n - 1) as nat);
            if n - 1 < 14 {
                lemma_pow2_strictly_increases((n - 1) as nat, 14);
            }
            lemma2_to64();
            lemma_exp_step(term@, r@, n as int, p, fine);
            lemma_div_int_bound(mul_bits(term@, r@), n as int);
            lemma_pow2_unfold(n as nat);
        }
        let ghost s0: int = sum@;
        term = term.mul(r).div(Real::from_int(n));
        sum = sum.add(term);
        proof {
            assert(abs_int(sum@ - scale()) <= abs_int(s0 - scale()) + abs_int(term@));
            if fine {
                assert(abs_int(sum@ - scale()) * (2 * p) <= scale() * (2 * p - 1)) by (nonlinear_arith)
                    requires abs_int(s0 - scale()) * p <= scale() * (p - 1),
                        abs_int(term@) * (2 * p) <= scale(),
                        abs_int(sum@ - scale()) <= abs_int(s0 - scale()) + abs_int(term@),
                        p >= 1, abs_int(sum@ - scale()) >= 0;
            }
            p = 2 * p;
        }
        n = n + 1;
    }
    if k < -63 {
        return Real::zero();
    }
    let sum_bits = sum.to_bits();
    proof {
        lemma2_to64_rest();
        assert(p == 32768);
        assert(abs_int(sum_bits - scale()) < scale()) by (nonlinear_arith)
            requires abs_int(sum_bits - scale()) * 32768 <= scale() * 32767;
    }
    let ub: u64 = sum_bits as u64;
    if k >= 0 {
        let sh: u64 = k as u64;
        proof {
            if sh < 30 {
                lemma_pow2_strictly_increases(sh as nat, 30);
            }
            lemma_pow2_pos(sh as nat);
            assert(ub * pow2(sh as nat) < 0x8000_0000_0000_0000) by (nonlinear_arith)
                requires ub < 2 * scale(), pow2(sh as nat) <= 0x4000_0000, pow2(sh as nat) > 0;
            vstd::bits::lemma_u64_shl_is_mul(ub, sh);
        }
        proof {
            if x@ <= 0 {
                assert(sh == 0);
                assert(pow2(0) == 1);
            }
        }
        Real::from_bits((ub << sh) as i64)
    } else {
        let sh: u64 = (-k) as u64;
        proof {
            vstd::bits::lemma_u64_shr_is_div(ub, sh);
            lemma_pow2_pos(sh as nat);
            vstd::arithmetic::div_mod::lemma_div_is_ordered_by_denominator(ub as int, 1, pow2(sh as nat) as int);
        }
        Real::from_bits((ub >> sh) as i64)
    }
}

/// The series collapses to its leading `1` on `r = 0`.
proof fn lemma_exp_series_zero(n: nat)
    ensures
        exp_series(0, n).1 == scale(),
        n > 0 ==> exp_series(0, n).0 == 0,
    decreases n,
{
    if n > 0 {
        lemma_exp_series_zero((n - 1) as nat);
        assert(mul_bits(exp_series(0, (n - 1) as nat).0, 0) == 0);
        assert(trunc_div(0, int_bits(n as int)) == 0);
    }
}

/// `exp(0) = 1`.
pub proof fn lemma_exp_zero()
    ensures
        exp_ok(0),
        exp_bits(0) == scale(),
{
    assert(mul_bits(0, INV_LN_2_BITS as int) == 0);
    assert(round_even_int(0) == 0);
    assert(exp_k(0) == 0);
    lemma_exp_series_zero(15);
    lemma2_to64();
    assert(0 - 0 * LN_2_BITS == 0);
    assert(exp_series(0 - exp_k(0) * LN_2_BITS, 15).1 == scale());
    assert(scale() * pow2(0) == scale());
}

} // verus!

verus! {

/// Bit pattern of `pow(a, b)`: `1` when `b = 0`, `0` when `a = 0`,
/// otherwise `exp(b · ln a)`.
pub open spec fn pow_bits(a: int, b: int) -> int {
    if b == 0 {
        scale()
    } else if a == 0 {
        0
    } else {
        exp_bits(mul_bits(b, ln_bits(a)))
    }
}

/// The arguments on which `pow` returns: `b = 0`; `a = 0` with `b > 0`;
/// or `a > 0` with `exp(b · ln a)` defined.
pub open spec fn pow_ok(a: int, b: int) -> bool {
    ||| b == 0
    ||| a == 0 && b > 0
    ||| a > 0 && mul_ok(b, ln_bits(a)) && exp_ok(mul_bits(b, ln_bits(a)))
}

/// `a` raised to `b`, as `exp(b · ln a)`. `pow(a, 0) = 1` (also for
/// `a = 0`) and `pow(0, b) = 0` for `b > 0`. The original panics for
/// `a < 0`, for `a = 0` with `b < 0`, and when `exp` would; those
/// arguments are excluded.
pub fn pow(a: Real, b: Real) -> (r: Real)
    requires
        pow_ok(a@, b@),
    ensures
        r@ == pow_bits(a@, b@),
{
    if b.to_bits() == 0 {
        return Real::one();
    }
    if a.to_bits() == 0 {
        return Real::zero();
    }
    let l = ln(a);
    exp(b.mul(l))
}

/// The multiple `k` of `2π` that `sin` removes from its argument.
pub open spec fn sin_k(x: int) -> int {
    round_even_int(div_bits(x, TWO_PI_BITS as int))
}

/// The arguments on which `sin` returns: the product `k · 2π` does not
/// overflow.
pub open spec fn sin_ok(x: int) -> bool {
    fits(sin_k(x) * TWO_PI_BITS)
}

/// The argument reduced into `[-π, π]` and reflected into
/// `[-π/2, π/2]`.
pub open spec fn sin_reduced(x: int) -> int {
    let r = x - sin_k(x) * TWO_PI_BITS;
    if r > HALF_PI_BITS {
        PI_BITS - r
    } else if r < -HALF_PI_BITS {
        -PI_BITS - r
    } else {
        r
    }
}

/// The `(term, sum)` pair after `n` steps of the Taylor series of
/// `sin(r)`, every operation in Q32.32.
pub open spec fn sin_series(r: int, r_sq: int, n: nat) -> (int, int)
    decreases n,
{
    if n == 0 {
        (r, r)
    } else {
        let prev = sin_series(r, r_sq, (n - 1) as nat);
        let term = div_bits(mul_bits(-prev.0, r_sq), int_bits(((2 * n) * (2 * n + 1)) as int));
        (term, prev.1 + term)
    }
}

/// Bit pattern of `sin(x)`: nine Taylor terms on the reduced argument.
pub open spec fn sin_bits(x: int) -> int {
    let r = sin_reduced(x);
    sin_series(r, mul_bits(r, r), 8).1
}

/// `|x·2^32 / 2π|` is at most `|x|·2^32 / 2π`; the quotient and its
/// rounding are representable.
proof fn lemma_sin_quotient(x: int)
    requires
        fits(x),
    ensures
        div_ok(x, TWO_PI_BITS as int),
        fits(int_bits(sin_k(x))),
        abs_int(x * scale() - div_bits(x, TWO_PI_BITS as int) * TWO_PI_BITS) < TWO_PI_BITS,
        abs_int(div_bits(x, TWO_PI_BITS as int) - sin_k(x) * scale()) <= 2147483648,
{
    let s = scale();
    let t = TWO_PI_BITS as int;
    let n = x * s;
    let m = abs_int(n);
    assert(m == abs_int(x) * s) by (nonlinear_arith) requires n == x * s, s > 0, m == abs_int(n);
    lemma_quotient(m, t);
    let q0 = m / t;
    assert(q0 * t <= m < q0 * t + t);
    assert(abs_int(x) <= 0x8000_0000_0000_0000);
    assert(q0 <= 0x8000_0000_0000_0000int / 6) by (nonlinear_arith)
        requires q0 * t <= m, m == abs_int(x) * s, abs_int(x) <= 0x8000_0000_0000_0000,
            t == 26986075409, s == 4294967296, q0 >= 0;
    lemma_round_even_close(div_bits(x, t));
    let q = div_bits(x, t);
    assert(abs_int(q) == q0);
    let k = sin_k(x);
    assert(abs_int(k * s) <= q0 + 2147483648);
}

/// The reduced and reflected argument of `sin` lies within `π/2 + 1` of
/// zero.
proof fn lemma_sin_reduction(x: int)
    requires
        fits(x),
        sin_ok(x),
    ensures
        fits(x - sin_k(x) * TWO_PI_BITS),
        abs_int(x - sin_k(x) * TWO_PI_BITS) <= PI_BITS + 6,
        abs_int(sin_reduced(x)) <= HALF_PI_BITS + 1,
{
    let s = scale();
    let t = TWO_PI_BITS as int;
    lemma_sin_quotient(x);
    let q = div_bits(x, t);
    let k = sin_k(x);
    let r = x - k * t;
    assert(s * r == (x * s - q * t) + (q - k * s) * t) by (nonlinear_arith)
        requires r == x - k * t;
    assert(abs_int((q - k * s) * t) <= 2147483648 * t) by (nonlinear_arith)
        requires abs_int(q - k * s) <= 2147483648, t > 0;
    assert(abs_int(s * r) == s * abs_int(r)) by (nonlinear_arith) requires s > 0;
    assert(s * abs_int(r) < t + 2147483648 * t);
    assert(abs_int(r) <= PI_BITS + 6) by (nonlinear_arith)
        requires s * abs_int(r) < t + 2147483648 * t, s == 4294967296, t == 26986075409;
}

/// The Taylor terms of `sin` on a reduced argument never grow.
proof fn lemma_sin_step(t: int, r_sq: int, n: int)
    requires
        1 <= n <= 8,
        abs_int(t) <= HALF_PI_BITS + 1,
        0 <= r_sq <= 11_000_000_000,
    ensures
        -t != i64::MIN,
        mul_ok(-t, r_sq),
        fits(mul_bits(-t, r_sq)),
        div_ok(mul_bits(-t, r_sq), int_bits((2 * n) * (2 * n + 1))),
        abs_int(div_bits(mul_bits(-t, r_sq), int_bits((2 * n) * (2 * n + 1)))) <= HALF_PI_BITS + 1,
{
    let s = scale();
    let m = mul_bits(-t, r_sq);
    lemma_mul_bits_bound(-t, r_sq);
    assert(abs_int(-t) * r_sq <= (HALF_PI_BITS + 1) * 11_000_000_000) by (nonlinear_arith)
        requires abs_int(-t) <= HALF_PI_BITS + 1, 0 <= r_sq <= 11_000_000_000;
    assert(abs_int(-t * r_sq) == abs_int(-t) * r_sq) by (nonlinear_arith) requires r_sq >= 0;
    assert(abs_int(m) <= 6 * (HALF_PI_BITS + 1)) by (nonlinear_arith)
        requires s * abs_int(m) <= abs_int(-t) * r_sq + s,
            abs_int(-t) * r_sq <= (HALF_PI_BITS + 1) * 11_000_000_000, s == 4294967296;
    let d = (2 * n) * (2 * n + 1);
    assert(d >= 6) by (nonlinear_arith) requires n >= 1, d == (2 * n) * (2 * n + 1);
    lemma_div_int_bound(m, d);
    let q = div_bits(m, int_bits(d));
    assert(abs_int(q) * 6 <= abs_int(q) * d) by (nonlinear_arith) requires d >= 6, abs_int(q) >= 0;
}

/// Sine, by Taylor series after reduction to `[-π, π]` and reflection to
/// `[-π/2, π/2]`. The original panics when `k · 2π` overflows; those
/// arguments (within `π` of the ends of the range) are excluded.
pub fn sin(x: Real) -> (r: Real)
    requires
        sin_ok(x@),
    ensures
        r@ == sin_bits(x@),
{
    proof {
        lemma_sin_quotient(x@);
    }
    let k = x.div(two_pi()).round_ties_even();
    proof {
        let kk = sin_k(x@);
        assert(k@ == kk * scale());
        assert(mul_ok(k@, TWO_PI_BITS as int)) by (nonlinear_arith)
            requires k@ == kk * scale(), fits(kk * TWO_PI_BITS), scale() == 4294967296;
        assert(k@ * TWO_PI_BITS == scale() * (kk * TWO_PI_BITS)) by (nonlinear_arith)
            requires k@ == kk * scale();
        vstd::arithmetic::div_mod::lemma_div_multiples_vanish(kk * TWO_PI_BITS, scale());
        lemma_sin_reduction(x@);
    }
    let mut r = x.sub(k.mul(two_pi()));
    let half = half_pi();
    if r.to_bits() > half.to_bits() {
        r = pi().sub(r);
    } else if r.to_bits() < -half.to_bits() {
        r = pi().neg().sub(r);
    }
    proof {
        assert(r@ == sin_reduced(x@));
        lemma_mul_bits_bound(r@, r@);
        assert(r@ * r@ <= (HALF_PI_BITS + 1) * (HALF_PI_BITS + 1)) by (nonlinear_arith)
            requires abs_int(r@) <= HALF_PI_BITS + 1;
        assert(abs_int(r@) * abs_int(r@) == r@ * r@) by (nonlinear_arith);
    }
    let r_sq = r.mul(r);
    proof {
        assert(r_sq@ <= 11_000_000_000) by (nonlinear_arith)
            requires scale() * abs_int(r_sq@) <= r@ * r@ + scale(),
                r@ * r@ <= (HALF_PI_BITS + 1) * (HALF_PI_BITS + 1), scale() == 4294967296;
        assert(r_sq@ >= 0) by (nonlinear_arith)
            requires r_sq@ == mul_bits(r@, r@), scale() == 4294967296;
    }
    let mut term = r;
    let mut sum = r;
    let mut n: i64 = 1;
    while n <= 8
        invariant
            1 <= n <= 9,
            abs_int(r@) <= HALF_PI_BITS + 1,
            0 <= r_sq@ <= 11_000_000_000,
            sin_series(r@, r_sq@, (n - 1) as nat) == (term@, sum@),
            abs_int(term@) <= HALF_PI_BITS + 1,
            abs_int(sum@) <= n * 6_746_518_853,
        decreases 9 - n,
    {
        proof {
            lemma_sin_step(term@, r_sq@, n as int);
            assert(0 < (2 * n) * (2 * n + 1) <= 272) by (nonlinear_arith) requires 1 <= n <= 8;
        }
        let denom = Real::from_int((2 * n) * (2 * n + 1));
        let ghost t0: int = term@;
        term = term.neg().mul(r_sq).div(denom);
        proof {
            assert(denom@ == int_bits((2 * n as int) * (2 * n as int + 1)));
            assert(term@ == div_bits(mul_bits(-t0, r_sq@), int_bits((2 * n as int) * (2 * n as int + 1))));
            assert(abs_int(term@) <= HALF_PI_BITS + 1);
            assert(abs_int(sum@ + term@) <= abs_int(sum@) + abs_int(term@));
        }
        sum = sum.add(term);
        n = n + 1;
    }
    sum
}

/// Cosine, as `sin(x + π/2)`. The original panics when `x + π/2`
/// overflows or `sin` would; those arguments are excluded.
pub fn cos(x: Real) -> (r: Real)
    requires
        fits(x@ + HALF_PI_BITS),
        sin_ok(x@ + HALF_PI_BITS),
    ensures
        r@ == sin_bits(x@ + HALF_PI_BITS),
{
    sin(x.add(half_pi()))
}

/// The sine series vanishes on a zero argument.
proof fn lemma_sin_series_zero(n: nat)
    ensures
        sin_series(0, 0, n) == (0int, 0int),
    decreases n,
{
    if n > 0 {
        lemma_sin_series_zero((n - 1) as nat);
        assert(mul_bits(0, 0) == 0);
        assert(trunc_div(0, int_bits(((2 * n) * (2 * n + 1)) as int)) == 0);
    }
}

/// `sin(0) = 0`.
pub proof fn lemma_sin_zero()
    ensures
        sin_ok(0),
        sin_bits(0) == 0,
{
    assert(div_bits(0, TWO_PI_BITS as int) == 0);
    assert(round_even_int(0) == 0);
    assert(sin_k(0) == 0);
    assert(sin_reduced(0) == 0);
    assert(mul_bits(0, 0) == 0);
    lemma_sin_series_zero(8);
}

} // verus!
