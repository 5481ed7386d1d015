//! Deterministic real arithmetic over a Q32.32 fixed-point value.
//!
//! A `Real` is the bit pattern of a `fixed::types::I32F32`: the
//! represented number is `bits / 2^32`. Multiplication, division and
//! rounding are delegated to the `fixed` crate; addition, subtraction,
//! negation and the integer part (an arithmetic shift by the 32
//! fraction bits) are plain two's-complement arithmetic on the bit
//! pattern, which is exactly what `fixed` does.

use fixed::types::I32F32;
use vstd::prelude::*;

verus! {

/// `2^32`, the scale of the Q32.32 representation.
pub open spec fn scale() -> int {
    4294967296
}

/// Whether an unbounded integer fits the 64-bit bit pattern.
pub open spec fn fits(v: int) -> bool {
    i64::MIN <= v <= i64::MAX
}

/// Division rounding toward zero (Rust's integer `/`).
pub open spec fn trunc_div(n: int, d: int) -> int {
    if d == 0 {
        0
    } else if n >= 0 && d > 0 {
        n / d
    } else if n < 0 && d > 0 {
        -((-n) / d)
    } else if n >= 0 && d < 0 {
        -(n / (-d))
    } else {
        (-n) / (-d)
    }
}

/// Bit pattern of the product of two Q32.32 values: the exact product
/// shifted right by 32, i.e. rounded toward negative infinity.
pub open spec fn mul_bits(a: int, b: int) -> int {
    (a * b) / scale()
}

/// Bit pattern of the quotient of two Q32.32 values: `a·2^32 / b`
/// rounded toward zero.
pub open spec fn div_bits(a: int, b: int) -> int {
    trunc_div(a * scale(), b)
}

/// Whether `mul_bits(a, b)` is representable (the product does not
/// overflow).
pub open spec fn mul_ok(a: int, b: int) -> bool {
    -0x8000_0000_0000_0000_0000_0000 <= a * b < 0x8000_0000_0000_0000_0000_0000
}

/// Whether `div_bits(a, b)` is defined and representable.
pub open spec fn div_ok(a: int, b: int) -> bool {
    b != 0 && fits(div_bits(a, b))
}

/// Bit pattern of `n` as a Q32.32 value.
pub open spec fn int_bits(n: int) -> int {
    n * scale()
}

/// Whether `n` is representable as a Q32.32 value.
pub open spec fn int_ok(n: int) -> bool {
    -0x8000_0000 <= n < 0x8000_0000
}

/// Bit pattern of the ratio `num / den`.
pub open spec fn ratio_bits(num: int, den: int) -> int {
    div_bits(int_bits(num), int_bits(den))
}

/// The integer nearest to `bits / 2^32`, ties to the even integer.
pub open spec fn round_even_int(bits: int) -> int {
    let q = bits / scale();
    let r = bits % scale();
    if r < 2147483648 {
        q
    } else if r > 2147483648 {
        q + 1
    } else if q % 2 == 0 {
        q
    } else {
        q + 1
    }
}

/// `min` as the original orders it: `self` when strictly smaller.
pub open spec fn min_bits(a: int, b: int) -> int {
    if a < b { a } else { b }
}

/// `max` as the original orders it: `self` when strictly larger.
pub open spec fn max_bits(a: int, b: int) -> int {
    if a > b { a } else { b }
}

/// Clamp into `[0, 1]` (in bits `[0, 2^32]`).
pub open spec fn clamp01_bits(a: int) -> int {
    min_bits(max_bits(a, 0), scale())
}

/// Q32.32 real number.
#[derive(Debug, Clone, Copy, PartialEq, Eq, Structural, PartialOrd, Ord, Hash)]
pub struct Real {
    /// The raw Q32.32 bit pattern (`value × 2^32`).
    pub bits: i64,
}

impl View for Real {
    type V = int;

    open spec fn view(&self) -> int {
        self.bits as int
    }
}

/// Fixed-point product through `fixed`'s `I32F32 * I32F32`.
///
/// `fixed` widens both operands to `i128`, multiplies, and shifts the
/// product right by the 32 fraction bits; it panics (debug assertion)
/// exactly when the widened product overflows. The contract claims the
/// floor-shifted product and excludes the overflowing inputs.
#[verifier::external_body]
fn fixed_mul(a: i64, b: i64) -> (r: i64)
    requires
        mul_ok(a as int, b as int),
    ensures
        r as int == mul_bits(a as int, b as int),
{
    (I32F32::from_bits(a) * I32F32::from_bits(b)).to_bits()
}

/// Fixed-point quotient through `fixed`'s `I32F32 / I32F32`.
///
/// `fixed` shifts the dividend left by 32 in `i128`, divides with
/// Rust's truncating division, and panics on a zero divisor or when
/// the quotient does not fit 64 bits. The contract claims the
/// truncated quotient and excludes those inputs.
#[verifier::external_body]
fn fixed_div(a: i64, b: i64) -> (r: i64)
    requires
        div_ok(a as int, b as int),
    ensures
        r as int == div_bits(a as int, b as int),
{
    (I32F32::from_bits(a) / I32F32::from_bits(b)).to_bits()
}

/// `I32F32::round_ties_even`: rounds to the nearest integer (ties to
/// even) and panics when the rounded value overflows. The contract
/// claims the rounded bit pattern and excludes the overflow.
#[verifier::external_body]
fn fixed_round_ties_even(a: i64) -> (r: i64)
    requires
        fits(int_bits(round_even_int(a as int))),
    ensures
        r as int == int_bits(round_even_int(a as int)),
{
    I32F32::from_bits(a).round_ties_even().to_bits()
}

/// Decimal rendering of an `I32F32` by its `Display` impl.
pub uninterp spec fn fixed_display(bits: int) -> Seq<char>;

/// `format!("{}", I32F32)`: `fixed`'s exact decimal rendering. The
/// text is named, not spelled out.
#[verifier::external_body]
fn fixed_to_string(a: i64) -> (r: String)
    ensures
        r@ == fixed_display(a as int),
{
    format!("{}", I32F32::from_bits(a))
}

impl Real {
    /// The value 0.
    pub fn zero() -> (r: Real)
        ensures
            r@ == 0,
    {
        Real { bits: 0 }
    }

    /// The value 1.
    pub fn one() -> (r: Real)
        ensures
            r@ == scale(),
    {
        Real { bits: 4294967296 }
    }

    /// Construct from an integer. Panics in the original when `n`
    /// does not fit the 32 integer bits; excluded here.
    pub fn from_int(n: i64) -> (r: Real)
        requires
            int_ok(n as int),
        ensures
            r@ == int_bits(n as int),
    {
        Real { bits: n * 4294967296 }
    }

    /// Construct from the raw Q32.32 bit pattern.
    pub fn from_bits(bits: i64) -> (r: Real)
        ensures
            r@ == bits,
    {
        Real { bits }
    }

    /// The raw Q32.32 bit pattern.
    pub fn to_bits(self) -> (r: i64)
        ensures
            r == self@,
    {
        self.bits
    }

    /// `num / den` as a Q32.32 value; both must fit the integer bits
    /// and `den` must be non-zero.
    pub fn from_ratio(num: i64, den: i64) -> (r: Real)
        requires
            int_ok(num as int),
            int_ok(den as int),
            den != 0,
            !(num == -0x8000_0000 && den == -1),
        ensures
            r@ == ratio_bits(num as int, den as int),
    {
        let n = Real::from_int(num);
        let d = Real::from_int(den);
        proof {
            lemma_ratio_fits(num as int, den as int);
        }
        n.div(d)
    }

    /// `n` percent, i.e. `n / 100`.
    pub fn percent(n: i64) -> (r: Real)
        requires
            int_ok(n as int),
        ensures
            r@ == ratio_bits(n as int, 100),
    {
        Real::from_ratio(n, 100)
    }

    pub fn add(self, rhs: Real) -> (r: Real)
        requires
            fits(self@ + rhs@),
        ensures
            r@ == self@ + rhs@,
    {
        Real { bits: self.bits + rhs.bits }
    }

    pub fn sub(self, rhs: Real) -> (r: Real)
        requires
            fits(self@ - rhs@),
        ensures
            r@ == self@ - rhs@,
    {
        Real { bits: self.bits - rhs.bits }
    }

    pub fn neg(self) -> (r: Real)
        requires
            self@ != i64::MIN,
        ensures
            r@ == -self@,
    {
        Real { bits: -self.bits }
    }

    pub fn mul(self, rhs: Real) -> (r: Real)
        requires
            mul_ok(self@, rhs@),
        ensures
            r@ == mul_bits(self@, rhs@),
    {
        Real { bits: fixed_mul(self.bits, rhs.bits) }
    }

    pub fn div(self, rhs: Real) -> (r: Real)
        requires
            div_ok(self@, rhs@),
        ensures
            r@ == div_bits(self@, rhs@),
    {
        Real { bits: fixed_div(self.bits, rhs.bits) }
    }

    pub fn min(self, other: Real) -> (r: Real)
        ensures
            r@ == min_bits(self@, other@),
    {
        if self.bits < other.bits {
            self
        } else {
            other
        }
    }

    pub fn max(self, other: Real) -> (r: Real)
        ensures
            r@ == max_bits(self@, other@),
    {
        if self.bits > other.bits {
            self
        } else {
            other
        }
    }

    pub fn abs(self) -> (r: Real)
        requires
            self@ != i64::MIN,
        ensures
            r@ == (if self@ < 0 { -self@ } else { self@ }),
    {
        if self.bits < 0 {
            Real { bits: -self.bits }
        } else {
            self
        }
    }

    /// Clamp into `[0, 1]`.
    pub fn clamp01(self) -> (r: Real)
        ensures
            r@ == clamp01_bits(self@),
            0 <= r@ <= scale(),
    {
        self.max(Real::zero()).min(Real::one())
    }

    /// Round to the nearest integer, ties to even (as a Q32.32 value).
    pub fn round_ties_even(self) -> (r: Real)
        requires
            fits(int_bits(round_even_int(self@))),
        ensures
            r@ == int_bits(round_even_int(self@)),
    {
        Real { bits: fixed_round_ties_even(self.bits) }
    }

    /// Integer part, rounded toward negative infinity (as `fixed`'s
    /// `to_num::<i64>` gives it).
    pub fn to_i64_floor(self) -> (r: i64)
        ensures
            r as int == self@ / scale(),
    {
        let r = self.bits >> 32u32;
        proof {
            let b = self.bits;
            assert(b >> 32u32 == (if b >= 0 { b / 4294967296 } else { -((-(b + 1)) / 4294967296) - 1 })) by (bit_vector);
        }
        r
    }

    /// Decimal rendering, as the `Display` of the underlying value.
    pub fn to_display_string(self) -> (r: String)
        ensures
            r@ == fixed_display(self@),
    {
        fixed_to_string(self.bits)
    }
}

/// Quotient of two scaled magnitudes: `(m·2^64)/(b·2^32) = (m·2^32)/b`,
/// which lies in `[0, m·2^32]`, and in `[0, m·2^31]` once `b ≥ 2`.
proof fn lemma_scaled_quotient(m: int, b: int)
    requires
        0 <= m,
        1 <= b,
    ensures
        (m * scale() * scale()) / (b * scale()) == (m * scale()) / b,
        0 <= (m * scale()) / b <= m * scale(),
        b >= 2 ==> (m * scale()) / b <= m * 2147483648,
{
    let s = scale();
    let x = m * s * s;
    assert(0 <= m * s) by (nonlinear_arith) requires 0 <= m, s == 4294967296;
    vstd::arithmetic::div_mod::lemma_div_by_multiple(m * s, s);
    vstd::arithmetic::div_mod::lemma_div_denominator(x, s, b);
    assert(s * b == b * s) by (nonlinear_arith);
    vstd::arithmetic::div_mod::lemma_div_nonincreasing(m * s, b);
    vstd::arithmetic::div_mod::lemma_div_pos_is_pos(m * s, b);
    if b >= 2 {
        vstd::arithmetic::div_mod::lemma_div_is_ordered_by_denominator(m * s, 2, b);
        assert((m * s) / 2 == m * 2147483648) by (nonlinear_arith)
            requires s == 4294967296;
    }
}

/// `num / den` is representable as a Q32.32 value whenever both fit the
/// integer bits, `den` is non-zero, and the one overflowing pair
/// `(-2^31) / (-1)` is excluded.
pub proof fn lemma_ratio_fits(num: int, den: int)
    requires
        int_ok(num),
        int_ok(den),
        den != 0,
        !(num == -0x8000_0000 && den == -1),
    ensures
        div_ok(int_bits(num), int_bits(den)),
        fits(ratio_bits(num, den)),
{
    let s = scale();
    let m = if num >= 0 { num } else { -num };
    let b = if den > 0 { den } else { -den };
    lemma_scaled_quotient(m, b);
    let n = int_bits(num) * s;
    let d = int_bits(den);
    assert(d != 0) by (nonlinear_arith) requires d == den * 4294967296, den != 0;
    assert(n == (if num >= 0 { m * s * s } else { -(m * s * s) })) by (nonlinear_arith)
        requires n == num * 4294967296 * 4294967296, s == 4294967296,
            m == (if num >= 0 { num } else { -num });
    assert(d > 0 <==> den > 0) by (nonlinear_arith) requires d == den * 4294967296;
    assert((if d > 0 { d } else { -d }) == b * s) by (nonlinear_arith)
        requires d == den * 4294967296, s == 4294967296, b == (if den > 0 { den } else { -den });
    assert(m * s <= 0x8000_0000 * s) by (nonlinear_arith)
        requires m <= 0x8000_0000, s == 4294967296, 0 <= m;
    if m == 0x8000_0000 && (num >= 0) == (den > 0) {
        assert(num < 0);
        assert(b >= 2);
    }
}


/// A ratio `num / den` with `0 ≤ num ≤ den` lies in `[0, 1]`.
pub proof fn lemma_ratio_unit(num: int, den: int)
    requires
        0 <= num <= den,
        0 < den < 0x8000_0000,
    ensures
        0 <= ratio_bits(num, den) <= scale(),
{
    let s = scale();
    lemma_scaled_quotient(num, den);
    assert(int_bits(num) * s == num * s * s) by (nonlinear_arith) requires s == 4294967296;
    assert(int_bits(den) == den * s);
    assert(den * s > 0) by (nonlinear_arith) requires den > 0, s == 4294967296;
    assert(num * s <= den * s) by (nonlinear_arith) requires num <= den, s == 4294967296;
    vstd::arithmetic::div_mod::lemma_div_is_ordered(num * s, den * s, den);
    vstd::arithmetic::div_mod::lemma_div_by_multiple(s, den);
    assert(s * den == den * s) by (nonlinear_arith);
}

/// The product of two values of `[0, 1]` is representable and stays in
/// `[0, 1]`.
pub proof fn lemma_mul_unit(a: int, b: int)
    requires
        0 <= a <= scale(),
        0 <= b <= scale(),
    ensures
        mul_ok(a, b),
        0 <= mul_bits(a, b) <= scale(),
{
    let s = scale();
    assert(0 <= a * b <= s * s) by (nonlinear_arith)
        requires 0 <= a <= s, 0 <= b <= s;
    vstd::arithmetic::div_mod::lemma_div_is_ordered(a * b, s * s, s);
    vstd::arithmetic::div_mod::lemma_div_by_multiple(s, s);
    vstd::arithmetic::div_mod::lemma_div_pos_is_pos(a * b, s);
}


/// A non-negative ratio is `num · 2^32 / den`, rounded down.
pub proof fn lemma_ratio_value(num: int, den: int)
    requires
        0 <= num,
        0 < den,
    ensures
        ratio_bits(num, den) == (num * scale()) / den,
{
    lemma_scaled_quotient(num, den);
    assert(int_bits(num) * scale() == num * scale() * scale());
    assert(int_bits(den) == den * scale());
    assert(den * scale() > 0) by (nonlinear_arith) requires den > 0;
    assert(num * scale() * scale() >= 0) by (nonlinear_arith) requires num >= 0;
}

} // verus!
