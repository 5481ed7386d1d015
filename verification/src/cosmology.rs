//! Cosmology drift dynamics: five axes per civ, each in `[-1, 1]`,
//! that drift with events; dogmatism is the L2 norm of the vector
//! scaled into `[0, 1]`. The culture hooks read this state.

use crate::arith::{
    clamp01_bits, div_bits, fits, int_bits, max_bits, min_bits, mul_bits, mul_ok, ratio_bits, scale,
    Real,
};
use crate::forms::Form;
use crate::transcendental::{abs_int, lemma_mul_bits_bound, sqrt, sqrt_result};
use vstd::prelude::*;

verus! {

/// Five cultural axes.
#[derive(Debug, Clone, Copy, PartialEq, Eq, Structural)]
pub struct Cosmology {
    pub empirical: Real,
    pub communitarian: Real,
    pub reformist: Real,
    pub mystical: Real,
    pub hierarchical: Real,
}

/// Whether a value lies in `[-1, 1]`.
pub open spec fn unit_range(v: int) -> bool {
    -scale() <= v <= scale()
}

/// Clamp into `[-1, 1]` the way `push` does: `max(-1)` then `min(1)`.
pub open spec fn clamp_unit(v: int) -> int {
    min_bits(max_bits(v, -scale()), scale())
}

/// Sum of the squared axes, each square a Q32.32 product.
pub open spec fn sum_squares(c: Cosmology) -> int {
    mul_bits(c.empirical@, c.empirical@) + mul_bits(c.communitarian@, c.communitarian@) + mul_bits(
        c.reformist@,
        c.reformist@,
    ) + mul_bits(c.mystical@, c.mystical@) + mul_bits(c.hierarchical@, c.hierarchical@)
}

/// A square of a unit value is a unit value.
proof fn lemma_unit_square(a: int)
    requires
        unit_range(a),
    ensures
        0 <= mul_bits(a, a) <= scale(),
        mul_ok(a, a),
{
    lemma_mul_bits_bound(a, a);
    assert(a * a <= scale() * scale()) by (nonlinear_arith) requires -scale() <= a <= scale();
    assert(a * a >= 0) by (nonlinear_arith);
    assert(abs_int(a) * abs_int(a) == a * a) by (nonlinear_arith);
    vstd::arithmetic::div_mod::lemma_div_pos_is_pos(a * a, scale());
    assert(mul_bits(a, a) * scale() <= a * a) by {
        vstd::arithmetic::div_mod::lemma_fundamental_div_mod(a * a, scale());
        vstd::arithmetic::div_mod::lemma_mod_bound(a * a, scale());
    }
    assert(mul_bits(a, a) <= scale()) by (nonlinear_arith)
        requires mul_bits(a, a) * scale() <= a * a, a * a <= scale() * scale(), scale() > 0;
}

/// `m` is the L2 norm of a vector whose Q32.32 sum of squares is `ss`:
/// zero for a zero sum, otherwise the square root as `sqrt` computes it.
pub open spec fn norm_rel(ss: int, m: int) -> bool {
    (ss == 0 && m == 0) || (ss > 0 && sqrt_result(ss * scale(), m))
}

/// `d` is the dogmatism of `c`: its norm over `√5`, clamped into
/// `[0, 1]`.
pub open spec fn dogmatism_rel(c: Cosmology, d: int) -> bool {
    exists|m: int| norm_rel(sum_squares(c), m) && d == clamp01_bits(#[trigger] div_bits(m, sqrt5_bits()))
}

/// `√5` in Q32.32 as `sqrt` computes it.
pub open spec fn sqrt5_bits() -> int {
    9603838834
}

/// The integer square root is unique.
proof fn lemma_isqrt_unique(s: int, a: int, b: int)
    requires
        crate::transcendental::is_isqrt(s, a),
        crate::transcendental::is_isqrt(s, b),
    ensures
        a == b,
{
    if a < b {
        assert((a + 1) * (a + 1) <= b * b) by (nonlinear_arith) requires 0 <= a + 1 <= b;
    }
    if b < a {
        assert((b + 1) * (b + 1) <= a * a) by (nonlinear_arith) requires 0 <= b + 1 <= a;
    }
}

/// `sqrt(5)` lands on `9603838834`.
proof fn lemma_sqrt5_value(y: int)
    requires
        sqrt_result(5 * scale() * scale(), y),
    ensures
        y == sqrt5_bits(),
{
    let s = 5 * scale() * scale();
    let r = 9603838834int;
    assert(crate::transcendental::is_isqrt(s, r));
    if crate::transcendental::is_isqrt(s, y) {
        lemma_isqrt_unique(s, y, r);
    } else {
        lemma_isqrt_unique(s, y - 1, r);
        assert(s + 1 != (r + 1) * (r + 1));
    }
}

/// A norm of a sum of squares at most `k·2^32` is at most
/// `√k`-ish: its square is at most `ss·2^32 + 1`.
proof fn lemma_norm_square(ss: int, m: int)
    requires
        norm_rel(ss, m),
        ss >= 0,
    ensures
        m >= 0,
        m * m <= ss * scale() + 1,
{
    if ss > 0 {
        if crate::transcendental::is_isqrt(ss * scale(), m) {
        } else {
            assert(m * m == ss * scale() + 1);
            assert(m - 1 >= 0);
        }
    }
}

/// The quotient of a norm of at most `√5` by `√5` is representable and
/// non-negative.
proof fn lemma_norm_over_sqrt5(m: int)
    requires
        m >= 0,
        m * m <= 5 * scale() * scale() + 1,
    ensures
        crate::arith::div_ok(m, sqrt5_bits()),
        div_bits(m, sqrt5_bits()) >= 0,
{
    if m > 9603838835 {
        assert(m * m > 9603838835int * 9603838835) by (nonlinear_arith) requires m > 9603838835int;
    }
    let p = m * scale();
    assert(0 <= p <= 9603838835int * scale()) by (nonlinear_arith)
        requires p == m * scale(), 0 <= m <= 9603838835int, scale() > 0;
    vstd::arithmetic::div_mod::lemma_div_pos_is_pos(p, sqrt5_bits());
    vstd::arithmetic::div_mod::lemma_div_is_ordered(p, 9603838835int * scale(), sqrt5_bits());
    assert((9603838835int * 4294967296) / 9603838834 <= 4294967297);
}

impl Cosmology {
    /// All axes in `[-1, 1]`.
    pub open spec fn wf(&self) -> bool {
        &&& unit_range(self.empirical@)
        &&& unit_range(self.communitarian@)
        &&& unit_range(self.reformist@)
        &&& unit_range(self.mystical@)
        &&& unit_range(self.hierarchical@)
    }

    /// The neutral cosmology: every axis zero.
    pub fn neutral() -> (c: Cosmology)
        ensures
            c.wf(),
            c.empirical@ == 0 && c.communitarian@ == 0 && c.reformist@ == 0 && c.mystical@ == 0
                && c.hierarchical@ == 0,
    {
        Cosmology {
            empirical: Real::zero(),
            communitarian: Real::zero(),
            reformist: Real::zero(),
            mystical: Real::zero(),
            hierarchical: Real::zero(),
        }
    }

    /// L2 norm of the axes.
    pub fn magnitude(&self) -> (r: Real)
        requires
            self.wf(),
        ensures
            norm_rel(sum_squares(*self), r@),
            0 <= sum_squares(*self) <= 5 * scale(),
    {
        proof {
            lemma_unit_square(self.empirical@);
            lemma_unit_square(self.communitarian@);
            lemma_unit_square(self.reformist@);
            lemma_unit_square(self.mystical@);
            lemma_unit_square(self.hierarchical@);
        }
        let s = self.empirical.mul(self.empirical).add(self.communitarian.mul(self.communitarian)).add(
            self.reformist.mul(self.reformist),
        ).add(self.mystical.mul(self.mystical)).add(self.hierarchical.mul(self.hierarchical));
        sqrt(s)
    }

    /// Dogmatism: magnitude over `√5`, clamped into `[0, 1]`.
    pub fn dogmatism(&self) -> (r: Real)
        requires
            self.wf(),
        ensures
            0 <= r@ <= scale(),
            dogmatism_rel(*self, r@),
    {
        let denom = sqrt(Real::from_int(5));
        proof {
            assert(crate::arith::int_bits(5) * scale() == 5 * scale() * scale());
            lemma_sqrt5_value(denom@);
        }
        let m = self.magnitude();
        proof {
            lemma_norm_square(sum_squares(*self), m@);
            assert(m@ * m@ <= 5 * scale() * scale() + 1) by (nonlinear_arith)
                requires m@ * m@ <= sum_squares(*self) * scale() + 1, sum_squares(*self) <= 5 * scale(),
                    scale() > 0;
            lemma_norm_over_sqrt5(m@);
        }
        let raw = m.div(denom);
        raw.max(Real::zero()).min(Real::one())
    }
}


/// Sum of the squared axis differences, each square a Q32.32 product.
pub open spec fn sum_squared_diffs(a: Cosmology, b: Cosmology) -> int {
    mul_bits(a.empirical@ - b.empirical@, a.empirical@ - b.empirical@) + mul_bits(
        a.communitarian@ - b.communitarian@,
        a.communitarian@ - b.communitarian@,
    ) + mul_bits(a.reformist@ - b.reformist@, a.reformist@ - b.reformist@) + mul_bits(
        a.mystical@ - b.mystical@,
        a.mystical@ - b.mystical@,
    ) + mul_bits(a.hierarchical@ - b.hierarchical@, a.hierarchical@ - b.hierarchical@)
}

/// A square of a value in `[-2, 2]` lies in `[0, 4]`.
proof fn lemma_double_unit_square(a: int)
    requires
        -2 * scale() <= a <= 2 * scale(),
    ensures
        0 <= mul_bits(a, a) <= 4 * scale(),
        mul_ok(a, a),
{
    lemma_mul_bits_bound(a, a);
    assert(a * a <= 4 * scale() * scale()) by (nonlinear_arith)
        requires -2 * scale() <= a <= 2 * scale();
    assert(a * a >= 0) by (nonlinear_arith);
    vstd::arithmetic::div_mod::lemma_div_pos_is_pos(a * a, scale());
    vstd::arithmetic::div_mod::lemma_fundamental_div_mod(a * a, scale());
    vstd::arithmetic::div_mod::lemma_mod_bound(a * a, scale());
    assert(mul_bits(a, a) <= 4 * scale()) by (nonlinear_arith)
        requires a * a == scale() * mul_bits(a, a) + (a * a) % scale(), (a * a) % scale() >= 0,
            a * a <= 4 * scale() * scale(), scale() > 0;
}

/// Clamping into `[-1, 1]` lands in `[-1, 1]`.
pub open spec fn push_axis(axis: int, push: int, magnitude: int) -> int {
    clamp_unit(axis + mul_bits(push, magnitude))
}

/// Whether pushing one axis by `push × magnitude` stays in range.
pub open spec fn push_axis_ok(axis: int, push: int, magnitude: int) -> bool {
    mul_ok(push, magnitude) && fits(axis + mul_bits(push, magnitude))
}

impl Cosmology {
    /// L2 distance to another cosmology.
    pub fn distance_to(&self, other: &Cosmology) -> (r: Real)
        requires
            self.wf(),
            other.wf(),
        ensures
            norm_rel(sum_squared_diffs(*self, *other), r@),
    {
        let de = self.empirical.sub(other.empirical);
        let dc = self.communitarian.sub(other.communitarian);
        let dr = self.reformist.sub(other.reformist);
        let dm = self.mystical.sub(other.mystical);
        let dh = self.hierarchical.sub(other.hierarchical);
        proof {
            lemma_double_unit_square(de@);
            lemma_double_unit_square(dc@);
            lemma_double_unit_square(dr@);
            lemma_double_unit_square(dm@);
            lemma_double_unit_square(dh@);
        }
        sqrt(de.mul(de).add(dc.mul(dc)).add(dr.mul(dr)).add(dm.mul(dm)).add(dh.mul(dh)))
    }

    /// Add `push × magnitude` to every axis, then clamp each into
    /// `[-1, 1]`. The original overflows (and panics) when a product or
    /// sum leaves the representable range; those inputs are excluded.
    pub fn push(&mut self, push: &Cosmology, magnitude: Real)
        requires
            push_axis_ok(old(self).empirical@, push.empirical@, magnitude@),
            push_axis_ok(old(self).communitarian@, push.communitarian@, magnitude@),
            push_axis_ok(old(self).reformist@, push.reformist@, magnitude@),
            push_axis_ok(old(self).mystical@, push.mystical@, magnitude@),
            push_axis_ok(old(self).hierarchical@, push.hierarchical@, magnitude@),
        ensures
            final(self).wf(),
            final(self).empirical@ == push_axis(old(self).empirical@, push.empirical@, magnitude@),
            final(self).communitarian@ == push_axis(
                old(self).communitarian@,
                push.communitarian@,
                magnitude@,
            ),
            final(self).reformist@ == push_axis(old(self).reformist@, push.reformist@, magnitude@),
            final(self).mystical@ == push_axis(old(self).mystical@, push.mystical@, magnitude@),
            final(self).hierarchical@ == push_axis(
                old(self).hierarchical@,
                push.hierarchical@,
                magnitude@,
            ),
    {
        let lo = Real::one().neg();
        let hi = Real::one();
        self.empirical = self.empirical.add(push.empirical.mul(magnitude)).max(lo).min(hi);
        self.communitarian = self.communitarian.add(push.communitarian.mul(magnitude)).max(lo).min(
            hi,
        );
        self.reformist = self.reformist.add(push.reformist.mul(magnitude)).max(lo).min(hi);
        self.mystical = self.mystical.add(push.mystical.mul(magnitude)).max(lo).min(hi);
        self.hierarchical = self.hierarchical.add(push.hierarchical.mul(magnitude)).max(lo).min(hi);
    }

    /// The axes as raw Q32.32 bits, for protocol events.
    pub fn axes_q32(&self) -> (v: [i64; 5])
        ensures
            v@ == seq![
                self.empirical@ as i64,
                self.communitarian@ as i64,
                self.reformist@ as i64,
                self.mystical@ as i64,
                self.hierarchical@ as i64,
            ],
    {
        let v = [
            self.empirical.to_bits(),
            self.communitarian.to_bits(),
            self.reformist.to_bits(),
            self.mystical.to_bits(),
            self.hierarchical.to_bits(),
        ];
        assert(v@ =~= seq![
            self.empirical@ as i64,
            self.communitarian@ as i64,
            self.reformist@ as i64,
            self.mystical@ as i64,
            self.hierarchical@ as i64,
        ]);
        v
    }
}

/// A push vector from whole-number thousandths.
fn push_vector(e: i64, c: i64, r: i64, m: i64, h: i64) -> (p: Cosmology)
    requires
        -1000 <= e <= 1000,
        -1000 <= c <= 1000,
        -1000 <= r <= 1000,
        -1000 <= m <= 1000,
        -1000 <= h <= 1000,
    ensures
        p.empirical@ == ratio_bits(e as int, 1000),
        p.communitarian@ == ratio_bits(c as int, 1000),
        p.reformist@ == ratio_bits(r as int, 1000),
        p.mystical@ == ratio_bits(m as int, 1000),
        p.hierarchical@ == ratio_bits(h as int, 1000),
{
    Cosmology {
        empirical: Real::from_ratio(e, 1000),
        communitarian: Real::from_ratio(c, 1000),
        reformist: Real::from_ratio(r, 1000),
        mystical: Real::from_ratio(m, 1000),
        hierarchical: Real::from_ratio(h, 1000),
    }
}

/// Push for a confirmed relation: more empirical and reformist, less
/// mystical.
pub fn push_for_relation_confirmed() -> (p: Cosmology)
    ensures
        p.empirical@ == ratio_bits(25, 1000),
        p.communitarian@ == 0,
        p.reformist@ == ratio_bits(10, 1000),
        p.mystical@ == ratio_bits(-20, 1000),
        p.hierarchical@ == 0,
{
    push_vector(25, 0, 10, -20, 0)
}

/// Push for a proposed refinement.
pub fn push_for_refinement_proposed() -> (p: Cosmology)
    ensures
        p.empirical@ == ratio_bits(10, 1000),
        p.communitarian@ == 0,
        p.reformist@ == ratio_bits(20, 1000),
        p.mystical@ == 0,
        p.hierarchical@ == 0,
{
    push_vector(10, 0, 20, 0, 0)
}

/// Push for a confirmed refinement.
pub fn push_for_refinement_confirmed() -> (p: Cosmology)
    ensures
        p.empirical@ == ratio_bits(20, 1000),
        p.communitarian@ == 0,
        p.reformist@ == ratio_bits(30, 1000),
        p.mystical@ == ratio_bits(-10, 1000),
        p.hierarchical@ == 0,
{
    push_vector(20, 0, 30, -10, 0)
}

/// Push for a rejected refinement: away from empiricism and reform,
/// toward mysticism and hierarchy.
pub fn push_for_refinement_rejected() -> (p: Cosmology)
    ensures
        p.empirical@ == ratio_bits(-10, 1000),
        p.communitarian@ == 0,
        p.reformist@ == ratio_bits(-20, 1000),
        p.mystical@ == ratio_bits(20, 1000),
        p.hierarchical@ == ratio_bits(10, 1000),
{
    push_vector(-10, 0, -20, 20, 10)
}

/// Push for a civ collapse: toward community, mysticism and hierarchy,
/// away from reform.
pub fn push_for_civ_collapsed() -> (p: Cosmology)
    ensures
        p.empirical@ == 0,
        p.communitarian@ == ratio_bits(50, 1000),
        p.reformist@ == ratio_bits(-50, 1000),
        p.mystical@ == ratio_bits(75, 1000),
        p.hierarchical@ == ratio_bits(25, 1000),
{
    push_vector(0, 50, -50, 75, 25)
}

/// Unclamped distance of a form from the civ's preference, in bits.
pub open spec fn form_distance_raw(form: Form, c: Cosmology) -> int {
    let one = scale();
    let half = 2147483648int;
    let quarter = 1073741824int;
    match form {
        Form::Constant => mul_bits(one + c.reformist@, half),
        Form::Linear => 0,
        Form::ThresholdStep => mul_bits(one - c.empirical@, half),
        Form::Polynomial2 | Form::Polynomial3 => mul_bits(
            one - mul_bits(c.reformist@ + c.empirical@, half),
            half,
        ),
        Form::PeriodicSine => mul_bits(one - c.mystical@, half),
        Form::ExpDecay | Form::ExpGrowth => mul_bits((one - c.empirical@) + c.reformist@, quarter),
        Form::Logistic => mul_bits(one - c.reformist@, half),
        Form::PowerLaw => mul_bits((one - c.empirical@) + (one - c.reformist@), quarter),
        Form::Logarithmic | Form::InverseSquare => mul_bits(one - c.empirical@, half),
    }
}

/// Small Q32.32 products by one half or one quarter never overflow.
proof fn lemma_small_product(a: int, b: int)
    requires
        -4 * scale() <= a <= 4 * scale(),
        0 <= b <= scale(),
    ensures
        mul_ok(a, b),
        abs_int(mul_bits(a, b)) <= 4 * scale() + 1,
{
    lemma_mul_bits_bound(a, b);
    assert(abs_int(a) * b <= 4 * scale() * scale()) by (nonlinear_arith)
        requires abs_int(a) <= 4 * scale(), 0 <= b <= scale();
    assert(abs_int(a * b) == abs_int(a) * b) by (nonlinear_arith) requires b >= 0;
    assert(abs_int(mul_bits(a, b)) <= 4 * scale() + 1) by (nonlinear_arith)
        requires scale() * abs_int(mul_bits(a, b)) <= abs_int(a) * abs_int(b) + scale(),
            abs_int(a) * abs_int(b) <= 4 * scale() * scale(), scale() > 0, abs_int(b) == b;
}

/// Distance `[0, 1]` between a form and the civ's cosmology
/// preference; higher is more heretical.
pub fn form_distance(form: Form, cosmology: &Cosmology) -> (r: Real)
    requires
        cosmology.wf(),
    ensures
        r@ == clamp01_bits(form_distance_raw(form, *cosmology)),
{
    let half = Real::from_ratio(1, 2);
    let quarter = Real::from_ratio(1, 4);
    let one = Real::one();
    proof {
        assert(ratio_bits(1, 2) == 2147483648);
        assert(ratio_bits(1, 4) == 1073741824);
        lemma_small_product(one@ + cosmology.reformist@, half@);
        lemma_small_product(one@ - cosmology.empirical@, half@);
        lemma_small_product(cosmology.reformist@ + cosmology.empirical@, half@);
        lemma_small_product(one@ - mul_bits(cosmology.reformist@ + cosmology.empirical@, half@), half@);
        lemma_small_product(one@ - cosmology.mystical@, half@);
        lemma_small_product((one@ - cosmology.empirical@) + cosmology.reformist@, quarter@);
        lemma_small_product(one@ - cosmology.reformist@, half@);
        lemma_small_product((one@ - cosmology.empirical@) + (one@ - cosmology.reformist@), quarter@);
    }
    let raw = match form {
        Form::Constant => one.add(cosmology.reformist).mul(half),
        Form::Linear => Real::zero(),
        Form::ThresholdStep => one.sub(cosmology.empirical).mul(half),
        Form::Polynomial2 | Form::Polynomial3 => {
            one.sub(cosmology.reformist.add(cosmology.empirical).mul(half)).mul(half)
        },
        Form::PeriodicSine => one.sub(cosmology.mystical).mul(half),
        Form::ExpDecay | Form::ExpGrowth => {
            one.sub(cosmology.empirical).add(cosmology.reformist).mul(quarter)
        },
        Form::Logistic => one.sub(cosmology.reformist).mul(half),
        Form::PowerLaw => {
            one.sub(cosmology.empirical).add(one.sub(cosmology.reformist)).mul(quarter)
        },
        Form::Logarithmic | Form::InverseSquare => one.sub(cosmology.empirical).mul(half),
    };
    raw.max(Real::zero()).min(Real::one())
}

} // verus!
