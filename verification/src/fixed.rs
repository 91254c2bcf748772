//! Fixed-point numbers: signed 64-bit counts of millionths.
//!
//! A [`Fixed`] with `raw = r` denotes the rational number `r / 1_000_000`.
//! Every operation is total: results outside the representable range are
//! clamped to the nearest bound (saturation), and each contract states the
//! exact outcome, clamping included, over plain integers.

use vstd::prelude::*;

verus! {

/// Raw units per 1.0 of value.
pub const UNIT: i64 = 1_000_000;

/// Clamp an unbounded integer into the `i64` range.
pub open spec fn sat64(v: int) -> int {
    if v > i64::MAX {
        i64::MAX as int
    } else if v < i64::MIN {
        i64::MIN as int
    } else {
        v
    }
}

/// Quotient of `a / b` rounded toward zero, for a positive divisor `b`
/// (the spec-level `/` rounds toward negative infinity on a negative
/// dividend; executable Rust division truncates, and this names that).
pub open spec fn tdiv(a: int, b: int) -> int {
    if a >= 0 {
        a / b
    } else {
        -((-a) / b)
    }
}

/// Quotient of `a / b` rounded toward positive infinity, for `b > 0`.
pub open spec fn cdiv(a: int, b: int) -> int {
    -((-a) / b)
}

/// Value of `a + b` in fixed-point raw units.
pub open spec fn fadd(a: int, b: int) -> int {
    sat64(a + b)
}

/// Value of `a - b` in fixed-point raw units.
pub open spec fn fsub(a: int, b: int) -> int {
    sat64(a - b)
}

/// Product of two fixed-point values in raw units: the exact rational
/// product, rounded toward zero to a whole count of millionths, clamped.
pub open spec fn fmul(a: int, b: int) -> int {
    sat64(tdiv(a * b, UNIT as int))
}

/// Quotient of two fixed-point values in raw units (`b > 0`): the exact
/// rational quotient, rounded toward zero to a whole count of millionths,
/// clamped.
pub open spec fn fdiv(a: int, b: int) -> int {
    sat64(tdiv(a * (UNIT as int), b))
}

/// A fixed-point number; the value is `raw` millionths.
#[derive(Clone, Copy, Debug, PartialEq, Eq, Structural)]
pub struct Fixed {
    pub raw: i64,
}

impl View for Fixed {
    type V = int;

    open spec fn view(&self) -> int {
        self.raw as int
    }
}

impl Fixed {
    /// The number holding exactly `raw` millionths.
    pub fn from_raw(raw: i64) -> (r: Fixed)
        ensures
            r@ == raw as int,
    {
        Fixed { raw }
    }

    /// The number 0.
    pub fn zero() -> (r: Fixed)
        ensures
            r@ == 0,
    {
        Fixed { raw: 0 }
    }

    /// The whole number `v`, clamped to the representable range.
    pub fn from_int(v: i64) -> (r: Fixed)
        ensures
            r@ == sat64(v * (UNIT as int)),
    {
        proof {
            lemma_i64_mul_fits(v as int, UNIT as int);
        }
        let wide: i128 = (v as i128) * (UNIT as i128);
        Fixed { raw: clamp_to_i64(wide) }
    }

    /// Saturating addition.
    pub fn plus(self, o: Fixed) -> (r: Fixed)
        ensures
            r@ == fadd(self@, o@),
    {
        let wide: i128 = (self.raw as i128) + (o.raw as i128);
        Fixed { raw: clamp_to_i64(wide) }
    }

    /// Saturating subtraction.
    pub fn minus(self, o: Fixed) -> (r: Fixed)
        ensures
            r@ == fsub(self@, o@),
    {
        let wide: i128 = (self.raw as i128) - (o.raw as i128);
        Fixed { raw: clamp_to_i64(wide) }
    }

    /// Saturating fixed-point multiplication.
    pub fn times(self, o: Fixed) -> (r: Fixed)
        ensures
            r@ == fmul(self@, o@),
    {
        proof {
            lemma_i64_mul_fits(self.raw as int, o.raw as int);
        }
        let prod: i128 = (self.raw as i128) * (o.raw as i128);
        let q: i128 = div_trunc_i128(prod, UNIT as i128);
        proof {
            lemma_tdiv_i128_bounds(prod as int, UNIT as int);
        }
        Fixed { raw: clamp_to_i64(q) }
    }

    /// Saturating fixed-point division by a positive number.
    pub fn over(self, o: Fixed) -> (r: Fixed)
        requires
            o@ > 0,
        ensures
            r@ == fdiv(self@, o@),
    {
        proof {
            lemma_i64_mul_fits(self.raw as int, UNIT as int);
        }
        let wide: i128 = (self.raw as i128) * (UNIT as i128);
        let q: i128 = div_trunc_i128(wide, o.raw as i128);
        proof {
            lemma_tdiv_i128_bounds(wide as int, o.raw as int);
        }
        Fixed { raw: clamp_to_i64(q) }
    }
}

/// Clamp a 128-bit intermediate into `i64`.
pub(crate) fn clamp_to_i64(v: i128) -> (r: i64)
    ensures
        r as int == sat64(v as int),
{
    if v > i64::MAX as i128 {
        i64::MAX
    } else if v < i64::MIN as i128 {
        i64::MIN
    } else {
        v as i64
    }
}

/// `a / b` rounded toward zero on `i128`, for `b > 0`; total because the
/// sole overflowing case (`i128::MIN / -1`) needs a negative divisor.
pub(crate) fn div_trunc_i128(a: i128, b: i128) -> (r: i128)
    requires
        b > 0,
    ensures
        r as int == tdiv(a as int, b as int),
{
    proof {
        lemma_tdiv_i128_bounds(a as int, b as int);
    }
    a.checked_div(b).unwrap()
}

/// For `b > 0` the truncated quotient can be no larger in magnitude than
/// the dividend, so it stays in any range that holds the dividend.
proof fn lemma_tdiv_i128_bounds(a: int, b: int)
    requires
        b > 0,
    ensures
        a >= 0 ==> 0 <= tdiv(a, b) <= a,
        a < 0 ==> a <= tdiv(a, b) <= 0,
{
    if a >= 0 {
        vstd::arithmetic::div_mod::lemma_div_is_ordered_by_denominator(a, 1, b);
        vstd::arithmetic::div_mod::lemma_div_basics(a);
        vstd::arithmetic::div_mod::lemma_div_pos_is_pos(a, b);
    } else {
        vstd::arithmetic::div_mod::lemma_div_is_ordered_by_denominator(-a, 1, b);
        vstd::arithmetic::div_mod::lemma_div_basics(-a);
        vstd::arithmetic::div_mod::lemma_div_pos_is_pos(-a, b);
    }
}

/// Characterization of truncating division: quotient times divisor misses
/// the dividend by a remainder smaller than the divisor, on the dividend's
/// side of zero.
pub proof fn lemma_tdiv_rem(a: int, b: int)
    requires
        b > 0,
    ensures
        a == b * tdiv(a, b) + (a - b * tdiv(a, b)),
        a >= 0 ==> 0 <= a - b * tdiv(a, b) < b,
        a < 0 ==> -b < a - b * tdiv(a, b) <= 0,
{
    if a >= 0 {
        vstd::arithmetic::div_mod::lemma_fundamental_div_mod(a, b);
        vstd::arithmetic::div_mod::lemma_mod_bound(a, b);
    } else {
        let q = (-a) / b;
        let m = (-a) % b;
        vstd::arithmetic::div_mod::lemma_fundamental_div_mod(-a, b);
        vstd::arithmetic::div_mod::lemma_mod_bound(-a, b);
        assert(-a == b * q + m);
        vstd::arithmetic::mul::lemma_mul_unary_negation(b, q);
        assert(tdiv(a, b) == -q);
        assert(a == b * (-q) - m);
    }
}

/// The product of two `i64`-range factors stays far inside the `i128` range.
pub proof fn lemma_i64_mul_fits(a: int, b: int)
    requires
        i64::MIN <= a <= i64::MAX,
        i64::MIN <= b <= i64::MAX,
    ensures
        -0x40000000000000000000000000000000 <= a * b <= 0x40000000000000000000000000000000,
{
    assert(-0x40000000000000000000000000000000 <= a * b <= 0x40000000000000000000000000000000)
        by (nonlinear_arith)
        requires
            -0x8000000000000000 <= a <= 0x8000000000000000,
            -0x8000000000000000 <= b <= 0x8000000000000000,
    ;
}

} // verus!
