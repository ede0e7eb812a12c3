//! Fixed-point decimal arithmetic with four decimal places.

use vstd::prelude::*;

verus! {

/// Scaling factor for fixed-point arithmetic (4 decimal places).
pub const SCALE: i32 = 10000;

/// Half of the scaling factor, used for rounding.
pub const HALF_SCALE: i64 = 5000;

/// Integer division rounding toward zero, as Rust's `/` on signed integers:
/// the quotient of the magnitudes, negated when the signs differ.
pub open spec fn div_trunc(a: int, b: int) -> int
    recommends
        b != 0,
{
    if a >= 0 {
        if b > 0 {
            a / b
        } else {
            -(a / (-b))
        }
    } else {
        if b > 0 {
            -((-a) / b)
        } else {
            (-a) / (-b)
        }
    }
}

/// Raw value of a product, as [`Decimal::mul`] computes it.
pub open spec fn mul_raw(a: i64, b: i64) -> i64 {
    div_trunc(a as int * b as int, 10000) as i64
}

/// Raw value of a quotient, as [`Decimal::div`] computes it.
pub open spec fn div_raw(a: i64, b: i64) -> i64 {
    if b == 0 {
        0
    } else {
        div_trunc(a as int * 10000, b as int) as i64
    }
}

impl core::ops::Add for Decimal {
    type Output = Self;

    /// Sum of the raw values.
    fn add(self, other: Self) -> (d: Self)
        ensures
            d.0 == self.0 + other.0,
    {
        Decimal(self.0 + other.0)
    }
}

impl vstd::std_specs::ops::AddSpecImpl for Decimal {
    open spec fn obeys_add_spec() -> bool {
        true
    }

    open spec fn add_req(self, rhs: Decimal) -> bool {
        i64::MIN <= self.0 + rhs.0 <= i64::MAX
    }

    open spec fn add_spec(self, rhs: Decimal) -> Decimal {
        Decimal((self.0 + rhs.0) as i64)
    }
}

impl core::ops::Sub for Decimal {
    type Output = Self;

    /// Difference of the raw values.
    fn sub(self, other: Self) -> (d: Self)
        ensures
            d.0 == self.0 - other.0,
    {
        Decimal(self.0 - other.0)
    }
}

impl vstd::std_specs::ops::SubSpecImpl for Decimal {
    open spec fn obeys_sub_spec() -> bool {
        true
    }

    open spec fn sub_req(self, rhs: Decimal) -> bool {
        i64::MIN <= self.0 - rhs.0 <= i64::MAX
    }

    open spec fn sub_spec(self, rhs: Decimal) -> Decimal {
        Decimal((self.0 - rhs.0) as i64)
    }
}

impl core::ops::Neg for Decimal {
    type Output = Self;

    /// Negated raw value.
    fn neg(self) -> (d: Self)
        ensures
            d.0 == -self.0,
    {
        Decimal(-self.0)
    }
}

impl vstd::std_specs::ops::NegSpecImpl for Decimal {
    open spec fn obeys_neg_spec() -> bool {
        true
    }

    open spec fn neg_req(self) -> bool {
        self.0 != i64::MIN
    }

    open spec fn neg_spec(self) -> Decimal {
        Decimal((-self.0) as i64)
    }
}

impl core::ops::Mul for Decimal {
    type Output = Self;

    /// Same as [`Decimal::mul`].
    fn mul(self, other: Self) -> (d: Self)
        ensures
            d.0 == mul_raw(self.0, other.0),
    {
        Decimal::mul(self, other)
    }
}

impl vstd::std_specs::ops::MulSpecImpl for Decimal {
    open spec fn obeys_mul_spec() -> bool {
        true
    }

    open spec fn mul_req(self, rhs: Decimal) -> bool {
        true
    }

    open spec fn mul_spec(self, rhs: Decimal) -> Decimal {
        Decimal(mul_raw(self.0, rhs.0))
    }
}

impl core::ops::Div for Decimal {
    type Output = Self;

    /// Same as [`Decimal::div`].
    fn div(self, other: Self) -> (d: Self)
        ensures
            d.0 == div_raw(self.0, other.0),
    {
        Decimal::div(self, other)
    }
}

impl vstd::std_specs::ops::DivSpecImpl for Decimal {
    open spec fn obeys_div_spec() -> bool {
        true
    }

    open spec fn div_req(self, rhs: Decimal) -> bool {
        true
    }

    open spec fn div_spec(self, rhs: Decimal) -> Decimal {
        Decimal(div_raw(self.0, rhs.0))
    }
}

/// Euclidean division by a negative divisor is the negated quotient by its magnitude.
proof fn lemma_div_negative_divisor(x: int, d: int)
    by (nonlinear_arith)
    requires
        d < 0,
    ensures
        x / d == -(x / (-d)),
{
}

/// Quotient of magnitudes never exceeds the dividend's magnitude, and is
/// strictly smaller when the divisor's magnitude is at least 2.
proof fn lemma_quotient_bound(x: int, d: int)
    by (nonlinear_arith)
    requires
        x >= 0,
        d >= 1,
    ensures
        0 <= x / d <= x,
        d >= 2 && x > 0 ==> x / d < x,
{
}

/// Truncating division stays within `i64` unless it is `i64::MIN / -1`.
proof fn lemma_div_trunc_bound(a: int, b: int)
    requires
        b != 0,
        i64::MIN <= a <= i64::MAX,
        !(a == i64::MIN && b == -1),
    ensures
        i64::MIN <= div_trunc(a, b) <= i64::MAX,
{
    let ma = if a >= 0 { a } else { -a };
    let mb = if b > 0 { b } else { -b };
    lemma_quotient_bound(ma, mb);
}

/// Rust's signed division (Euclidean on magnitudes as Verus models it) is `div_trunc`.
proof fn lemma_signed_div_is_trunc(a: int, b: int)
    requires
        b != 0,
    ensures
        (if a >= 0 { a / b } else { -((-a) / b) }) == div_trunc(a, b),
{
    if b < 0 {
        lemma_div_negative_divisor(a, b);
        lemma_div_negative_divisor(-a, b);
    }
}

/// Fixed-point number with 4 decimal places of precision: the value it
/// stands for is `raw / SCALE`.
#[derive(Debug, Clone, Copy, PartialEq, Eq, Structural, PartialOrd, Ord)]
pub struct Decimal(pub i64);

impl Decimal {
    /// Create from an integer value
    pub fn from_int(value: i32) -> (d: Self)
        ensures
            d.0 == value as int * 10000,
    {
        assert(-0x8000_0000_0000_0000 <= value as int * 10000 <= 0x7fff_ffff_ffff_ffff) by (nonlinear_arith)
            requires
                -0x8000_0000 <= value <= 0x7fff_ffff,
        ;
        Decimal(value as i64 * SCALE as i64)
    }

    /// Create from a u16 value
    pub fn from_u16(value: u16) -> (d: Self)
        ensures
            d.0 == value as int * 10000,
    {
        assert(0 <= value as int * 10000 <= 0x7fff_ffff_ffff_ffff) by (nonlinear_arith)
            requires
                0 <= value <= 0xffff,
        ;
        Decimal(value as i64 * SCALE as i64)
    }

    /// Create from a fraction (numerator / denominator), truncated toward zero
    /// at the fourth decimal place; a zero denominator gives zero.
    pub fn from_frac(numerator: i32, denominator: i32) -> (d: Self)
        ensures
            denominator == 0 ==> d.0 == 0,
            denominator != 0 ==> d.0 == (div_trunc(
                numerator as int * 10000 * 10000,
                denominator as int * 10000,
            ) as i64),
    {
        if denominator == 0 {
            return Decimal(0);
        }
        let num = Decimal::from_int(numerator);
        let den = Decimal::from_int(denominator);
        num.div(den)
    }

    /// Convert to integer, rounding half away from zero.
    pub fn to_int_rounded(self) -> (r: i32)
        requires
            i64::MIN + 5000 <= self.0 <= i64::MAX - 5000,
        ensures
            self.0 >= 0 ==> r == (div_trunc(self.0 + 5000, 10000) as i32),
            self.0 < 0 ==> r == (div_trunc(self.0 - 5000, 10000) as i32),
    {
        if self.0 >= 0 {
            ((self.0 + HALF_SCALE) / SCALE as i64) as i32
        } else {
            ((self.0 - HALF_SCALE) / SCALE as i64) as i32
        }
    }

    /// Convert to u16 with rounding and clamping to `0..=u16::MAX`.
    pub fn to_u16_rounded(self) -> (r: u16)
        requires
            i64::MIN + 5000 <= self.0 <= i64::MAX - 5000,
        ensures
            ({
                let i = if self.0 >= 0 {
                    div_trunc(self.0 + 5000, 10000) as i32
                } else {
                    div_trunc(self.0 - 5000, 10000) as i32
                };
                r == if i < 0 {
                    0
                } else if i > 65535 {
                    65535
                } else {
                    i
                }
            }),
    {
        let i = self.to_int_rounded();
        if i < 0 {
            0
        } else if i > u16::MAX as i32 {
            u16::MAX
        } else {
            i as u16
        }
    }

    /// Get the raw scaled value
    pub fn raw(self) -> (r: i64)
        ensures
            r == self.0,
    {
        self.0
    }

    /// Divide by an integer (toward zero); dividing by zero gives zero.
    pub fn div_int(self, other: i32) -> (d: Self)
        requires
            !(self.0 == i64::MIN && other == -1),
        ensures
            other == 0 ==> d.0 == 0,
            other != 0 ==> d.0 == div_trunc(self.0 as int, other as int),
    {
        if other == 0 {
            return Decimal(0);
        }
        let q = (self.0 as i128) / (other as i128);
        proof {
            lemma_signed_div_is_trunc(self.0 as int, other as int);
            lemma_div_trunc_bound(self.0 as int, other as int);
        }
        Decimal(q as i64)
    }

    /// Multiply two fixed-point numbers
    pub fn mul(self, other: Self) -> (d: Self)
        ensures
            d.0 == (div_trunc(self.0 as int * other.0 as int, 10000) as i64),
    {
        assert(-0x8000_0000_0000_0000_0000_0000_0000_0000 <= self.0 as int * other.0 as int
            <= 0x7fff_ffff_ffff_ffff_ffff_ffff_ffff_ffff) by (nonlinear_arith)
            requires
                -0x8000_0000_0000_0000 <= self.0 <= 0x7fff_ffff_ffff_ffff,
                -0x8000_0000_0000_0000 <= other.0 <= 0x7fff_ffff_ffff_ffff,
        ;
        let scaled = (self.0 as i128) * (other.0 as i128);
        proof {
            lemma_signed_div_is_trunc(scaled as int, 10000);
        }
        Decimal((scaled / SCALE as i128) as i64)
    }

    /// Divide two fixed-point numbers; dividing by zero gives zero.
    pub fn div(self, other: Self) -> (d: Self)
        ensures
            other.0 == 0 ==> d.0 == 0,
            other.0 != 0 ==> d.0 == (div_trunc(self.0 as int * 10000, other.0 as int) as i64),
    {
        if other.0 == 0 {
            return Decimal(0);
        }
        assert(-0x8000_0000_0000_0000_0000_0000_0000_0000 <= self.0 as int * 10000
            <= 0x7fff_ffff_ffff_ffff_ffff_ffff_ffff_ffff) by (nonlinear_arith)
            requires
                -0x8000_0000_0000_0000 <= self.0 <= 0x7fff_ffff_ffff_ffff,
        ;
        let scaled = (self.0 as i128) * (SCALE as i128);
        proof {
            lemma_signed_div_is_trunc(scaled as int, other.0 as int);
        }
        Decimal((scaled / other.0 as i128) as i64)
    }
}

} // verus!
