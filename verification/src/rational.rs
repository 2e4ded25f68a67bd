//! Exact rational numbers over machine integers.
//!
//! Every monetary amount and every exchange rate in this library is a
//! `Rational`: a signed numerator over a positive denominator. All
//! arithmetic is exact; nothing is ever rounded.

use vstd::prelude::*;

verus! {

/// Bound on the numerator and denominator of a rate held by a connector's
/// rate table (and hence, after one division, `RATE_LIMIT * RATE_LIMIT`
/// bounds the parts of any derived pairwise rate).
pub const RATE_LIMIT: i64 = 100;

/// Bound on the parts of an amount accepted by `exchange`, chosen so that
/// multiplying an in-range amount by a derived rate cannot overflow:
/// `AMOUNT_LIMIT * RATE_LIMIT * RATE_LIMIT <= i64::MAX`.
pub const AMOUNT_LIMIT: i64 = 922_337_203_685_477;

/// An exact rational number: `num / den` with `den > 0`.
#[derive(Clone, Copy, Debug)]
pub struct Rational {
    pub num: i64,
    pub den: i64,
}

impl Rational {
    /// A structurally valid rational: positive denominator.
    pub open spec fn wf(self) -> bool {
        self.den > 0
    }

    /// Whether an amount is small enough to be multiplied by any derived
    /// rate without overflowing (a machine limit, not a business rule).
    pub open spec fn in_range(self) -> bool {
        -AMOUNT_LIMIT <= self.num <= AMOUNT_LIMIT && 0 < self.den <= AMOUNT_LIMIT
    }

    /// Mathematical equality of two rationals, by cross-multiplication.
    pub open spec fn same_value(self, other: Rational) -> bool {
        self.num * other.den == other.num * self.den
    }

    /// Builds `num / den`.
    pub fn new(num: i64, den: i64) -> (r: Rational)
        requires
            den > 0,
        ensures
            r.num == num,
            r.den == den,
            r.wf(),
    {
        Rational { num, den }
    }

    /// Builds the integer `n` as a rational.
    pub fn from_int(n: i64) -> (r: Rational)
        ensures
            r.num == n,
            r.den == 1,
            r.wf(),
    {
        Rational { num: n, den: 1 }
    }

    /// Whether the exact product `self * other` fits the machine
    /// representation.
    pub fn mul_fits(&self, other: &Rational) -> (r: bool)
        ensures
            r == (i64::MIN <= self.num * other.num <= i64::MAX && i64::MIN <= self.den * other.den
                <= i64::MAX),
    {
        self.num.checked_mul(other.num).is_some() && self.den.checked_mul(other.den).is_some()
    }

    /// Exact product of two rationals.
    pub fn mul(&self, other: &Rational) -> (r: Rational)
        requires
            self.wf(),
            other.wf(),
            i64::MIN <= self.num * other.num <= i64::MAX,
            i64::MIN <= self.den * other.den <= i64::MAX,
        ensures
            r.num == self.num * other.num,
            r.den == self.den * other.den,
            r.wf(),
    {
        proof {
            lemma_pos_times_pos(self.den as int, other.den as int);
        }
        Rational { num: self.num * other.num, den: self.den * other.den }
    }
}

/// The product of two values in `i64`'s range fits comfortably in `i128`.
proof fn lemma_i64_product_fits_i128(a: int, b: int)
    requires
        i64::MIN <= a <= i64::MAX,
        i64::MIN <= b <= i64::MAX,
    ensures
        i128::MIN <= a * b <= i128::MAX,
{
    assert(i128::MIN <= a * b <= i128::MAX) by (nonlinear_arith)
        requires
            i64::MIN <= a <= i64::MAX,
            i64::MIN <= b <= i64::MAX,
    ;
}

/// The product of two positive integers is positive.
proof fn lemma_pos_times_pos(a: int, b: int)
    requires
        a > 0,
        b > 0,
    ensures
        a * b > 0,
{
    broadcast use vstd::arithmetic::mul::lemma_mul_strictly_positive;

}

impl PartialEq for Rational {
    /// Mathematical equality, not structural equality: `40/8 == 5/1`.
    fn eq(&self, other: &Rational) -> (r: bool) {
        proof {
            lemma_i64_product_fits_i128(self.num as int, other.den as int);
            lemma_i64_product_fits_i128(other.num as int, self.den as int);
        }
        (self.num as i128) * (other.den as i128) == (other.num as i128) * (self.den as i128)
    }
}

impl vstd::std_specs::cmp::PartialEqSpecImpl for Rational {
    open spec fn obeys_eq_spec() -> bool {
        true
    }

    open spec fn eq_spec(&self, other: &Rational) -> bool {
        self.same_value(*other)
    }
}

} // verus!
