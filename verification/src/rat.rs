//! Exact rational coordinates for the continuous-input walkers.
//!
//! The continuous algorithms (midpoint, anti-aliased, voxel traversal) are
//! defined over real inputs; this crate runs them over exact rationals, a
//! single wide numeric representation whose comparisons, rounding and
//! tie detection are exact, so every decision the walkers make is the
//! mathematical one.

use vstd::prelude::*;

verus! {

/// An exact rational number `num / den` with a positive denominator.
#[derive(Clone, Copy, Debug, PartialEq, Eq, Structural)]
pub struct Rat {
    pub num: i128,
    pub den: i128,
}

/// The denominator is positive.
pub open spec fn rat_wf(a: Rat) -> bool {
    a.den > 0
}

/// A rational small enough for the walkers' exact arithmetic: denominator
/// at most a thousand and magnitude at most a thousand.
pub open spec fn rat_small(a: Rat) -> bool {
    &&& 0 < a.den <= 1000
    &&& -1000 * a.den <= a.num <= 1000 * a.den
}

/// Value equality of two rationals, by cross-multiplication.
pub open spec fn rat_eq(a: Rat, b: Rat) -> bool {
    a.num * b.den == b.num * a.den
}

/// Value order of two rationals, by cross-multiplication.
pub open spec fn rat_lt(a: Rat, b: Rat) -> bool {
    a.num * b.den < b.num * a.den
}

/// The floor of a rational: the denominator is positive, so the Euclidean
/// quotient is the floor.
pub open spec fn rat_floor(a: Rat) -> int {
    a.num / a.den
}

/// Rounding to the nearest integer, halves away from zero.
pub open spec fn rat_round(a: Rat) -> int {
    if a.num >= 0 {
        (2 * a.num + a.den) / (2 * a.den)
    } else {
        -((2 * (-a.num) + a.den) / (2 * a.den))
    }
}

impl Rat {
    /// Build the rational `num / den`.
    pub fn new(num: i128, den: i128) -> (r: Rat)
        requires
            den > 0,
        ensures
            r.num == num,
            r.den == den,
            rat_wf(r),
    {
        Rat { num, den }
    }

    /// Build the rational `milli / 1000`: the value in thousandths.
    pub fn from_milli(milli: i64) -> (r: Rat)
        ensures
            r.num == milli as int,
            r.den == 1000,
            rat_wf(r),
    {
        Rat { num: milli as i128, den: 1000 }
    }

    /// Whether the two rationals denote the same value.
    pub fn eq_val(&self, other: &Rat) -> (r: bool)
        requires
            rat_wf(*self),
            rat_wf(*other),
            -4_000_000_000_000_000_000 <= self.num <= 4_000_000_000_000_000_000,
            0 < self.den <= 4_000_000_000_000_000_000,
            -4_000_000_000_000_000_000 <= other.num <= 4_000_000_000_000_000_000,
            0 < other.den <= 4_000_000_000_000_000_000,
        ensures
            r == rat_eq(*self, *other),
    {
        proof {
            lemma_rat_product_bound(self.num as int, other.den as int);
            lemma_rat_product_bound(other.num as int, self.den as int);
        }
        self.num * other.den == other.num * self.den
    }

    /// Whether `self` denotes a smaller value than `other`.
    pub fn lt(&self, other: &Rat) -> (r: bool)
        requires
            rat_wf(*self),
            rat_wf(*other),
            -4_000_000_000_000_000_000 <= self.num <= 4_000_000_000_000_000_000,
            0 < self.den <= 4_000_000_000_000_000_000,
            -4_000_000_000_000_000_000 <= other.num <= 4_000_000_000_000_000_000,
            0 < other.den <= 4_000_000_000_000_000_000,
        ensures
            r == rat_lt(*self, *other),
    {
        proof {
            lemma_rat_product_bound(self.num as int, other.den as int);
            lemma_rat_product_bound(other.num as int, self.den as int);
        }
        self.num * other.den < other.num * self.den
    }

    /// The floor of the value, for small rationals.
    pub fn floor_i64(&self) -> (r: i64)
        requires
            rat_small(*self),
        ensures
            r as int == rat_floor(*self),
            -1000 <= r <= 1000,
    {
        if self.num >= 0 {
            let q = self.num / self.den;
            proof {
                lemma_floor_nonneg(self.num as int, self.den as int);
            }
            q as i64
        } else {
            let t = -self.num;
            let q = (t + self.den - 1) / self.den;
            proof {
                lemma_floor_neg(self.num as int, self.den as int);
            }
            -(q as i64)
        }
    }

    /// The nearest integer to the value, halves away from zero, for small
    /// rationals.
    pub fn round_i64(&self) -> (r: i64)
        requires
            rat_small(*self),
        ensures
            r as int == rat_round(*self),
            -1001 <= r <= 1001,
    {
        if self.num >= 0 {
            let q = (2 * self.num + self.den) / (2 * self.den);
            proof {
                lemma_round_bound(self.num as int, self.den as int);
            }
            q as i64
        } else {
            let q = (2 * (-self.num) + self.den) / (2 * self.den);
            proof {
                lemma_round_bound(-self.num as int, self.den as int);
            }
            -(q as i64)
        }
    }
}

/// The cross product of two bounded rationals stays far inside `i128`.
proof fn lemma_rat_product_bound(a: int, b: int)
    requires
        -4_000_000_000_000_000_000 <= a <= 4_000_000_000_000_000_000,
        0 < b <= 4_000_000_000_000_000_000,
    ensures
        -16_000_000_000_000_000_000_000_000_000_000_000_000 <= a * b
            <= 16_000_000_000_000_000_000_000_000_000_000_000_000,
{
    assert(-16_000_000_000_000_000_000_000_000_000_000_000_000 <= a * b
        <= 16_000_000_000_000_000_000_000_000_000_000_000_000) by (nonlinear_arith)
        requires
            -4_000_000_000_000_000_000 <= a <= 4_000_000_000_000_000_000,
            0 < b <= 4_000_000_000_000_000_000,
    ;
}

/// For a nonnegative numerator, truncating division is the floor.
proof fn lemma_floor_nonneg(n: int, d: int)
    requires
        n >= 0,
        d > 0,
        n <= 1000 * d,
    ensures
        0 <= n / d <= 1000,
{
    assert(0 <= n / d <= 1000) by (nonlinear_arith)
        requires
            n >= 0,
            d > 0,
            n <= 1000 * d,
    ;
}

/// For a negative numerator, the negated ceiling of the magnitude is the
/// floor: `floor(n/d) == -ceil(-n/d)`.
proof fn lemma_floor_neg(n: int, d: int)
    requires
        n < 0,
        d > 0,
        -1000 * d <= n,
    ensures
        0 <= ((-n) + d - 1) / d <= 1000,
        -(((-n) + d - 1) / d) == n / d,
{
    assert((0 <= ((-n) + d - 1) / d <= 1000) && -(((-n) + d - 1) / d) == n / d)
        by (nonlinear_arith)
        requires
            n < 0,
            d > 0,
            -1000 * d <= n,
    ;
}

/// The rounded magnitude of a small rational is at most a thousand and one.
proof fn lemma_round_bound(n: int, d: int)
    requires
        n >= 0,
        d > 0,
        n <= 1000 * d,
    ensures
        0 <= (2 * n + d) / (2 * d) <= 1001,
{
    assert(0 <= (2 * n + d) / (2 * d) <= 1001) by (nonlinear_arith)
        requires
            n >= 0,
            d > 0,
            n <= 1000 * d,
    ;
}

/// A specification-level rational: unbounded numerator and denominator.
pub ghost struct QR {
    pub n: int,
    pub d: int,
}

/// The specification-level value of a machine rational.
pub open spec fn rq(a: Rat) -> QR {
    QR { n: a.num as int, d: a.den as int }
}

/// Specification-level rational subtraction.
pub open spec fn q_sub(a: QR, b: QR) -> QR {
    QR { n: a.n * b.d - b.n * a.d, d: a.d * b.d }
}

/// Specification-level rational negation.
pub open spec fn q_neg(a: QR) -> QR {
    QR { n: -a.n, d: a.d }
}

/// Specification-level rational order (for positive denominators).
pub open spec fn q_lt(a: QR, b: QR) -> bool {
    a.n * b.d < b.n * a.d
}

/// Specification-level rational value equality (for positive denominators).
pub open spec fn q_eq(a: QR, b: QR) -> bool {
    a.n * b.d == b.n * a.d
}

/// Rounding to the nearest integer, halves away from zero, at the
/// specification level.
pub open spec fn q_round(a: QR) -> int {
    if a.n >= 0 {
        (2 * a.n + a.d) / (2 * a.d)
    } else {
        -((2 * (-a.n) + a.d) / (2 * a.d))
    }
}

/// The floor of a specification-level rational with positive denominator.
pub open spec fn q_floor(a: QR) -> int {
    a.n / a.d
}

} // verus!
