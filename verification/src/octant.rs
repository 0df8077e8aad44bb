//! A simple octant struct for transforming line points.
//!
//! The eight octants reflect/transpose the plane so that every direction
//! vector lands in the canonical octant with `dx >= dy >= 0`; walkers are
//! written once for that octant and their output is mapped back.

use crate::rat::{q_lt, q_neg, q_sub, rat_small, rq, Rat, QR};
use vstd::prelude::*;

verus! {

/// The largest coordinate magnitude the walkers accept; keeps every
/// intermediate difference and error term inside `i64`.
pub const MAX_COORD: i64 = 0x1fff_ffff_ffff_ffff;

/// The octant tag chosen for a delta vector `(dx, dy)`: reflections make the
/// y component nonnegative, then the x component, then a transposition makes
/// `dx >= dy`.
pub open spec fn oct_tag(dx: int, dy: int) -> int {
    let a = if dy < 0 { (-dx, -dy, 4int) } else { (dx, dy, 0int) };
    let b = if a.0 < 0 { (a.1, -a.0, a.2 + 2) } else { a };
    if b.0 < b.1 {
        b.2 + 1
    } else {
        b.2
    }
}

/// Maps a point into its position in octant `v`.
pub open spec fn oct_to(v: int, p: (int, int)) -> (int, int) {
    if v == 0 {
        (p.0, p.1)
    } else if v == 1 {
        (p.1, p.0)
    } else if v == 2 {
        (p.1, -p.0)
    } else if v == 3 {
        (-p.0, p.1)
    } else if v == 4 {
        (-p.0, -p.1)
    } else if v == 5 {
        (-p.1, -p.0)
    } else if v == 6 {
        (-p.1, p.0)
    } else if v == 7 {
        (p.0, -p.1)
    } else {
        p
    }
}

/// Maps a point back from its position in octant `v`; the inverse of
/// [`oct_to`].
pub open spec fn oct_from(v: int, p: (int, int)) -> (int, int) {
    if v == 0 {
        (p.0, p.1)
    } else if v == 1 {
        (p.1, p.0)
    } else if v == 2 {
        (-p.1, p.0)
    } else if v == 3 {
        (-p.0, p.1)
    } else if v == 4 {
        (-p.0, -p.1)
    } else if v == 5 {
        (-p.1, -p.0)
    } else if v == 6 {
        (p.1, -p.0)
    } else if v == 7 {
        (p.0, -p.1)
    } else {
        p
    }
}

/// `oct_to` and `oct_from` are inverse transforms.
pub proof fn lemma_oct_roundtrip(v: int, p: (int, int))
    requires
        0 <= v < 8,
    ensures
        oct_from(v, oct_to(v, p)) == p,
        oct_to(v, oct_from(v, p)) == p,
{
}

/// Every octant transform is linear: it commutes with vector subtraction.
pub proof fn lemma_oct_to_sub(v: int, a: (int, int), b: (int, int))
    ensures
        oct_to(v, (a.0 - b.0, a.1 - b.1)) == (oct_to(v, a).0 - oct_to(v, b).0, oct_to(v, a).1 - oct_to(v, b).1),
        oct_from(v, (a.0 - b.0, a.1 - b.1)) == (oct_from(v, a).0 - oct_from(v, b).0, oct_from(v, a).1 - oct_from(v, b).1),
{
}

/// The tag chosen by `oct_tag` sends its own delta vector into the canonical
/// octant: `dx >= dy >= 0` after the transform.
pub proof fn lemma_oct_normalizes(dx: int, dy: int)
    ensures
        0 <= oct_tag(dx, dy) < 8,
        oct_to(oct_tag(dx, dy), (dx, dy)).1 >= 0,
        oct_to(oct_tag(dx, dy), (dx, dy)).0 >= oct_to(oct_tag(dx, dy), (dx, dy)).1,
{
}

/// Casts a specification-level point to the machine representation.
pub open spec fn pt64(p: (int, int)) -> (i64, i64) {
    (p.0 as i64, p.1 as i64)
}


/// The octant tag chosen for the rational delta from `start` to `end`,
/// decided by the same sign and magnitude tests as the integer tag.
pub open spec fn oct_tag_q(start: (QR, QR), end: (QR, QR)) -> int {
    let dx = q_sub(end.0, start.0);
    let dy = q_sub(end.1, start.1);
    let a = if dy.n < 0 { (q_neg(dx), q_neg(dy), 4int) } else { (dx, dy, 0int) };
    let b = if a.0.n < 0 { (a.1, q_neg(a.0), a.2 + 2) } else { a };
    if q_lt(b.0, b.1) {
        b.2 + 1
    } else {
        b.2
    }
}

/// Maps a rational point into its position in octant `v`.
pub open spec fn oct_to_q(v: int, p: (QR, QR)) -> (QR, QR) {
    if v == 0 {
        (p.0, p.1)
    } else if v == 1 {
        (p.1, p.0)
    } else if v == 2 {
        (p.1, q_neg(p.0))
    } else if v == 3 {
        (q_neg(p.0), p.1)
    } else if v == 4 {
        (q_neg(p.0), q_neg(p.1))
    } else if v == 5 {
        (q_neg(p.1), q_neg(p.0))
    } else if v == 6 {
        (q_neg(p.1), p.0)
    } else if v == 7 {
        (p.0, q_neg(p.1))
    } else {
        p
    }
}

/// A simple octant struct for transforming line points.
#[derive(Clone, Copy)]
pub struct Octant {
    value: u8,
}

impl Octant {
    /// The tag held by this octant.
    pub closed spec fn v(self) -> int {
        self.value as int
    }

    /// Get the relevant octant from a start and end point.
    pub fn new(start: (i64, i64), end: (i64, i64)) -> (r: Octant)
        requires
            -MAX_COORD <= start.0 <= MAX_COORD,
            -MAX_COORD <= start.1 <= MAX_COORD,
            -MAX_COORD <= end.0 <= MAX_COORD,
            -MAX_COORD <= end.1 <= MAX_COORD,
        ensures
            r.v() == oct_tag(end.0 - start.0, end.1 - start.1),
            0 <= r.v() < 8,
    {
        let mut value: u8 = 0;
        let mut dx: i64 = end.0 - start.0;
        let mut dy: i64 = end.1 - start.1;

        if dy < 0 {
            dx = -dx;
            dy = -dy;
            value = value + 4;
        }

        if dx < 0 {
            let tmp = dx;
            dx = dy;
            dy = -tmp;
            value = value + 2;
        }

        if dx < dy {
            value = value + 1;
        }

        Octant { value }
    }


    /// Get the relevant octant from a rational start and end point.
    pub fn new_real(start: (Rat, Rat), end: (Rat, Rat)) -> (r: Octant)
        requires
            rat_small(start.0),
            rat_small(start.1),
            rat_small(end.0),
            rat_small(end.1),
        ensures
            r.v() == oct_tag_q((rq(start.0), rq(start.1)), (rq(end.0), rq(end.1))),
            0 <= r.v() < 8,
    {
        proof {
            lemma_small_delta_bounds(
                start.0.num as int,
                start.0.den as int,
                end.0.num as int,
                end.0.den as int,
            );
            lemma_small_delta_bounds(
                start.1.num as int,
                start.1.den as int,
                end.1.num as int,
                end.1.den as int,
            );
        }
        let mut value: u8 = 0;
        let mut dx_n: i128 = end.0.num * start.0.den - start.0.num * end.0.den;
        let mut dx_d: i128 = end.0.den * start.0.den;
        let mut dy_n: i128 = end.1.num * start.1.den - start.1.num * end.1.den;
        let mut dy_d: i128 = end.1.den * start.1.den;

        if dy_n < 0 {
            dx_n = -dx_n;
            dy_n = -dy_n;
            value = value + 4;
        }

        if dx_n < 0 {
            let tmp_n = dx_n;
            let tmp_d = dx_d;
            dx_n = dy_n;
            dx_d = dy_d;
            dy_n = -tmp_n;
            dy_d = tmp_d;
            value = value + 2;
        }

        proof {
            lemma_cross_product_bound(dx_n as int, dx_d as int, dy_n as int, dy_d as int);
        }
        if dx_n * dy_d < dy_n * dx_d {
            value = value + 1;
        }

        Octant { value }
    }

    /// Convert a rational point to its position in the octant.
    pub fn to_real(&self, point: (Rat, Rat)) -> (r: (Rat, Rat))
        requires
            0 <= self.v() < 8,
            rat_small(point.0),
            rat_small(point.1),
        ensures
            (rq(r.0), rq(r.1)) == oct_to_q(self.v(), (rq(point.0), rq(point.1))),
            rat_small(r.0),
            rat_small(r.1),
    {
        match self.value {
            0 => (point.0, point.1),
            1 => (point.1, point.0),
            2 => (point.1, Rat { num: -point.0.num, den: point.0.den }),
            3 => (Rat { num: -point.0.num, den: point.0.den }, point.1),
            4 => (
                Rat { num: -point.0.num, den: point.0.den },
                Rat { num: -point.1.num, den: point.1.den },
            ),
            5 => (
                Rat { num: -point.1.num, den: point.1.den },
                Rat { num: -point.0.num, den: point.0.den },
            ),
            6 => (Rat { num: -point.1.num, den: point.1.den }, point.0),
            _ => (point.0, Rat { num: -point.1.num, den: point.1.den }),
        }
    }

    /// Convert a point to its position in the octant.
    pub fn to(&self, point: (i64, i64)) -> (r: (i64, i64))
        requires
            0 <= self.v() < 8,
            point.0 > i64::MIN,
            point.1 > i64::MIN,
        ensures
            (r.0 as int, r.1 as int) == oct_to(self.v(), (point.0 as int, point.1 as int)),
    {
        match self.value {
            0 => (point.0, point.1),
            1 => (point.1, point.0),
            2 => (point.1, -point.0),
            3 => (-point.0, point.1),
            4 => (-point.0, -point.1),
            5 => (-point.1, -point.0),
            6 => (-point.1, point.0),
            _ => (point.0, -point.1),
        }
    }

    /// Convert a point from its position in the octant.
    pub fn from(&self, point: (i64, i64)) -> (r: (i64, i64))
        requires
            0 <= self.v() < 8,
            point.0 > i64::MIN,
            point.1 > i64::MIN,
        ensures
            (r.0 as int, r.1 as int) == oct_from(self.v(), (point.0 as int, point.1 as int)),
    {
        match self.value {
            0 => (point.0, point.1),
            1 => (point.1, point.0),
            2 => (-point.1, point.0),
            3 => (-point.0, point.1),
            4 => (-point.0, -point.1),
            5 => (-point.1, -point.0),
            6 => (point.1, -point.0),
            _ => (point.0, -point.1),
        }
    }
}

/// The numerator and denominator of the rational difference of two small
/// rationals are bounded.
proof fn lemma_small_delta_bounds(an: int, ad: int, bn: int, bd: int)
    requires
        0 < ad <= 1000,
        -1000 * ad <= an <= 1000 * ad,
        0 < bd <= 1000,
        -1000 * bd <= bn <= 1000 * bd,
    ensures
        -2_000_000_000 <= bn * ad - an * bd <= 2_000_000_000,
        0 < bd * ad <= 1_000_000,
        -1_000_000_000 <= an * bd <= 1_000_000_000,
        -1_000_000_000 <= bn * ad <= 1_000_000_000,
{
    assert((-2_000_000_000 <= bn * ad - an * bd <= 2_000_000_000) && (0 < bd * ad
        <= 1_000_000) && (-1_000_000_000 <= an * bd <= 1_000_000_000) && (-1_000_000_000 <= bn
        * ad <= 1_000_000_000)) by (nonlinear_arith)
        requires
            0 < ad <= 1000,
            -1000 * ad <= an <= 1000 * ad,
            0 < bd <= 1000,
            -1000 * bd <= bn <= 1000 * bd,
    ;
}

/// The cross products of two bounded rational deltas are bounded.
proof fn lemma_cross_product_bound(an: int, ad: int, bn: int, bd: int)
    requires
        -2_000_000_000 <= an <= 2_000_000_000,
        0 < ad <= 1_000_000,
        -2_000_000_000 <= bn <= 2_000_000_000,
        0 < bd <= 1_000_000,
    ensures
        -2_000_000_000_000_000_000 <= an * bd <= 2_000_000_000_000_000_000,
        -2_000_000_000_000_000_000 <= bn * ad <= 2_000_000_000_000_000_000,
{
    assert((-2_000_000_000_000_000_000 <= an * bd <= 2_000_000_000_000_000_000) && (
    -2_000_000_000_000_000_000 <= bn * ad <= 2_000_000_000_000_000_000)) by (nonlinear_arith)
        requires
            -2_000_000_000 <= an <= 2_000_000_000,
            0 < ad <= 1_000_000,
            -2_000_000_000 <= bn <= 2_000_000_000,
            0 < bd <= 1_000_000,
    ;
}

} // verus!
