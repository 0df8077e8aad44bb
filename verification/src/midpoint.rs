//! An implementation of the mid-point line drawing algorithm.

use crate::octant::{oct_from, oct_tag_q, oct_to_q, pt64, Octant};
use crate::rat::{rat_small, rq, Rat, QR};
use crate::steps::Steps;
use vstd::prelude::*;

verus! {

/// The specification-level state of a mid-point walk: the octant tag, the
/// current and final integer x in normalized space, the current integer y,
/// and the decision variable and its two increments as integer numerators
/// over one fixed positive denominator (which never needs to be
/// materialized: only the sign of `k` is ever read).
pub ghost struct MState {
    pub oct: int,
    pub px: int,
    pub py: int,
    pub ex: int,
    pub k: int,
    pub a2: int,
    pub b2: int,
}

/// One step of the mid-point walk: a north step exactly when the decision
/// variable is nonpositive, then always an east step.
pub open spec fn mid_step(s: MState) -> MState {
    let t = if s.k <= 0 { MState { k: s.k + s.b2, py: s.py + 1, ..s } } else { s };
    MState { k: t.k + t.a2, px: t.px + 1, ..t }
}

/// The points a mid-point walk still emits from state `s`.
pub open spec fn mid_rem(s: MState) -> Seq<(i64, i64)>
    decreases s.ex - s.px + 1,
{
    if s.px > s.ex {
        Seq::empty()
    } else {
        seq![pt64(oct_from(s.oct, (s.px, s.py)))] + mid_rem(mid_step(s))
    }
}

/// The starting state of a mid-point walk from rational `start` to `end`:
/// the points are sent through the octant transform, the implicit line
/// equation coefficients `a`, `b`, `c` are built as numerators over the
/// product of all four input denominators, and the start and end are
/// rounded half-away-from-zero to the integer grid.
pub open spec fn mid_init(start: (QR, QR), end: (QR, QR)) -> MState {
    let v = oct_tag_q(start, end);
    let s = oct_to_q(v, start);
    let e = oct_to_q(v, end);
    let an = -((e.1.n * s.1.d - s.1.n * e.1.d) * (s.0.d * e.0.d));
    let bn = (e.0.n * s.0.d - s.0.n * e.0.d) * (s.1.d * e.1.d);
    let cn = s.0.n * e.1.n * (e.0.d * s.1.d) - e.0.n * s.1.n * (s.0.d * e.1.d);
    let px0 = crate::rat::q_round(s.0);
    let py0 = crate::rat::q_round(s.1);
    MState {
        oct: v,
        px: px0,
        py: py0,
        ex: crate::rat::q_round(e.0),
        k: 2 * an * (px0 + 1) + bn * (2 * py0 + 1) + 2 * cn,
        a2: 2 * an,
        b2: 2 * bn,
    }
}

/// The full point sequence of a mid-point walk from `start` to `end`.
pub open spec fn midpoint_seq(start: (Rat, Rat), end: (Rat, Rat)) -> Seq<(i64, i64)> {
    mid_rem(mid_init((rq(start.0), rq(start.1)), (rq(end.0), rq(end.1))))
}

/// Bounds on the coefficient numerators built from small rationals.
proof fn lemma_mid_coeff_bounds(s0: QR, s1: QR, e0: QR, e1: QR)
    requires
        0 < s0.d <= 1000,
        -1000 * s0.d <= s0.n <= 1000 * s0.d,
        0 < s1.d <= 1000,
        -1000 * s1.d <= s1.n <= 1000 * s1.d,
        0 < e0.d <= 1000,
        -1000 * e0.d <= e0.n <= 1000 * e0.d,
        0 < e1.d <= 1000,
        -1000 * e1.d <= e1.n <= 1000 * e1.d,
    ensures
        -1_000_000_000 <= e1.n * s1.d <= 1_000_000_000,
        -1_000_000_000 <= s1.n * e1.d <= 1_000_000_000,
        -1_000_000_000 <= e0.n * s0.d <= 1_000_000_000,
        -1_000_000_000 <= s0.n * e0.d <= 1_000_000_000,
        0 < s0.d * e0.d <= 1_000_000,
        0 < s1.d * e1.d <= 1_000_000,
        0 < e0.d * s1.d <= 1_000_000,
        0 < s0.d * e1.d <= 1_000_000,
        -2_000_000_000_000_000 <= -((e1.n * s1.d - s1.n * e1.d) * (s0.d * e0.d))
            <= 2_000_000_000_000_000,
        -2_000_000_000_000_000 <= (e0.n * s0.d - s0.n * e0.d) * (s1.d * e1.d)
            <= 2_000_000_000_000_000,
        -1_000_000_000_000 <= s0.n * e1.n <= 1_000_000_000_000,
        -1_000_000_000_000 <= e0.n * s1.n <= 1_000_000_000_000,
        -1_000_000_000_000_000_000 <= s0.n * e1.n * (e0.d * s1.d) <= 1_000_000_000_000_000_000,
        -1_000_000_000_000_000_000 <= e0.n * s1.n * (s0.d * e1.d) <= 1_000_000_000_000_000_000,
        -2_000_000_000_000_000_000 <= s0.n * e1.n * (e0.d * s1.d) - e0.n * s1.n * (s0.d * e1.d)
            <= 2_000_000_000_000_000_000,
{
    assert((-1_000_000_000 <= e1.n * s1.d <= 1_000_000_000) && (-1_000_000_000 <= s1.n * e1.d
        <= 1_000_000_000) && (-1_000_000_000 <= e0.n * s0.d <= 1_000_000_000) && (
    -1_000_000_000 <= s0.n * e0.d <= 1_000_000_000) && (0 < s0.d * e0.d <= 1_000_000) && (0
        < s1.d * e1.d <= 1_000_000) && (0 < e0.d * s1.d <= 1_000_000) && (0 < s0.d * e1.d
        <= 1_000_000)) by (nonlinear_arith)
        requires
            0 < s0.d <= 1000,
            -1000 * s0.d <= s0.n <= 1000 * s0.d,
            0 < s1.d <= 1000,
            -1000 * s1.d <= s1.n <= 1000 * s1.d,
            0 < e0.d <= 1000,
            -1000 * e0.d <= e0.n <= 1000 * e0.d,
            0 < e1.d <= 1000,
            -1000 * e1.d <= e1.n <= 1000 * e1.d,
    ;
    let da = e1.n * s1.d - s1.n * e1.d;
    let pa = s0.d * e0.d;
    assert(-2_000_000_000_000_000 <= -(da * pa) <= 2_000_000_000_000_000) by (nonlinear_arith)
        requires
            -2_000_000_000 <= da <= 2_000_000_000,
            0 < pa <= 1_000_000,
    ;
    let db = e0.n * s0.d - s0.n * e0.d;
    let pb = s1.d * e1.d;
    assert(-2_000_000_000_000_000 <= db * pb <= 2_000_000_000_000_000) by (nonlinear_arith)
        requires
            -2_000_000_000 <= db <= 2_000_000_000,
            0 < pb <= 1_000_000,
    ;
    assert((-1_000_000_000_000 <= s0.n * e1.n <= 1_000_000_000_000) && (-1_000_000_000_000
        <= e0.n * s1.n <= 1_000_000_000_000) && (-1_000_000_000_000_000_000 <= s0.n * e1.n * (
    e0.d * s1.d) <= 1_000_000_000_000_000_000) && (-1_000_000_000_000_000_000 <= e0.n * s1.n
        * (s0.d * e1.d) <= 1_000_000_000_000_000_000)) by (nonlinear_arith)
        requires
            0 < s0.d <= 1000,
            -1000 * s0.d <= s0.n <= 1000 * s0.d,
            0 < s1.d <= 1000,
            -1000 * s1.d <= s1.n <= 1000 * s1.d,
            0 < e0.d <= 1000,
            -1000 * e0.d <= e0.n <= 1000 * e0.d,
            0 < e1.d <= 1000,
            -1000 * e1.d <= e1.n <= 1000 * e1.d,
    ;
}

/// Bound on the starting decision numerator.
proof fn lemma_mid_k_bound(an: int, bn: int, cn: int, px0: int, py0: int)
    requires
        -2_000_000_000_000_000 <= an <= 2_000_000_000_000_000,
        -2_000_000_000_000_000 <= bn <= 2_000_000_000_000_000,
        -2_000_000_000_000_000_000 <= cn <= 2_000_000_000_000_000_000,
        -1001 <= px0 <= 1001,
        -1001 <= py0 <= 1001,
    ensures
        -20_000_000_000_000_000_000 <= 2 * an * (px0 + 1) + bn * (2 * py0 + 1) + 2 * cn
            <= 20_000_000_000_000_000_000,
        -20_000_000_000_000_000_000 <= 2 * an * (px0 + 1) <= 20_000_000_000_000_000_000,
        -20_000_000_000_000_000_000 <= bn * (2 * py0 + 1) <= 20_000_000_000_000_000_000,
{
    assert((-20_000_000_000_000_000_000 <= 2 * an * (px0 + 1) + bn * (2 * py0 + 1) + 2 * cn
        <= 20_000_000_000_000_000_000) && (-20_000_000_000_000_000_000 <= 2 * an * (px0 + 1)
        <= 20_000_000_000_000_000_000) && (-20_000_000_000_000_000_000 <= bn * (2 * py0 + 1)
        <= 20_000_000_000_000_000_000)) by (nonlinear_arith)
        requires
            -2_000_000_000_000_000 <= an <= 2_000_000_000_000_000,
            -2_000_000_000_000_000 <= bn <= 2_000_000_000_000_000,
            -2_000_000_000_000_000_000 <= cn <= 2_000_000_000_000_000_000,
            -1001 <= px0 <= 1001,
            -1001 <= py0 <= 1001,
    ;
}

/// An implementation of the mid-point line drawing algorithm.
///
/// The biggest difference between this algorithm and [`Bresenham`] is that
/// it takes rational (continuous) input points.
///
/// [`Bresenham`]: crate::Bresenham
pub struct Midpoint {
    octant: Octant,
    point: (i64, i64),
    a2: i128,
    b2: i128,
    k: i128,
    end_x: i64,
}

impl Midpoint {
    /// The specification-level state this walker stands at.
    pub closed spec fn state(self) -> MState {
        MState {
            oct: self.octant.v(),
            px: self.point.0 as int,
            py: self.point.1 as int,
            ex: self.end_x as int,
            k: self.k as int,
            a2: self.a2 as int,
            b2: self.b2 as int,
        }
    }

    /// The points this walker has yet to emit.
    pub open spec fn remaining(self) -> Seq<(i64, i64)> {
        mid_rem(self.state())
    }

    /// The walker's state is consistent: coefficients and positions inside
    /// the ranges that small rational inputs allow, with the decision
    /// numerator inside a budget that widens by one increment per step.
    pub closed spec fn wf(self) -> bool {
        &&& 0 <= self.octant.v() < 8
        &&& -4_000_000_000_000_000 <= self.a2 <= 4_000_000_000_000_000
        &&& -4_000_000_000_000_000 <= self.b2 <= 4_000_000_000_000_000
        &&& -1001 <= self.point.0 as int <= 1002
        &&& -1001 <= self.end_x <= 1001
        &&& -1001 <= self.point.1 as int <= self.point.0 as int + 2003
        &&& -20_000_000_000_000_000_000 - (self.point.0 as int + 1001) * 8_000_000_000_000_000
            <= self.k as int <= 20_000_000_000_000_000_000 + (self.point.0 as int + 1001)
            * 8_000_000_000_000_000
    }

    pub fn new(start: (Rat, Rat), end: (Rat, Rat)) -> (r: Midpoint)
        requires
            rat_small(start.0),
            rat_small(start.1),
            rat_small(end.0),
            rat_small(end.1),
        ensures
            r.wf(),
            r.remaining() == midpoint_seq(start, end),
    {
        // Get the octant to use
        let octant = Octant::new_real(start, end);

        // Convert the points into the octant versions
        let s = octant.to_real(start);
        let e = octant.to_real(end);

        proof {
            lemma_mid_coeff_bounds(rq(s.0), rq(s.1), rq(e.0), rq(e.1));
        }

        // Initialise the decision coefficients as numerators over the
        // product of all four denominators
        let an: i128 = -((e.1.num * s.1.den - s.1.num * e.1.den) * (s.0.den * e.0.den));
        let bn: i128 = (e.0.num * s.0.den - s.0.num * e.0.den) * (s.1.den * e.1.den);
        let cn: i128 = s.0.num * e.1.num * (e.0.den * s.1.den) - e.0.num * s.1.num * (s.0.den
            * e.1.den);

        let px0 = s.0.round_i64();
        let py0 = s.1.round_i64();
        let ex = e.0.round_i64();

        proof {
            lemma_mid_k_bound(an as int, bn as int, cn as int, px0 as int, py0 as int);
        }

        Midpoint {
            octant,
            point: (px0, py0),
            a2: 2 * an,
            b2: 2 * bn,
            k: 2 * an * ((px0 as i128) + 1) + bn * (2 * (py0 as i128) + 1) + 2 * cn,
            end_x: ex,
        }
    }

    /// The next point of the walk, or `None` when it has passed the end.
    pub fn next(&mut self) -> (r: Option<(i64, i64)>)
        requires
            old(self).wf(),
        ensures
            final(self).wf(),
            match r {
                Some(p) => old(self).remaining().len() > 0
                    && p == old(self).remaining()[0]
                    && final(self).remaining() == old(self).remaining().skip(1),
                None => old(self).remaining().len() == 0 && *final(self) == *old(self),
            },
    {
        if self.point.0 <= self.end_x {
            proof {
                assert(self.remaining().skip(1) =~= mid_rem(mid_step(self.state())));
            }
            let point = self.octant.from(self.point);

            // Take an N step
            if self.k <= 0 {
                self.k = self.k + self.b2;
                self.point.1 = self.point.1 + 1;
            }

            // Take an E step
            self.k = self.k + self.a2;
            self.point.0 = self.point.0 + 1;

            Some(point)
        } else {
            None
        }
    }

    /// Collect the whole walk into a vector.
    pub fn points(&mut self) -> (r: Vec<(i64, i64)>)
        requires
            old(self).wf(),
        ensures
            final(self).wf(),
            r@ == old(self).remaining(),
    {
        let mut out: Vec<(i64, i64)> = Vec::new();
        loop
            invariant
                self.wf(),
                out@ + self.remaining() == old(self).remaining(),
            ensures
                self.wf(),
                self.remaining().len() == 0,
                out@ + self.remaining() == old(self).remaining(),
            decreases self.remaining().len(),
        {
            match self.next() {
                Some(p) => out.push(p),
                None => {
                    break;
                }
            }
        }
        proof {
            assert(out@ =~= old(self).remaining());
        }
        out
    }

    /// Turn the walk into an iterator over `(start, end)` pairs.
    pub fn steps(self) -> (r: Steps<(i64, i64)>)
        requires
            self.wf(),
        ensures
            r.wf(),
            r.remaining() == crate::steps::pair_seq(self.remaining()),
    {
        let mut walker = self;
        let pts = walker.points();
        Steps::new(pts)
    }
}

} // verus!
