//! An implementation of Bresenham's circle algorithm.

use crate::octant::pt64;
use crate::bresenham_3d::imax;
use crate::steps::Steps;
use vstd::prelude::*;

verus! {

/// The largest radius the circle walker accepts.
pub const MAX_RADIUS: i64 = 1_000_000;

/// The largest center coordinate magnitude the circle and ellipse walkers
/// accept.
pub const MAX_CENTER: i64 = 1_000_000_000_000_000;

/// The specification-level state of a circle walk: the signed offset
/// `(x, y)` from the center (`x` runs from `-radius` up to `0`), the center,
/// the decision variable `e`, and the quadrant `q` about to be emitted.
pub ghost struct CState {
    pub x: int,
    pub y: int,
    pub cx: int,
    pub cy: int,
    pub e: int,
    pub q: int,
}

/// The point emitted in the current quadrant.
pub open spec fn circ_point(s: CState) -> (int, int) {
    if s.q == 1 {
        (s.cx - s.x, s.cy + s.y)
    } else if s.q == 2 {
        (s.cx - s.y, s.cy - s.x)
    } else if s.q == 3 {
        (s.cx + s.x, s.cy - s.y)
    } else {
        (s.cx + s.y, s.cy + s.x)
    }
}

/// One call's state change: quadrants cycle, and after the fourth quadrant
/// the offset and decision variable take the standard midpoint-circle
/// update (the y offset grows when the decision variable allows it, then
/// the x offset grows when it must).
pub open spec fn circ_step(s: CState) -> CState {
    if s.q == 4 {
        let r = s.e;
        let a = if r <= s.y { (s.y + 1, s.e + 2 * (s.y + 1) + 1) } else { (s.y, s.e) };
        let b = if r > s.x || a.1 > a.0 { (s.x + 1, a.1 + 2 * (s.x + 1) + 1) } else { (s.x, a.1) };
        CState { x: b.0, y: a.0, e: b.1, q: 1, ..s }
    } else {
        CState { q: s.q + 1, ..s }
    }
}

/// The points a circle walk still emits from state `s`; the walk ends when
/// the x offset reaches zero.
pub open spec fn circ_rem(s: CState) -> Seq<(i64, i64)>
    decreases -s.x, imax(0, s.x + 1 - s.e), 5 - s.q,
{
    if s.x >= 0 || s.y < 0 || !(1 <= s.q <= 4) {
        Seq::empty()
    } else {
        seq![pt64(circ_point(s))] + circ_rem(circ_step(s))
    }
}

/// The starting state of a circle walk.
pub open spec fn circ_init(cx: int, cy: int, radius: int) -> CState {
    CState { x: -radius, y: 0, cx, cy, e: 2 - 2 * radius, q: 1 }
}

/// The full point sequence of a circle walk.
pub open spec fn circle_seq(cx: int, cy: int, radius: int) -> Seq<(i64, i64)> {
    circ_rem(circ_init(cx, cy, radius))
}

/// A circle walk state is well-formed for starting radius `r0` when the
/// offset lies inside the ring bounds and the decision variable keeps its
/// closed form in the offset.
pub open spec fn circ_wf_at(s: CState, r0: int) -> bool {
    &&& 0 <= r0 <= MAX_RADIUS as int
    &&& 1 <= s.q <= 4
    &&& -r0 <= s.x <= 0
    &&& 0 <= s.y <= r0 + 1
    &&& s.e == s.x * s.x + s.y * s.y - r0 * r0 + 2 * (s.x + s.y) + 2
    &&& -(MAX_CENTER as int) <= s.cx <= MAX_CENTER as int
    &&& -(MAX_CENTER as int) <= s.cy <= MAX_CENTER as int
}

/// In a well-formed state the decision variable is bounded by a few times
/// the squared radius.
proof fn lemma_circ_e_bound(s: CState, r0: int)
    requires
        circ_wf_at(s, r0),
    ensures
        -4_000_000_000_000 <= s.e <= 4_000_000_000_000,
{
    assert(-4_000_000_000_000 <= s.e <= 4_000_000_000_000) by (nonlinear_arith)
        requires
            s.e == s.x * s.x + s.y * s.y - r0 * r0 + 2 * (s.x + s.y) + 2,
            -r0 <= s.x <= 0,
            0 <= s.y <= r0 + 1,
            0 <= r0 <= 1_000_000,
    ;
}

/// One step preserves well-formedness.
proof fn lemma_circ_step_wf(s: CState, r0: int)
    requires
        circ_wf_at(s, r0),
        s.x < 0,
    ensures
        circ_wf_at(circ_step(s), r0),
{
    if s.q == 4 {
        let s2 = circ_step(s);
        if s.e <= s.y {
            assert(s.y <= r0) by (nonlinear_arith)
                requires
                    s.x * s.x + s.y * s.y - r0 * r0 + 2 * (s.x + s.y) + 2 <= s.y,
                    -r0 <= s.x <= 0,
                    0 <= s.y,
            ;
        }
        assert(s2.e == s2.x * s2.x + s2.y * s2.y - r0 * r0 + 2 * (s2.x + s2.y) + 2)
            by (nonlinear_arith)
            requires
                s.e == s.x * s.x + s.y * s.y - r0 * r0 + 2 * (s.x + s.y) + 2,
                s.q == 4,
                s2 == circ_step(s),
        ;
    }
}

/// A quarter turn about the center: the second point is the image of the
/// first under a 90-degree rotation.
pub open spec fn circ_rot(c: (int, int), p: (i64, i64), r: (i64, i64)) -> bool {
    &&& r.0 as int - c.0 == -(p.1 as int - c.1)
    &&& r.1 as int - c.1 == p.0 as int - c.0
}

/// The 4-fold symmetry of the circle walk: points come in rings of four,
/// and inside a ring each point is the quarter turn about the center of
/// the one before it, so the four quadrant points of every computed offset
/// are emitted exactly.
/// Unrolls one full ring of four emissions.
proof fn lemma_circ_ring_expand(s: CState)
    requires
        s.q == 1,
        s.x < 0,
        s.y >= 0,
    ensures
        circ_rem(s) == seq![
            pt64(circ_point(s)),
            pt64(circ_point(circ_step(s))),
            pt64(circ_point(circ_step(circ_step(s)))),
            pt64(circ_point(circ_step(circ_step(circ_step(s))))),
        ] + circ_rem(circ_step(circ_step(circ_step(circ_step(s))))),
{
    reveal_with_fuel(circ_rem, 5);
    assert(circ_rem(s) =~= seq![
        pt64(circ_point(s)),
        pt64(circ_point(circ_step(s))),
        pt64(circ_point(circ_step(circ_step(s)))),
        pt64(circ_point(circ_step(circ_step(circ_step(s))))),
    ] + circ_rem(circ_step(circ_step(circ_step(circ_step(s))))));
}

#[verifier::rlimit(80)]
pub proof fn lemma_circle_fourfold(s: CState, r0: int)
    requires
        circ_wf_at(s, r0),
        s.q == 1,
    ensures
        circ_rem(s).len() % 4 == 0,
        forall|i: int|
            0 <= i && i + 1 < circ_rem(s).len() && i % 4 != 3 ==> #[trigger] circ_rot(
                (s.cx, s.cy),
                circ_rem(s)[i],
                circ_rem(s)[i + 1],
            ),
    decreases circ_rem(s).len(),
{
    if !(s.x >= 0 || s.y < 0) {
        let s2 = circ_step(circ_step(circ_step(circ_step(s))));
        assert(s2.q == 1);
        let rest = circ_rem(s2);
        lemma_circ_ring_expand(s);
        lemma_circ_step_wf(circ_step(circ_step(circ_step(s))), r0);
        lemma_circle_fourfold(s2, r0);
        assert forall|i: int|
            0 <= i && i + 1 < circ_rem(s).len() && i % 4 != 3 implies #[trigger] circ_rot(
            (s.cx, s.cy),
            circ_rem(s)[i],
            circ_rem(s)[i + 1],
        ) by {
            if i >= 4 {
                assert(circ_rem(s)[i] == rest[i - 4]);
                assert(circ_rem(s)[i + 1] == rest[i - 4 + 1]);
                assert((i - 4) % 4 == i % 4);
            }
        }
    }
}

/// The 4-fold symmetry law for a freshly constructed circle walk.
pub proof fn lemma_circle_seq_fourfold(cx: int, cy: int, radius: int)
    requires
        0 <= radius <= MAX_RADIUS as int,
        -(MAX_CENTER as int) <= cx <= MAX_CENTER as int,
        -(MAX_CENTER as int) <= cy <= MAX_CENTER as int,
    ensures
        circle_seq(cx, cy, radius).len() % 4 == 0,
        forall|i: int|
            0 <= i && i + 1 < circle_seq(cx, cy, radius).len() && i % 4 != 3
                ==> #[trigger] circ_rot(
                (cx, cy),
                circle_seq(cx, cy, radius)[i],
                circle_seq(cx, cy, radius)[i + 1],
            ),
{
    assert((-radius) * (-radius) + 0 * 0 - radius * radius + 2 * ((-radius) + 0) + 2 == 2 - 2
        * radius) by (nonlinear_arith);
    lemma_circle_fourfold(circ_init(cx, cy, radius), radius);
}

/// An implementation of Bresenham's circle algorithm.
///
/// This uses four quadrants, so calling `next()` will return a point for
/// the first quadrant, then the second, third, fourth and then back to the
/// first.
pub struct BresenhamCircle {
    x: i64,
    y: i64,
    center_x: i64,
    center_y: i64,
    radius: i64,
    error: i64,
    quadrant: u8,
    start_radius: Ghost<i64>,
}

impl BresenhamCircle {
    /// The specification-level state this walker stands at.
    pub closed spec fn state(self) -> CState {
        CState {
            x: self.x as int,
            y: self.y as int,
            cx: self.center_x as int,
            cy: self.center_y as int,
            e: self.error as int,
            q: self.quadrant as int,
        }
    }

    /// The points this walker has yet to emit.
    pub open spec fn remaining(self) -> Seq<(i64, i64)> {
        circ_rem(self.state())
    }

    /// The walker's state is well-formed for its starting radius.
    pub closed spec fn wf(self) -> bool {
        circ_wf_at(self.state(), self.start_radius@ as int)
    }

    pub fn new(center_x: i64, center_y: i64, radius: i64) -> (r: BresenhamCircle)
        requires
            0 <= radius <= MAX_RADIUS,
            -MAX_CENTER <= center_x <= MAX_CENTER,
            -MAX_CENTER <= center_y <= MAX_CENTER,
        ensures
            r.wf(),
            r.remaining() == circle_seq(center_x as int, center_y as int, radius as int),
    {
        proof {
            let r = radius as int;
            assert((-r) * (-r) + 0 * 0 - r * r + 2 * ((-r) + 0) + 2 == 2 - 2 * r)
                by (nonlinear_arith);
        }
        BresenhamCircle {
            center_x,
            center_y,
            radius,
            x: -radius,
            y: 0,
            error: 2 - 2 * radius,
            quadrant: 1,
            start_radius: Ghost(radius),
        }
    }

    /// The next point of the walk, or `None` once the x offset has reached
    /// zero.
    pub fn next(&mut self) -> (r: Option<(i64, i64)>)
        requires
            old(self).wf(),
        ensures
            final(self).wf(),
            match r {
                Some(p) => old(self).remaining().len() > 0
                    && p == old(self).remaining()[0]
                    && final(self).remaining() == old(self).remaining().skip(1),
                None => old(self).remaining().len() == 0 && *final(self) == *old(self),
            },
    {
        if self.x < 0 {
            proof {
                lemma_circ_e_bound(self.state(), self.start_radius@ as int);
                lemma_circ_step_wf(self.state(), self.start_radius@ as int);
                assert(self.remaining().skip(1) =~= circ_rem(circ_step(self.state())));
            }
            let point = match self.quadrant {
                1 => (self.center_x - self.x, self.center_y + self.y),
                2 => (self.center_x - self.y, self.center_y - self.x),
                3 => (self.center_x + self.x, self.center_y - self.y),
                _ => (self.center_x + self.y, self.center_y + self.x),
            };

            if self.quadrant == 4 {
                self.radius = self.error;

                if self.radius <= self.y {
                    self.y = self.y + 1;
                    self.error = self.error + self.y * 2 + 1;
                }

                if self.radius > self.x || self.error > self.y {
                    self.x = self.x + 1;
                    self.error = self.error + self.x * 2 + 1;
                }
            }

            self.quadrant = self.quadrant % 4 + 1;

            Some(point)
        } else {
            None
        }
    }

    /// Collect the whole walk into a vector.
    pub fn points(&mut self) -> (r: Vec<(i64, i64)>)
        requires
            old(self).wf(),
        ensures
            final(self).wf(),
            r@ == old(self).remaining(),
    {
        let mut out: Vec<(i64, i64)> = Vec::new();
        loop
            invariant
                self.wf(),
                out@ + self.remaining() == old(self).remaining(),
            ensures
                self.wf(),
                self.remaining().len() == 0,
                out@ + self.remaining() == old(self).remaining(),
            decreases self.remaining().len(),
        {
            match self.next() {
                Some(p) => out.push(p),
                None => {
                    break;
                }
            }
        }
        proof {
            assert(out@ =~= old(self).remaining());
        }
        out
    }

    /// Turn the walk into an iterator over `(start, end)` pairs.
    pub fn steps(self) -> (r: Steps<(i64, i64)>)
        requires
            self.wf(),
        ensures
            r.wf(),
            r.remaining() == crate::steps::pair_seq(self.remaining()),
    {
        let mut walker = self;
        let pts = walker.points();
        Steps::new(pts)
    }
}

} // verus!
