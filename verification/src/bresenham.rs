//! An implementation of Bresenham's line algorithm.

use crate::octant::{oct_from, oct_tag, oct_to, pt64, Octant, MAX_COORD};
use crate::steps::Steps;
use vstd::prelude::*;

verus! {

/// The points still to be emitted by a Bresenham walk in octant `oct` that
/// stands at `(px, py)` in normalized space, walks until `ex`, and carries
/// deltas `dx >= dy >= 0` with accumulated error `e`.
///
/// Each step emits the current point mapped back through the octant, then
/// advances `y` exactly when the error is nonnegative, and always advances
/// `x`, updating the error with the deltas.
pub open spec fn bres_rem(oct: int, px: int, py: int, ex: int, dx: int, dy: int, e: int) -> Seq<(i64, i64)>
    decreases ex - px + 1,
{
    if px > ex {
        Seq::empty()
    } else {
        let rest = if e >= 0 {
            bres_rem(oct, px + 1, py + 1, ex, dx, dy, e - dx + dy)
        } else {
            bres_rem(oct, px + 1, py, ex, dx, dy, e + dy)
        };
        seq![pt64(oct_from(oct, (px, py)))] + rest
    }
}

/// The full point sequence of a Bresenham walk from `start` to `end`.
pub open spec fn bresenham_seq(start: (int, int), end: (int, int)) -> Seq<(i64, i64)> {
    let oct = oct_tag(end.0 - start.0, end.1 - start.1);
    let s = oct_to(oct, start);
    let e = oct_to(oct, end);
    bres_rem(oct, s.0, s.1, e.0, e.0 - s.0, e.1 - s.1, (e.1 - s.1) - (e.0 - s.0))
}

/// The point the walk emits at step `i`, in closed form: in normalized
/// space the walk stands at `x = i` with `y` exactly `floor(i * dy / dx)`
/// above the start.
pub open spec fn bresenham_point_formula(start: (int, int), end: (int, int), i: int) -> (i64, i64) {
    let oct = oct_tag(end.0 - start.0, end.1 - start.1);
    let s = oct_to(oct, start);
    let e = oct_to(oct, end);
    let dx = e.0 - s.0;
    let dy = e.1 - s.1;
    pt64(oct_from(oct, (s.0 + i, s.1 + (if dx == 0 { 0int } else { (i * dy) / dx }))))
}

/// How the error accumulator decides the y step: adding one x step to
/// `t * dy` either keeps the floor quotient or bumps it by exactly one,
/// and the accumulator's sign tells which.
proof fn lemma_bres_floor_step(dx: int, dy: int, t: int)
    requires
        0 < dx,
        0 <= dy <= dx,
        0 <= t,
    ensures
        (t + 1) * dy - (((t * dy) / dx) + 1) * dx >= 0 ==> ((t + 1) * dy) / dx == (t * dy) / dx
            + 1,
        (t + 1) * dy - (((t * dy) / dx) + 1) * dx < 0 ==> ((t + 1) * dy) / dx == (t * dy) / dx,
{
    let q = (t * dy) / dx;
    let r = (t * dy) % dx;
    vstd::arithmetic::div_mod::lemma_fundamental_div_mod(t * dy, dx);
    vstd::arithmetic::div_mod::lemma_mod_bound(t * dy, dx);
    if (t + 1) * dy - (q + 1) * dx >= 0 {
        assert(((t + 1) * dy) / dx == q + 1) by (nonlinear_arith)
            requires
                t * dy == dx * q + r,
                0 <= r < dx,
                0 <= dy <= dx,
                0 < dx,
                (t + 1) * dy - (q + 1) * dx >= 0,
        ;
    } else {
        assert(((t + 1) * dy) / dx == q) by (nonlinear_arith)
            requires
                t * dy == dx * q + r,
                0 <= r < dx,
                0 <= dy <= dx,
                0 < dx,
                (t + 1) * dy - (q + 1) * dx < 0,
        ;
    }
}

/// The closed form of the remaining walk in normalized space.
proof fn lemma_bres_rem_closed(oct: int, s0: int, s1: int, dx: int, dy: int, px: int, py: int, e: int)
    requires
        0 < dx,
        0 <= dy <= dx,
        s0 <= px <= s0 + dx,
        py == s1 + ((px - s0) * dy) / dx,
        e == (px - s0 + 1) * dy - (py - s1 + 1) * dx,
    ensures
        bres_rem(oct, px, py, s0 + dx, dx, dy, e).len() == s0 + dx - px + 1,
        forall|j: int|
            0 <= j <= s0 + dx - px ==> #[trigger] bres_rem(oct, px, py, s0 + dx, dx, dy, e)[j]
                == pt64(oct_from(oct, (px + j, s1 + ((px + j - s0) * dy) / dx))),
    decreases s0 + dx - px,
{
    let rem = bres_rem(oct, px, py, s0 + dx, dx, dy, e);
    let t = px - s0;
    lemma_bres_floor_step(dx, dy, t);
    if px == s0 + dx {
        reveal_with_fuel(bres_rem, 3);
        assert(rem.len() == 1);
    } else {
        let py2 = if e >= 0 { py + 1 } else { py };
        let e2 = if e >= 0 { e - dx + dy } else { e + dy };
        assert(py2 == s1 + ((px + 1 - s0) * dy) / dx);
        assert(e2 == (px + 1 - s0 + 1) * dy - (py2 - s1 + 1) * dx) by (nonlinear_arith)
            requires
                e == (px - s0 + 1) * dy - (py - s1 + 1) * dx,
                e >= 0 ==> py2 == py + 1 && e2 == e - dx + dy,
                e < 0 ==> py2 == py && e2 == e + dy,
        ;
        lemma_bres_rem_closed(oct, s0, s1, dx, dy, px + 1, py2, e2);
        assert forall|j: int|
            0 <= j <= s0 + dx - px implies rem[j] == pt64(
            oct_from(oct, (px + j, s1 + ((px + j - s0) * dy) / dx)),
        ) by {
            if j > 0 {
                assert(rem[j] == bres_rem(oct, px + 1, py2, s0 + dx, dx, dy, e2)[j - 1]);
            } else {
                assert(((px - s0) * dy) / dx == (t * dy) / dx);
            }
        }
    }
}

/// The closed form of a full Bresenham walk: with `dx >= dy >= 0` the
/// normalized deltas, the walk emits exactly `dx + 1` points, and point
/// `i` is the formula point — `x` advances by one each step and `y` is
/// exactly `floor(i * dy / dx)` above the start. In particular the walk
/// includes both endpoints exactly once.
pub proof fn lemma_bresenham_closed_form(start: (int, int), end: (int, int))
    ensures
        bresenham_seq(start, end).len() == 1 + oct_to(
            oct_tag(end.0 - start.0, end.1 - start.1),
            (end.0 - start.0, end.1 - start.1),
        ).0,
        forall|i: int|
            0 <= i < bresenham_seq(start, end).len() ==> #[trigger] bresenham_seq(start, end)[i]
                == bresenham_point_formula(start, end, i),
        bresenham_seq(start, end)[0] == pt64(start),
        bresenham_seq(start, end).last() == pt64(end),
{
    let oct = oct_tag(end.0 - start.0, end.1 - start.1);
    let s = oct_to(oct, start);
    let e = oct_to(oct, end);
    let dx = e.0 - s.0;
    let dy = e.1 - s.1;
    crate::octant::lemma_oct_normalizes(end.0 - start.0, end.1 - start.1);
    crate::octant::lemma_oct_to_sub(oct, end, start);
    crate::octant::lemma_oct_roundtrip(oct, s);
    crate::octant::lemma_oct_roundtrip(oct, e);
    if dx == 0 {
        assert(bresenham_seq(start, end).len() == 1) by {
            reveal_with_fuel(bres_rem, 3);
        }
    } else {
        assert(0 * dy == 0 && (0 * dy) / dx == 0 && (dx * dy) / dx == dy) by (nonlinear_arith)
            requires
                0 < dx,
                0 <= dy,
        ;
        assert(dy - dx == (0 + 1) * dy - (0 + 1) * dx) by (nonlinear_arith);
        lemma_bres_rem_closed(oct, s.0, s.1, dx, dy, s.0, s.1, dy - dx);
        assert(bresenham_seq(start, end).last() == pt64(oct_from(oct, (s.0 + dx, s.1 + dy))));
        assert((s.0 + dx, s.1 + dy) == e);
    }
}

/// An implementation of Bresenham's line algorithm.
///
/// Includes both the start and end point and is asymmetrical.
pub struct Bresenham {
    point: (i64, i64),
    end_x: i64,
    delta_x: i64,
    delta_y: i64,
    error: i64,
    octant: Octant,
}

impl Bresenham {
    /// The walker's state is consistent: canonical octant deltas, a current
    /// point inside the walk's bounding ranges, and the error accumulator
    /// within its one-step window.
    pub closed spec fn wf(self) -> bool {
        &&& 0 <= self.octant.v() < 8
        &&& 0 <= self.delta_y as int <= self.delta_x as int <= 2 * (MAX_COORD as int)
        &&& self.end_x <= MAX_COORD
        &&& -(MAX_COORD as int) <= self.point.0 as int <= self.end_x as int + 1
        &&& -(MAX_COORD as int) <= self.point.1 as int <= self.point.0 as int + 2 * (MAX_COORD as int)
        &&& if self.delta_x > 0 {
            self.delta_y - self.delta_x <= self.error as int <= self.delta_y - 1
        } else {
            self.error == self.delta_y - self.delta_x
        }
    }

    /// The points this walker has yet to emit.
    pub closed spec fn remaining(self) -> Seq<(i64, i64)> {
        bres_rem(
            self.octant.v(),
            self.point.0 as int,
            self.point.1 as int,
            self.end_x as int,
            self.delta_x as int,
            self.delta_y as int,
            self.error as int,
        )
    }

    pub fn new(start: (i64, i64), end: (i64, i64)) -> (r: Bresenham)
        requires
            -MAX_COORD <= start.0 <= MAX_COORD,
            -MAX_COORD <= start.1 <= MAX_COORD,
            -MAX_COORD <= end.0 <= MAX_COORD,
            -MAX_COORD <= end.1 <= MAX_COORD,
        ensures
            r.wf(),
            r.remaining() == bresenham_seq((start.0 as int, start.1 as int), (end.0 as int, end.1 as int)),
    {
        proof {
            crate::octant::lemma_oct_normalizes(end.0 - start.0, end.1 - start.1);
            crate::octant::lemma_oct_to_sub(
                oct_tag(end.0 - start.0, end.1 - start.1),
                (end.0 as int, end.1 as int),
                (start.0 as int, start.1 as int),
            );
        }
        let octant = Octant::new(start, end);
        let s = octant.to(start);
        let e = octant.to(end);

        let delta_x = e.0 - s.0;
        let delta_y = e.1 - s.1;

        Bresenham {
            delta_x,
            delta_y,
            octant,
            point: s,
            end_x: e.0,
            error: delta_y - delta_x,
        }
    }

    /// The next point of the walk, or `None` when it has passed the end.
    pub fn next(&mut self) -> (r: Option<(i64, i64)>)
        requires
            old(self).wf(),
        ensures
            final(self).wf(),
            match r {
                Some(p) => old(self).remaining().len() > 0
                    && p == old(self).remaining()[0]
                    && final(self).remaining() == old(self).remaining().skip(1),
                None => old(self).remaining().len() == 0 && *final(self) == *old(self),
            },
    {
        if self.point.0 <= self.end_x {
            let point = self.octant.from(self.point);

            proof {
                assert(self.remaining() == seq![
                    pt64(oct_from(self.octant.v(), (self.point.0 as int, self.point.1 as int))),
                ] + (if self.error >= 0 {
                    bres_rem(
                        self.octant.v(),
                        self.point.0 as int + 1,
                        self.point.1 as int + 1,
                        self.end_x as int,
                        self.delta_x as int,
                        self.delta_y as int,
                        self.error as int - self.delta_x as int + self.delta_y as int,
                    )
                } else {
                    bres_rem(
                        self.octant.v(),
                        self.point.0 as int + 1,
                        self.point.1 as int,
                        self.end_x as int,
                        self.delta_x as int,
                        self.delta_y as int,
                        self.error as int + self.delta_y as int,
                    )
                }));
                assert(self.remaining().skip(1) =~= if self.error >= 0 {
                    bres_rem(
                        self.octant.v(),
                        self.point.0 as int + 1,
                        self.point.1 as int + 1,
                        self.end_x as int,
                        self.delta_x as int,
                        self.delta_y as int,
                        self.error as int - self.delta_x as int + self.delta_y as int,
                    )
                } else {
                    bres_rem(
                        self.octant.v(),
                        self.point.0 as int + 1,
                        self.point.1 as int,
                        self.end_x as int,
                        self.delta_x as int,
                        self.delta_y as int,
                        self.error as int + self.delta_y as int,
                    )
                });
            }

            if self.error >= 0 {
                self.point.1 = self.point.1 + 1;
                self.error = self.error - self.delta_x;
            }

            self.point.0 = self.point.0 + 1;
            self.error = self.error + self.delta_y;

            Some(point)
        } else {
            None
        }
    }

    /// Collect the whole walk into a vector.
    pub fn points(&mut self) -> (r: Vec<(i64, i64)>)
        requires
            old(self).wf(),
        ensures
            final(self).wf(),
            r@ == old(self).remaining(),
    {
        let mut out: Vec<(i64, i64)> = Vec::new();
        loop
            invariant
                self.wf(),
                out@ + self.remaining() == old(self).remaining(),
            ensures
                self.wf(),
                self.remaining().len() == 0,
                out@ + self.remaining() == old(self).remaining(),
            decreases self.remaining().len(),
        {
            match self.next() {
                Some(p) => {
                    out.push(p);
                }
                None => {
                    break;
                }
            }
        }
        proof {
            assert(out@ =~= old(self).remaining());
        }
        out
    }

    /// Turn the walk into an iterator over `(start, end)` pairs.
    pub fn steps(self) -> (r: Steps<(i64, i64)>)
        requires
            self.wf(),
        ensures
            r.wf(),
            r.remaining() == crate::steps::pair_seq(self.remaining()),
    {
        let mut walker = self;
        let pts = walker.points();
        Steps::new(pts)
    }
}

} // verus!
