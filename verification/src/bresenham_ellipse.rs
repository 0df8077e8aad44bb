//! An implementation of Bresenham's ellipse algorithm.

use crate::octant::pt64;
use crate::bresenham_3d::imax;
use crate::bresenham_circle::MAX_CENTER;
use crate::steps::Steps;
use vstd::prelude::*;

verus! {

/// The largest radius the ellipse walker accepts.
pub const MAX_ELLIPSE_RADIUS: i64 = 10_000;

/// The specification-level state of an ellipse walk: the nonnegative offset
/// `(x, y)` from the center, the center, the radii, the running decision
/// terms `dx`, `dy` and error `e`, the crossover quantities `ex`, `ey`, the
/// quadrant `q` about to be emitted, and whether the walk is still in the
/// first region (tangent slope above -1).
pub ghost struct EState {
    pub x: int,
    pub y: int,
    pub cx: int,
    pub cy: int,
    pub rx: int,
    pub ry: int,
    pub dx: int,
    pub dy: int,
    pub e: int,
    pub ex: int,
    pub ey: int,
    pub q: int,
    pub fr: bool,
}

/// The state after the single region-1 to region-2 switch, which
/// re-initializes every decision quantity in closed form.
pub open spec fn ell_region2_init(s: EState) -> EState {
    EState {
        x: 0,
        y: s.ry,
        dx: s.ry * s.ry,
        dy: s.rx * s.rx * (1 - 2 * s.ry),
        e: 0,
        ex: 0,
        ey: 2 * s.rx * s.rx * s.ry,
        fr: false,
        ..s
    }
}

/// The effective state a call works on: entering region 2 happens lazily,
/// at the first call that sees the region-1 crossover condition fail.
pub open spec fn ell_eff(s: EState) -> EState {
    if s.fr && !(s.ex >= s.ey) {
        ell_region2_init(s)
    } else {
        s
    }
}

/// The walk is exhausted: region 2 has run past its own crossover.
pub open spec fn ell_done(s: EState) -> bool {
    !(s.fr && s.ex >= s.ey) && !(s.ex <= s.ey)
}

/// The point emitted in the current quadrant.
pub open spec fn ell_point(s: EState) -> (int, int) {
    let t = ell_eff(s);
    if t.q == 1 {
        (t.cx + t.x, t.cy + t.y)
    } else if t.q == 2 {
        (t.cx - t.x, t.cy + t.y)
    } else if t.q == 3 {
        (t.cx - t.x, t.cy - t.y)
    } else {
        (t.cx + t.x, t.cy - t.y)
    }
}

/// One call's state change: quadrants cycle, and after the fourth quadrant
/// the offsets and decision terms take the two-region midpoint-ellipse
/// update.
pub open spec fn ell_step(s: EState) -> EState {
    let t = ell_eff(s);
    if t.q != 4 {
        EState { q: t.q + 1, ..t }
    } else if t.fr {
        let y1 = t.y + 1;
        let ey1 = t.ey + 2 * t.rx * t.rx;
        let e1 = t.e + t.dy;
        let dy1 = t.dy + 2 * t.rx * t.rx;
        if 2 * e1 + t.dx > 0 {
            EState {
                y: y1,
                ey: ey1,
                e: e1 + t.dx,
                dy: dy1,
                x: t.x - 1,
                ex: t.ex - 2 * t.ry * t.ry,
                dx: t.dx + 2 * t.ry * t.ry,
                q: 1,
                ..t
            }
        } else {
            EState { y: y1, ey: ey1, e: e1, dy: dy1, q: 1, ..t }
        }
    } else {
        let x1 = t.x + 1;
        let ex1 = t.ex + 2 * t.ry * t.ry;
        let e1 = t.e + t.dx;
        let dx1 = t.dx + 2 * t.ry * t.ry;
        if 2 * e1 + t.dy > 0 {
            EState {
                x: x1,
                ex: ex1,
                e: e1 + t.dy,
                dx: dx1,
                y: t.y - 1,
                ey: t.ey - 2 * t.rx * t.rx,
                dy: t.dy + 2 * t.rx * t.rx,
                q: 1,
                ..t
            }
        } else {
            EState { x: x1, ex: ex1, e: e1, dx: dx1, q: 1, ..t }
        }
    }
}

/// The points an ellipse walk still emits from state `s`.
pub open spec fn ell_rem(s: EState) -> Seq<(i64, i64)>
    decreases
            (if s.fr { 1int } else { 0int }),
            (if s.fr {
                imax(0, s.ex - s.ey + 2 * s.rx * s.rx)
            } else {
                imax(0, s.ey - s.ex + 2 * s.ry * s.ry)
            }),
            5 - s.q,
    via ell_rem_dec
{
    if ell_done(s) || s.rx < 1 || s.ry < 1 || !(1 <= s.q <= 4) {
        Seq::empty()
    } else {
        seq![pt64(ell_point(s))] + ell_rem(ell_step(s))
    }
}

#[via_fn]
proof fn ell_rem_dec(s: EState) {
    if !(ell_done(s) || s.rx < 1 || s.ry < 1 || !(1 <= s.q <= 4)) {
        assert(2 * s.rx * s.rx >= 2 && 2 * s.ry * s.ry >= 2) by (nonlinear_arith)
            requires
                s.rx >= 1,
                s.ry >= 1,
        ;
    }
}

/// Numeric bounds on the squared-radius products that every update uses.
proof fn lemma_ell_products(rx: int, ry: int)
    requires
        1 <= rx <= 10_000,
        1 <= ry <= 10_000,
    ensures
        1 <= rx * rx <= 100_000_000,
        1 <= ry * ry <= 100_000_000,
        -2_000_000_000_000 <= ry * ry * (1 - 2 * rx) <= 0,
        -2_000_000_000_000 <= rx * rx * (1 - 2 * ry) <= 0,
        0 <= 2 * ry * ry * rx <= 2_000_000_000_000,
        0 <= 2 * rx * rx * ry <= 2_000_000_000_000,
{
    assert((1 <= rx * rx <= 100_000_000) && (1 <= ry * ry <= 100_000_000) && (
    -2_000_000_000_000 <= ry * ry * (1 - 2 * rx) <= 0) && (-2_000_000_000_000 <= rx * rx * (1
        - 2 * ry) <= 0) && (0 <= 2 * ry * ry * rx <= 2_000_000_000_000) && (0 <= 2 * rx * rx
        * ry <= 2_000_000_000_000)) by (nonlinear_arith)
        requires
            1 <= rx <= 10_000,
            1 <= ry <= 10_000,
    ;
}

/// The starting state of an ellipse walk, set up for region 1.
pub open spec fn ell_init(cx: int, cy: int, rx: int, ry: int) -> EState {
    EState {
        x: rx,
        y: 0,
        cx,
        cy,
        rx,
        ry,
        dx: ry * ry * (1 - 2 * rx),
        dy: rx * rx,
        e: 0,
        ex: 2 * ry * ry * rx,
        ey: 0,
        q: 1,
        fr: true,
    }
}

/// The full point sequence of an ellipse walk.
pub open spec fn ellipse_seq(cx: int, cy: int, rx: int, ry: int) -> Seq<(i64, i64)> {
    ell_rem(ell_init(cx, cy, rx, ry))
}

/// An ellipse walk state is well-formed when its decision terms keep their
/// closed forms in the offset and the offsets stay inside their region's
/// bounds.
pub open spec fn ell_wf_at(s: EState) -> bool {
    &&& 1 <= s.rx <= MAX_ELLIPSE_RADIUS as int
    &&& 1 <= s.ry <= MAX_ELLIPSE_RADIUS as int
    &&& -(MAX_CENTER as int) <= s.cx <= MAX_CENTER as int
    &&& -(MAX_CENTER as int) <= s.cy <= MAX_CENTER as int
    &&& 1 <= s.q <= 4
    &&& s.ex == 2 * s.ry * s.ry * s.x
    &&& s.ey == 2 * s.rx * s.rx * s.y
    &&& s.e == s.ry * s.ry * s.x * s.x + s.rx * s.rx * s.y * s.y - s.rx * s.rx * s.ry * s.ry
    &&& if s.fr {
        &&& s.dy == s.rx * s.rx * (2 * s.y + 1)
        &&& s.dx == s.ry * s.ry * (1 - 2 * s.x)
        &&& -1 <= s.x <= s.rx
        &&& 0 <= s.y <= s.ry * s.ry + 1
    } else {
        &&& s.dx == s.ry * s.ry * (2 * s.x + 1)
        &&& s.dy == s.rx * s.rx * (1 - 2 * s.y)
        &&& -1 <= s.y <= s.ry
        &&& 0 <= s.x <= s.rx * s.rx + 1
    }
}

/// Crude magnitude bounds on every decision quantity of a well-formed
/// state; they keep the executable arithmetic far inside `i128`.
proof fn lemma_ell_bounds(s: EState)
    requires
        ell_wf_at(s),
    ensures
        -10_000_000_000_000_000_000_000_000 <= s.e <= 10_000_000_000_000_000_000_000_000,
        -1_000_000_000_000_000_000 <= s.dx <= 1_000_000_000_000_000_000,
        -1_000_000_000_000_000_000 <= s.dy <= 1_000_000_000_000_000_000,
        -1_000_000_000_000_000_000 <= s.ex <= 1_000_000_000_000_000_000,
        -1_000_000_000_000_000_000 <= s.ey <= 1_000_000_000_000_000_000,
{
    assert((-10_000_000_000_000_000_000_000_000 <= s.e <= 10_000_000_000_000_000_000_000_000)
        && (-1_000_000_000_000_000_000 <= s.dx <= 1_000_000_000_000_000_000)
        && (-1_000_000_000_000_000_000 <= s.dy <= 1_000_000_000_000_000_000)
        && (-1_000_000_000_000_000_000 <= s.ex <= 1_000_000_000_000_000_000)
        && (-1_000_000_000_000_000_000 <= s.ey <= 1_000_000_000_000_000_000))
        by (nonlinear_arith)
        requires
            ell_wf_at(s),
            1 <= s.rx <= 10_000,
            1 <= s.ry <= 10_000,
    ;
}

/// The lazy region switch produces a well-formed region-2 state.
proof fn lemma_ell_eff_wf(s: EState)
    requires
        ell_wf_at(s),
    ensures
        ell_wf_at(ell_eff(s)),
        !s.fr ==> ell_eff(s) == s,
{
    if s.fr && !(s.ex >= s.ey) {
        let t = ell_region2_init(s);
        assert(t.ex == 2 * t.ry * t.ry * t.x && t.ey == 2 * t.rx * t.rx * t.y && t.e == t.ry
            * t.ry * t.x * t.x + t.rx * t.rx * t.y * t.y - t.rx * t.rx * t.ry * t.ry && t.dx
            == t.ry * t.ry * (2 * t.x + 1) && t.dy == t.rx * t.rx * (1 - 2 * t.y))
            by (nonlinear_arith)
            requires
                t == ell_region2_init(s),
                s.rx >= 1,
                s.ry >= 1,
        ;
    }
}

/// One step preserves well-formedness.
proof fn lemma_ell_step_wf(s: EState)
    requires
        ell_wf_at(s),
        !ell_done(s),
    ensures
        ell_wf_at(ell_step(s)),
{
    lemma_ell_eff_wf(s);
    let t = ell_eff(s);
    let u = ell_step(s);
    if t.q != 4 {
    } else if t.fr {
        // The region-1 crossover condition held when this ring was emitted.
        assert(t.ex >= t.ey);
        assert(t.x >= 0) by (nonlinear_arith)
            requires
                2 * t.ry * t.ry * t.x >= 2 * t.rx * t.rx * t.y,
                t.y >= 0,
                t.rx >= 1,
                t.ry >= 1,
                t.ex == 2 * t.ry * t.ry * t.x,
                t.ey == 2 * t.rx * t.rx * t.y,
                t.ex >= t.ey,
        ;
        assert(t.y <= t.ry * t.ry) by (nonlinear_arith)
            requires
                2 * t.ry * t.ry * t.x >= 2 * t.rx * t.rx * t.y,
                t.x <= t.rx,
                t.rx >= 1,
                t.ry >= 1,
                t.y >= 0,
        ;
        let y1 = t.y + 1;
        let e1 = t.e + t.dy;
        assert(t.ey + 2 * t.rx * t.rx == 2 * t.rx * t.rx * y1 && e1 == t.ry * t.ry * t.x * t.x
            + t.rx * t.rx * y1 * y1 - t.rx * t.rx * t.ry * t.ry && t.dy + 2 * t.rx * t.rx
            == t.rx * t.rx * (2 * y1 + 1)) by (nonlinear_arith)
            requires
                y1 == t.y + 1,
                e1 == t.e + t.dy,
                t.ey == 2 * t.rx * t.rx * t.y,
                t.e == t.ry * t.ry * t.x * t.x + t.rx * t.rx * t.y * t.y - t.rx * t.rx * t.ry
                    * t.ry,
                t.dy == t.rx * t.rx * (2 * t.y + 1),
        ;
        if 2 * e1 + t.dx > 0 {
            let x1 = t.x - 1;
            assert(t.ex - 2 * t.ry * t.ry == 2 * t.ry * t.ry * x1 && e1 + t.dx == t.ry * t.ry
                * x1 * x1 + t.rx * t.rx * y1 * y1 - t.rx * t.rx * t.ry * t.ry && t.dx + 2 * t.ry
                * t.ry == t.ry * t.ry * (1 - 2 * x1)) by (nonlinear_arith)
                requires
                    x1 == t.x - 1,
                    t.ex == 2 * t.ry * t.ry * t.x,
                    e1 == t.ry * t.ry * t.x * t.x + t.rx * t.rx * y1 * y1 - t.rx * t.rx * t.ry
                        * t.ry,
                    t.dx == t.ry * t.ry * (1 - 2 * t.x),
            ;
        }
    } else {
        // The region-2 crossover condition held when this ring was emitted.
        assert(t.ex <= t.ey);
        assert(t.y >= 0) by (nonlinear_arith)
            requires
                t.ex <= t.ey,
                t.ex == 2 * t.ry * t.ry * t.x,
                t.ey == 2 * t.rx * t.rx * t.y,
                t.x >= 0,
                t.rx >= 1,
                t.ry >= 1,
        ;
        assert(t.x <= t.rx * t.rx) by (nonlinear_arith)
            requires
                2 * t.ry * t.ry * t.x <= 2 * t.rx * t.rx * t.y,
                t.y <= t.ry,
                t.rx >= 1,
                t.ry >= 1,
                t.x >= 0,
        ;
        let x1 = t.x + 1;
        let e1 = t.e + t.dx;
        assert(t.ex + 2 * t.ry * t.ry == 2 * t.ry * t.ry * x1 && e1 == t.ry * t.ry * x1 * x1
            + t.rx * t.rx * t.y * t.y - t.rx * t.rx * t.ry * t.ry && t.dx + 2 * t.ry * t.ry
            == t.ry * t.ry * (2 * x1 + 1)) by (nonlinear_arith)
            requires
                x1 == t.x + 1,
                e1 == t.e + t.dx,
                t.ex == 2 * t.ry * t.ry * t.x,
                t.e == t.ry * t.ry * t.x * t.x + t.rx * t.rx * t.y * t.y - t.rx * t.rx * t.ry
                    * t.ry,
                t.dx == t.ry * t.ry * (2 * t.x + 1),
        ;
        if 2 * e1 + t.dy > 0 {
            let y1 = t.y - 1;
            assert(t.ey - 2 * t.rx * t.rx == 2 * t.rx * t.rx * y1 && e1 + t.dy == t.ry * t.ry
                * x1 * x1 + t.rx * t.rx * y1 * y1 - t.rx * t.rx * t.ry * t.ry && t.dy + 2 * t.rx
                * t.rx == t.rx * t.rx * (1 - 2 * y1)) by (nonlinear_arith)
                requires
                    y1 == t.y - 1,
                    t.ey == 2 * t.rx * t.rx * t.y,
                    e1 == t.ry * t.ry * x1 * x1 + t.rx * t.rx * t.y * t.y - t.rx * t.rx * t.ry
                        * t.ry,
                    t.dy == t.rx * t.rx * (1 - 2 * t.y),
            ;
        }
    }
}


/// A fresh ellipse walk state is well-formed.
pub proof fn lemma_ell_init_wf(cx: int, cy: int, rx: int, ry: int)
    requires
        1 <= rx <= MAX_ELLIPSE_RADIUS as int,
        1 <= ry <= MAX_ELLIPSE_RADIUS as int,
        -(MAX_CENTER as int) <= cx <= MAX_CENTER as int,
        -(MAX_CENTER as int) <= cy <= MAX_CENTER as int,
    ensures
        ell_wf_at(ell_init(cx, cy, rx, ry)),
{
    let s = ell_init(cx, cy, rx, ry);
    assert(s.ex == 2 * s.ry * s.ry * s.x && s.ey == 2 * s.rx * s.rx * s.y && s.e == s.ry * s.ry
        * s.x * s.x + s.rx * s.rx * s.y * s.y - s.rx * s.rx * s.ry * s.ry && s.dy == s.rx
        * s.rx * (2 * s.y + 1) && s.dx == s.ry * s.ry * (1 - 2 * s.x) && 0 <= s.y <= s.ry
        * s.ry + 1) by (nonlinear_arith)
        requires
            s == ell_init(cx, cy, rx, ry),
            1 <= rx,
            1 <= ry,
    ;
}

/// A reflection across the vertical axis through the center.
pub open spec fn ell_mirror_x(c: (int, int), p: (i64, i64), r: (i64, i64)) -> bool {
    &&& r.0 as int - c.0 == -(p.0 as int - c.0)
    &&& r.1 == p.1
}

/// A reflection across the horizontal axis through the center.
pub open spec fn ell_mirror_y(c: (int, int), p: (i64, i64), r: (i64, i64)) -> bool {
    &&& r.0 == p.0
    &&& r.1 as int - c.1 == -(p.1 as int - c.1)
}

/// Consecutive in-ring emissions are reflections of one another about the
/// center's axes.
pub open spec fn ell_ring_rel(c: (int, int), i: int, p: (i64, i64), r: (i64, i64)) -> bool {
    if i % 4 == 1 {
        ell_mirror_y(c, p, r)
    } else {
        ell_mirror_x(c, p, r)
    }
}

/// Unrolls one full ring of four emissions.
proof fn lemma_ell_ring_expand(s: EState)
    requires
        s.q == 1,
        !ell_done(s),
        s.rx >= 1,
        s.ry >= 1,
    ensures
        ell_rem(s) == seq![
            pt64(ell_point(s)),
            pt64(ell_point(ell_step(s))),
            pt64(ell_point(ell_step(ell_step(s)))),
            pt64(ell_point(ell_step(ell_step(ell_step(s))))),
        ] + ell_rem(ell_step(ell_step(ell_step(ell_step(s))))),
{
    reveal_with_fuel(ell_rem, 5);
    assert(ell_rem(s) =~= seq![
        pt64(ell_point(s)),
        pt64(ell_point(ell_step(s))),
        pt64(ell_point(ell_step(ell_step(s)))),
        pt64(ell_point(ell_step(ell_step(ell_step(s))))),
    ] + ell_rem(ell_step(ell_step(ell_step(ell_step(s))))));
}

/// The 4-fold symmetry of the ellipse walk: points come in rings of four,
/// and inside a ring each point is the axis reflection about the center of
/// the one before it, so the four quadrant points of every computed offset
/// are emitted exactly.
#[verifier::rlimit(80)]
pub proof fn lemma_ellipse_fourfold(s: EState)
    requires
        ell_wf_at(s),
        s.q == 1,
    ensures
        ell_rem(s).len() % 4 == 0,
        forall|i: int|
            0 <= i && i + 1 < ell_rem(s).len() && i % 4 != 3 ==> #[trigger] ell_ring_rel(
                (s.cx, s.cy),
                i,
                ell_rem(s)[i],
                ell_rem(s)[i + 1],
            ),
    decreases ell_rem(s).len(),
{
    if !ell_done(s) {
        lemma_ell_products(s.rx, s.ry);
        lemma_ell_eff_wf(s);
        lemma_ell_step_wf(s);
        let s1 = ell_step(s);
        lemma_ell_step_wf(s1);
        let s2 = ell_step(s1);
        lemma_ell_step_wf(s2);
        let s3 = ell_step(s2);
        lemma_ell_step_wf(s3);
        let s4 = ell_step(s3);
        assert(s4.q == 1);
        let rest = ell_rem(s4);
        lemma_ell_ring_expand(s);
        lemma_ellipse_fourfold(s4);
        assert forall|i: int|
            0 <= i && i + 1 < ell_rem(s).len() && i % 4 != 3 implies #[trigger] ell_ring_rel(
            (s.cx, s.cy),
            i,
            ell_rem(s)[i],
            ell_rem(s)[i + 1],
        ) by {
            if i >= 4 {
                assert(ell_rem(s)[i] == rest[i - 4]);
                assert(ell_rem(s)[i + 1] == rest[i - 4 + 1]);
                assert((i - 4) % 4 == i % 4);
                assert(ell_ring_rel((s.cx, s.cy), i - 4, rest[i - 4], rest[i - 4 + 1]));
            }
        }
    }
}

/// The 4-fold symmetry law for a freshly constructed ellipse walk.
pub proof fn lemma_ellipse_seq_fourfold(cx: int, cy: int, rx: int, ry: int)
    requires
        1 <= rx <= MAX_ELLIPSE_RADIUS as int,
        1 <= ry <= MAX_ELLIPSE_RADIUS as int,
        -(MAX_CENTER as int) <= cx <= MAX_CENTER as int,
        -(MAX_CENTER as int) <= cy <= MAX_CENTER as int,
    ensures
        ellipse_seq(cx, cy, rx, ry).len() % 4 == 0,
        forall|i: int|
            0 <= i && i + 1 < ellipse_seq(cx, cy, rx, ry).len() && i % 4 != 3
                ==> #[trigger] ell_ring_rel(
                (cx, cy),
                i,
                ellipse_seq(cx, cy, rx, ry)[i],
                ellipse_seq(cx, cy, rx, ry)[i + 1],
            ),
{
    lemma_ell_init_wf(cx, cy, rx, ry);
    lemma_ellipse_fourfold(ell_init(cx, cy, rx, ry));
}

/// An implementation of Bresenham's ellipse algorithm.
///
/// This uses four quadrants, so calling `next()` will return a point for
/// the first quadrant, then the second, third, fourth and then back to the
/// first.
pub struct BresenhamEllipse {
    x: i64,
    y: i64,
    center_x: i64,
    center_y: i64,
    radius_x: i64,
    radius_y: i64,
    delta_x: i128,
    delta_y: i128,
    error: i128,
    quadrant: u8,
    end_x: i128,
    end_y: i128,
    first_region: bool,
}

impl BresenhamEllipse {
    /// The specification-level state this walker stands at.
    pub closed spec fn state(self) -> EState {
        EState {
            x: self.x as int,
            y: self.y as int,
            cx: self.center_x as int,
            cy: self.center_y as int,
            rx: self.radius_x as int,
            ry: self.radius_y as int,
            dx: self.delta_x as int,
            dy: self.delta_y as int,
            e: self.error as int,
            ex: self.end_x as int,
            ey: self.end_y as int,
            q: self.quadrant as int,
            fr: self.first_region,
        }
    }

    /// The points this walker has yet to emit.
    pub open spec fn remaining(self) -> Seq<(i64, i64)> {
        ell_rem(self.state())
    }

    /// The walker's state is well-formed.
    pub closed spec fn wf(self) -> bool {
        ell_wf_at(self.state())
    }

    pub fn new(center_x: i64, center_y: i64, radius_x: i64, radius_y: i64) -> (r:
        BresenhamEllipse)
        requires
            1 <= radius_x <= MAX_ELLIPSE_RADIUS,
            1 <= radius_y <= MAX_ELLIPSE_RADIUS,
            -MAX_CENTER <= center_x <= MAX_CENTER,
            -MAX_CENTER <= center_y <= MAX_CENTER,
        ensures
            r.wf(),
            r.remaining() == ellipse_seq(
                center_x as int,
                center_y as int,
                radius_x as int,
                radius_y as int,
            ),
    {
        proof {
            lemma_ell_products(radius_x as int, radius_y as int);
            let a = radius_x as int;
            let b = radius_y as int;
            assert((0 <= 2 * b * b <= 200_000_000) && (0 <= 2 * b * b * a
                <= 2_000_000_000_000) && (-2_000_000_000_000 <= b * b * (1 - 2 * a) <= 0) && (0
                <= a * a <= 100_000_000)) by (nonlinear_arith)
                requires
                    1 <= a <= 10_000,
                    1 <= b <= 10_000,
            ;
        }
        let rx = radius_x as i128;
        let ry = radius_y as i128;
        let radius_y_squared_doubled: i128 = 2 * ry * ry;

        let r = BresenhamEllipse {
            center_x,
            center_y,
            radius_x,
            radius_y,
            x: radius_x,
            y: 0,
            delta_x: ry * ry * (1 - 2 * rx),
            delta_y: rx * rx,
            error: 0,
            end_x: radius_y_squared_doubled * rx,
            end_y: 0,
            quadrant: 1,
            first_region: true,
        };
        proof {
            let rxi = radius_x as int;
            let ryi = radius_y as int;
            assert(r.state().ex == 2 * ryi * ryi * rxi && r.state().ey == 2 * rxi * rxi * 0
                && r.state().e == ryi * ryi * rxi * rxi + rxi * rxi * 0 * 0 - rxi * rxi * ryi
                * ryi && r.state().dx == ryi * ryi * (1 - 2 * rxi) && r.state().dy == rxi * rxi
                * (2 * 0 + 1)) by (nonlinear_arith)
                requires
                    r.state().ex == 2 * ryi * ryi * rxi,
                    r.state().ey == 0,
                    r.state().e == 0,
                    r.state().dx == ryi * ryi * (1 - 2 * rxi),
                    r.state().dy == rxi * rxi,
                    r.state().x == rxi,
                    r.state().y == 0,
                    1 <= rxi <= 10_000,
                    1 <= ryi <= 10_000,
            ;
        }
        r
    }

    /// The next point of the walk, or `None` once region 2 has run out.
    pub fn next(&mut self) -> (r: Option<(i64, i64)>)
        requires
            old(self).wf(),
        ensures
            final(self).wf(),
            match r {
                Some(p) => old(self).remaining().len() > 0
                    && p == old(self).remaining()[0]
                    && final(self).remaining() == old(self).remaining().skip(1),
                None => old(self).remaining().len() == 0 && *final(self) == *old(self),
            },
    {
        proof {
            let a = self.radius_x as int;
            let b = self.radius_y as int;
            assert((2 <= 2 * a * a <= 200_000_000) && (2 <= 2 * b * b <= 200_000_000) && (0
                <= a * a <= 100_000_000) && (0 <= b * b <= 100_000_000) && (-2_000_000_000_000
                <= a * a * (1 - 2 * b) <= 0) && (0 <= 2 * a * a * b <= 2_000_000_000_000))
                by (nonlinear_arith)
                requires
                    1 <= a <= 10_000,
                    1 <= b <= 10_000,
            ;
            lemma_ell_products(self.state().rx, self.state().ry);
            lemma_ell_bounds(self.state());
            lemma_ell_eff_wf(self.state());
            if !ell_done(self.state()) {
                lemma_ell_products(ell_eff(self.state()).rx, ell_eff(self.state()).ry);
                lemma_ell_bounds(ell_eff(self.state()));
            }
            if !ell_done(self.state()) {
                lemma_ell_step_wf(self.state());
                assert(self.remaining().skip(1) =~= ell_rem(ell_step(self.state())));
            }
        }
        let ghost orig = self.state();

        if self.first_region && self.end_x >= self.end_y {
            let point = match self.quadrant {
                1 => (self.center_x + self.x, self.center_y + self.y),
                2 => (self.center_x - self.x, self.center_y + self.y),
                3 => (self.center_x - self.x, self.center_y - self.y),
                _ => (self.center_x + self.x, self.center_y - self.y),
            };

            if self.quadrant == 4 {
                let rx2: i128 = 2 * (self.radius_x as i128) * (self.radius_x as i128);
                let ry2: i128 = 2 * (self.radius_y as i128) * (self.radius_y as i128);
                self.y = self.y + 1;
                self.end_y = self.end_y + rx2;
                self.error = self.error + self.delta_y;
                self.delta_y = self.delta_y + rx2;

                if self.error * 2 + self.delta_x > 0 {
                    self.x = self.x - 1;
                    self.end_x = self.end_x - ry2;
                    self.error = self.error + self.delta_x;
                    self.delta_x = self.delta_x + ry2;
                }
            }

            self.quadrant = self.quadrant % 4 + 1;

            Some(point)
        } else if self.end_x <= self.end_y {
            if self.first_region {
                self.first_region = false;

                let rx = self.radius_x as i128;
                let ry = self.radius_y as i128;
                self.x = 0;
                self.y = self.radius_y;
                self.delta_x = ry * ry;
                self.delta_y = rx * rx * (1 - 2 * ry);
                self.error = 0;
                self.end_x = 0;
                self.end_y = 2 * rx * rx * ry;
            }
            proof {
                assert(self.state() == ell_eff(orig));
            }

            let point = match self.quadrant {
                1 => (self.center_x + self.x, self.center_y + self.y),
                2 => (self.center_x - self.x, self.center_y + self.y),
                3 => (self.center_x - self.x, self.center_y - self.y),
                _ => (self.center_x + self.x, self.center_y - self.y),
            };

            if self.quadrant == 4 {
                let rx2: i128 = 2 * (self.radius_x as i128) * (self.radius_x as i128);
                let ry2: i128 = 2 * (self.radius_y as i128) * (self.radius_y as i128);
                self.x = self.x + 1;
                self.end_x = self.end_x + ry2;
                self.error = self.error + self.delta_x;
                self.delta_x = self.delta_x + ry2;

                if self.error * 2 + self.delta_y > 0 {
                    self.y = self.y - 1;
                    self.end_y = self.end_y - rx2;
                    self.error = self.error + self.delta_y;
                    self.delta_y = self.delta_y + rx2;
                }
            }

            self.quadrant = self.quadrant % 4 + 1;

            Some(point)
        } else {
            None
        }
    }

    /// Collect the whole walk into a vector.
    pub fn points(&mut self) -> (r: Vec<(i64, i64)>)
        requires
            old(self).wf(),
        ensures
            final(self).wf(),
            r@ == old(self).remaining(),
    {
        let mut out: Vec<(i64, i64)> = Vec::new();
        loop
            invariant
                self.wf(),
                out@ + self.remaining() == old(self).remaining(),
            ensures
                self.wf(),
                self.remaining().len() == 0,
                out@ + self.remaining() == old(self).remaining(),
            decreases self.remaining().len(),
        {
            match self.next() {
                Some(p) => out.push(p),
                None => {
                    break;
                }
            }
        }
        proof {
            assert(out@ =~= old(self).remaining());
        }
        out
    }

    /// Turn the walk into an iterator over `(start, end)` pairs.
    pub fn steps(self) -> (r: Steps<(i64, i64)>)
        requires
            self.wf(),
        ensures
            r.wf(),
            r.remaining() == crate::steps::pair_seq(self.remaining()),
    {
        let mut walker = self;
        let pts = walker.points();
        Steps::new(pts)
    }
}

} // verus!
