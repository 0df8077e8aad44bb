//! An implementation of Xiaolin Wu's anti-aliased line algorithm.

use crate::rat::{q_lt, q_neg, q_sub, rat_small, rq, Rat, QR};
use crate::steps::Steps;
use vstd::prelude::*;

verus! {

/// The specification-level state of an anti-aliased walk: whether the
/// coordinates were transposed (steep line), the current and final integer
/// x in left-to-right space, the running y as a numerator `yn` over the
/// fixed positive denominator `yd`, the per-column y increment numerator
/// `gs` (the gradient, over the same denominator), and whether the next
/// emission is the lower point of the current column's pair.
pub ghost struct WuState {
    pub steep: bool,
    pub x: int,
    pub ex: int,
    pub yn: int,
    pub yd: int,
    pub gs: int,
    pub lower: bool,
}

/// The item emitted from state `s`: a pixel and its coverage weight.
///
/// The fractional part of y covers the lower pixel of the column and its
/// complement covers the upper one.
pub open spec fn wu_item(s: WuState) -> ((i64, i64), Rat) {
    let f = s.yn % s.yd;
    let yi = s.yn / s.yd + if s.lower { 1int } else { 0int };
    let point = if s.steep { (yi as i64, s.x as i64) } else { (s.x as i64, yi as i64) };
    if s.lower {
        (point, Rat { num: f as i128, den: s.yd as i128 })
    } else {
        (point, Rat { num: (s.yd - f) as i128, den: s.yd as i128 })
    }
}

/// One step: a lower emission closes its column and advances; an upper
/// emission either opens a pair (when y has a fractional part) or advances
/// at once.
pub open spec fn wu_step(s: WuState) -> WuState {
    if s.lower {
        WuState { lower: false, x: s.x + 1, yn: s.yn + s.gs, ..s }
    } else if s.yn % s.yd > 0 {
        WuState { lower: true, ..s }
    } else {
        WuState { x: s.x + 1, yn: s.yn + s.gs, ..s }
    }
}

/// The items an anti-aliased walk still emits from state `s`.
pub open spec fn wu_rem(s: WuState) -> Seq<((i64, i64), Rat)>
    decreases s.ex - s.x + 1, (if s.lower { 0int } else { 1int }),
{
    if s.x > s.ex {
        Seq::empty()
    } else {
        seq![wu_item(s)] + wu_rem(wu_step(s))
    }
}

/// The starting state of an anti-aliased walk: transpose if the line is
/// steep, swap the endpoints so the walk runs left to right, and build the
/// gradient as an exact ratio (forced to one when it would be zero or when
/// the endpoints share their x value).
pub open spec fn wu_init(start: (QR, QR), end: (QR, QR)) -> WuState {
    let steep = q_lt(
        q_abs(q_sub(end.0, start.0)),
        q_abs(q_sub(end.1, start.1)),
    );
    let s1 = if steep { (start.1, start.0) } else { start };
    let e1 = if steep { (end.1, end.0) } else { end };
    let swap = q_lt(e1.0, s1.0);
    let s = if swap { e1 } else { s1 };
    let e = if swap { s1 } else { e1 };
    let an = e.1.n * s.1.d - s.1.n * e.1.d;
    let ad = e.1.d * s.1.d;
    let bn = e.0.n * s.0.d - s.0.n * e.0.d;
    let bd = e.0.d * s.0.d;
    let g = if an * bd == 0 || ad * bn == 0 { (1int, 1int) } else { (an * bd, ad * bn) };
    WuState {
        steep,
        x: crate::rat::q_round(s.0),
        ex: crate::rat::q_round(e.0),
        yn: s.1.n * g.1,
        yd: s.1.d * g.1,
        gs: s.1.d * g.0,
        lower: false,
    }
}

/// Absolute value of a specification-level rational.
pub open spec fn q_abs(a: QR) -> QR {
    if a.n < 0 {
        q_neg(a)
    } else {
        a
    }
}

/// The full item sequence of an anti-aliased walk from `start` to `end`.
pub open spec fn xiaolin_wu_seq(start: (Rat, Rat), end: (Rat, Rat)) -> Seq<((i64, i64), Rat)> {
    wu_rem(wu_init((rq(start.0), rq(start.1)), (rq(end.0), rq(end.1))))
}

/// An anti-aliased walk state is well-formed: a positive denominator, a
/// gradient of magnitude at most one, positions inside the ranges small
/// rational inputs allow, and a y numerator within a budget that widens by
/// one denominator per column.
pub open spec fn wu_wf_at(s: WuState) -> bool {
    &&& 0 < s.yd <= 2_000_000_000_000_000_000
    &&& -s.yd <= s.gs <= s.yd
    &&& -1001 <= s.x <= 1002
    &&& -1001 <= s.ex <= 1001
    &&& -(s.yd * (s.x + 3005)) <= s.yn <= s.yd * (s.x + 3005)
}

/// One step preserves well-formedness.
proof fn lemma_wu_step_wf(s: WuState)
    requires
        wu_wf_at(s),
        s.x <= s.ex,
    ensures
        wu_wf_at(wu_step(s)),
{
    let u = wu_step(s);
    if u.x == s.x + 1 {
        assert(-(s.yd * (s.x + 1 + 3005)) <= s.yn + s.gs <= s.yd * (s.x + 1 + 3005))
            by (nonlinear_arith)
            requires
                -(s.yd * (s.x + 3005)) <= s.yn <= s.yd * (s.x + 3005),
                -s.yd <= s.gs <= s.yd,
                s.yd > 0,
        ;
    }
}

/// In a well-formed state the emitted pixel coordinates are small and the
/// coverage fraction lies in `[0, yd)`.
proof fn lemma_wu_item_bounds(s: WuState)
    requires
        wu_wf_at(s),
    ensures
        -4010 <= s.yn / s.yd <= 4010,
        0 <= s.yn % s.yd < s.yd,
        -(s.yd * 4010) <= s.yn <= s.yd * 4010,
        -9_000_000_000_000_000_000_000 <= s.yn <= 9_000_000_000_000_000_000_000,
{
    assert((-4010 <= s.yn / s.yd <= 4010) && (0 <= s.yn % s.yd < s.yd) && (-(s.yd * 4010)
        <= s.yn <= s.yd * 4010) && (-9_000_000_000_000_000_000_000 <= s.yn
        <= 9_000_000_000_000_000_000_000)) by (nonlinear_arith)
        requires
            -(s.yd * (s.x + 3005)) <= s.yn <= s.yd * (s.x + 3005),
            -1001 <= s.x <= 1002,
            0 < s.yd <= 2_000_000_000_000_000_000,
    ;
}

/// The two points of one column share its x coordinate (in transformed,
/// left-to-right space: the transposed coordinate for steep lines).
pub open spec fn wu_same_column(steep: bool, p: ((i64, i64), Rat), q: ((i64, i64), Rat)) -> bool {
    if steep {
        p.0.1 == q.0.1
    } else {
        p.0.0 == q.0.0
    }
}

/// The coverage-sum law: whenever two consecutive emissions land in the
/// same column, their coverage weights are complementary — they share a
/// denominator and their numerators add up to exactly that denominator, so
/// the two weights sum to exactly one.
pub proof fn lemma_wu_coverage_sum(s: WuState)
    requires
        wu_wf_at(s),
    ensures
        forall|i: int|
            0 <= i < wu_rem(s).len() - 1 && wu_same_column(s.steep, wu_rem(s)[i], wu_rem(s)[i + 1])
                ==> (#[trigger] wu_rem(s)[i]).1.den == wu_rem(s)[i + 1].1.den
                && wu_rem(s)[i].1.num + wu_rem(s)[i + 1].1.num == wu_rem(s)[i].1.den,
    decreases s.ex - s.x + 1, (if s.lower { 0int } else { 1int }),
{
    if s.x <= s.ex {
        let s2 = wu_step(s);
        lemma_wu_step_wf(s);
        lemma_wu_item_bounds(s);
        lemma_wu_item_bounds(s2);
        lemma_wu_coverage_sum(s2);
        assert forall|i: int|
            0 <= i < wu_rem(s).len() - 1 && wu_same_column(s.steep, wu_rem(s)[i], wu_rem(s)[i + 1])
                implies (#[trigger] wu_rem(s)[i]).1.den == wu_rem(s)[i + 1].1.den
            && wu_rem(s)[i].1.num + wu_rem(s)[i + 1].1.num == wu_rem(s)[i].1.den by {
            if i == 0 {
                assert(wu_rem(s)[0] == wu_item(s));
                assert(wu_rem(s)[1] == wu_rem(s2)[0]);
                if wu_rem(s2).len() > 0 {
                    assert(wu_rem(s2)[0] == wu_item(s2));
                }
            } else {
                assert(wu_rem(s)[i] == wu_rem(s2)[i - 1]);
                assert(wu_rem(s)[i + 1] == wu_rem(s2)[i]);
            }
        }
    }
}

/// An implementation of Xiaolin Wu's line algorithm.
///
/// This algorithm works on rational (continuous) input points and returns
/// an extra coverage weight with each point, which is useful for
/// anti-aliasing.
///
/// Note that due to the implementation, the returned line will always go
/// from left to right.
pub struct XiaolinWu {
    steep: bool,
    x: i64,
    end_x: i64,
    y_num: i128,
    y_den: i128,
    grad_num: i128,
    lower: bool,
}

impl XiaolinWu {
    /// The specification-level state this walker stands at.
    pub closed spec fn state(self) -> WuState {
        WuState {
            steep: self.steep,
            x: self.x as int,
            ex: self.end_x as int,
            yn: self.y_num as int,
            yd: self.y_den as int,
            gs: self.grad_num as int,
            lower: self.lower,
        }
    }

    /// The items this walker has yet to emit.
    pub open spec fn remaining(self) -> Seq<((i64, i64), Rat)> {
        wu_rem(self.state())
    }

    /// The walker's state is well-formed.
    pub closed spec fn wf(self) -> bool {
        wu_wf_at(self.state())
    }

    pub fn new(start: (Rat, Rat), end: (Rat, Rat)) -> (r: XiaolinWu)
        requires
            rat_small(start.0),
            rat_small(start.1),
            rat_small(end.0),
            rat_small(end.1),
        ensures
            r.wf(),
            r.remaining() == xiaolin_wu_seq(start, end),
    {
        proof {
            lemma_wu_new_bounds(rq(start.0), rq(start.1), rq(end.0), rq(end.1));
        }
        let mut s = start;
        let mut e = end;

        // steep means the line rises faster than it runs
        let dx0 = Rat {
            num: e.0.num * s.0.den - s.0.num * e.0.den,
            den: e.0.den * s.0.den,
        };
        let dy0 = Rat {
            num: e.1.num * s.1.den - s.1.num * e.1.den,
            den: e.1.den * s.1.den,
        };
        let adx = Rat { num: if dx0.num < 0 { -dx0.num } else { dx0.num }, den: dx0.den };
        let ady = Rat { num: if dy0.num < 0 { -dy0.num } else { dy0.num }, den: dy0.den };
        let steep = adx.lt(&ady);

        if steep {
            s = (s.1, s.0);
            e = (e.1, e.0);
        }

        // canonicalize to left-to-right
        let swap = e.0.lt(&s.0);
        if swap {
            let tmp = s;
            s = e;
            e = tmp;
        }

        proof {
            lemma_wu_new_bounds(rq(s.0), rq(s.1), rq(e.0), rq(e.1));
        }

        let an = e.1.num * s.1.den - s.1.num * e.1.den;
        let ad = e.1.den * s.1.den;
        let bn = e.0.num * s.0.den - s.0.num * e.0.den;
        let bd = e.0.den * s.0.den;

        proof {
            lemma_wu_products(an as int, ad as int, bn as int, bd as int);
        }
        let (g_num, g_den): (i128, i128) = if an * bd == 0 || ad * bn == 0 {
            (1, 1)
        } else {
            (an * bd, ad * bn)
        };

        let x0 = s.0.round_i64();
        let ex0 = e.0.round_i64();

        proof {
            let xn = dx0.num as int;
            let xd = dx0.den as int;
            let yn = dy0.num as int;
            let yd = dy0.den as int;
            let ani = an as int;
            let adi = ad as int;
            let bni = bn as int;
            let bdi = bd as int;
            assert(adx.num as int == (if xn < 0 { -xn } else { xn }));
            assert(ady.num as int == (if yn < 0 { -yn } else { yn }));
            // The canonicalized y delta is no larger in magnitude than the
            // x delta: that is exactly what the steep transpose and the
            // left-to-right swap arrange.
            assert(bni >= 0);
            if steep {
                if swap {
                    vstd::arithmetic::mul::lemma_mul_is_commutative(
                        rq(start.0).d,
                        rq(end.0).d,
                    );
                    vstd::arithmetic::mul::lemma_mul_is_commutative(
                        rq(start.1).d,
                        rq(end.1).d,
                    );
                    assert(ani == -xn && adi == xd && bni == -yn && bdi == yd);
                } else {
                    assert(ani == xn && adi == xd && bni == yn && bdi == yd);
                }
                assert((if ani < 0 { -ani } else { ani }) * bdi <= bni * adi);
            } else {
                if swap {
                    vstd::arithmetic::mul::lemma_mul_is_commutative(
                        rq(start.0).d,
                        rq(end.0).d,
                    );
                    vstd::arithmetic::mul::lemma_mul_is_commutative(
                        rq(start.1).d,
                        rq(end.1).d,
                    );
                    assert(ani == -yn && adi == yd && bni == -xn && bdi == xd);
                } else {
                    assert(ani == yn && adi == yd && bni == xn && bdi == xd);
                }
                assert((if ani < 0 { -ani } else { ani }) * bdi <= bni * adi);
            }
            lemma_wu_slope(ani, adi, bni, bdi);
            lemma_wu_scale(g_num as int, g_den as int, rq(s.1), x0 as int);
        }

        XiaolinWu {
            steep,
            x: x0,
            end_x: ex0,
            y_num: s.1.num * g_den,
            y_den: s.1.den * g_den,
            grad_num: s.1.den * g_num,
            lower: false,
        }
    }

    /// The next `(point, coverage)` item of the walk, or `None` when it
    /// has passed the final column.
    pub fn next(&mut self) -> (r: Option<((i64, i64), Rat)>)
        requires
            old(self).wf(),
        ensures
            final(self).wf(),
            match r {
                Some(p) => old(self).remaining().len() > 0
                    && p == old(self).remaining()[0]
                    && final(self).remaining() == old(self).remaining().skip(1),
                None => old(self).remaining().len() == 0 && *final(self) == *old(self),
            },
    {
        if self.x <= self.end_x {
            proof {
                lemma_wu_step_wf(self.state());
                lemma_wu_item_bounds(self.state());
                assert(self.remaining().skip(1) =~= wu_rem(wu_step(self.state())));
            }
            // the integer part of y and the fractional part over y_den
            let (floor_y, fpart) = floor_div(self.y_num, self.y_den);

            let mut yi = floor_y;
            if self.lower {
                yi = yi + 1;
            }

            let point = if self.steep { (yi, self.x) } else { (self.x, yi) };

            if self.lower {
                // Return the lower point of the pair
                self.lower = false;
                self.x = self.x + 1;
                self.y_num = self.y_num + self.grad_num;
                Some((point, Rat { num: fpart, den: self.y_den }))
            } else {
                if fpart > 0 {
                    // Set to return the lower point if the fractional part is > 0
                    self.lower = true;
                } else {
                    // Otherwise move on
                    self.x = self.x + 1;
                    self.y_num = self.y_num + self.grad_num;
                }

                // Return the remainder of the fractional part
                Some((point, Rat { num: self.y_den - fpart, den: self.y_den }))
            }
        } else {
            None
        }
    }

    /// Collect the whole walk into a vector.
    pub fn points(&mut self) -> (r: Vec<((i64, i64), Rat)>)
        requires
            old(self).wf(),
        ensures
            final(self).wf(),
            r@ == old(self).remaining(),
    {
        let mut out: Vec<((i64, i64), Rat)> = Vec::new();
        loop
            invariant
                self.wf(),
                out@ + self.remaining() == old(self).remaining(),
            ensures
                self.wf(),
                self.remaining().len() == 0,
                out@ + self.remaining() == old(self).remaining(),
            decreases self.remaining().len(),
        {
            match self.next() {
                Some(p) => out.push(p),
                None => {
                    break;
                }
            }
        }
        proof {
            assert(out@ =~= old(self).remaining());
        }
        out
    }

    /// Turn the walk into an iterator over `(start, end)` pairs.
    pub fn steps(self) -> (r: Steps<((i64, i64), Rat)>)
        requires
            self.wf(),
        ensures
            r.wf(),
            r.remaining() == crate::steps::pair_seq(self.remaining()),
    {
        let mut walker = self;
        let pts = walker.points();
        Steps::new(pts)
    }
}

/// Euclidean quotient and remainder for a bounded numerator over a
/// positive denominator.
fn floor_div(yn: i128, yd: i128) -> (r: (i64, i128))
    requires
        0 < yd <= 2_000_000_000_000_000_000,
        -(yd as int * 4010) <= yn as int <= yd as int * 4010,
    ensures
        r.0 as int == yn as int / yd as int,
        r.1 as int == yn as int % yd as int,
        0 <= r.1 < yd,
        -4010 <= r.0 <= 4010,
{
    if yn >= 0 {
        proof {
            lemma_floor_div_nonneg(yn as int, yd as int);
        }
        ((yn / yd) as i64, yn % yd)
    } else {
        let t = -yn;
        let qq = (t + yd - 1) / yd;
        proof {
            lemma_floor_div_neg(yn as int, yd as int);
        }
        let m = qq * yd - t;
        (-(qq as i64), m)
    }
}

/// Quotient and remainder bounds for a nonnegative numerator.
proof fn lemma_floor_div_nonneg(n: int, d: int)
    requires
        n >= 0,
        0 < d,
        n <= d * 4010,
    ensures
        0 <= n / d <= 4010,
        0 <= n % d < d,
{
    assert((0 <= n / d <= 4010) && (0 <= n % d < d)) by (nonlinear_arith)
        requires
            n >= 0,
            0 < d,
            n <= d * 4010,
    ;
}

/// The negated ceiling of the magnitude gives the Euclidean quotient and
/// remainder for a negative numerator.
proof fn lemma_floor_div_neg(n: int, d: int)
    requires
        n < 0,
        0 < d <= 2_000_000_000_000_000_000,
        -(d * 4010) <= n,
    ensures
        0 <= ((-n) + d - 1) / d <= 4010,
        -(((-n) + d - 1) / d) == n / d,
        (((-n) + d - 1) / d) * d - (-n) == n % d,
        0 <= n % d < d,
        0 <= (((-n) + d - 1) / d) * d - (-n) < d,
        (((-n) + d - 1) / d) * d <= 9_000_000_000_000_000_000_000,
{
    assert(0 <= ((-n) + d - 1) / d <= 4010) by (nonlinear_arith)
        requires
            n < 0,
            0 < d,
            -(d * 4010) <= n,
    ;
    assert(-(((-n) + d - 1) / d) == n / d) by (nonlinear_arith)
        requires
            n < 0,
            0 < d,
    ;
    assert((((-n) + d - 1) / d) * d - (-n) == n % d) by (nonlinear_arith)
        requires
            n < 0,
            0 < d,
    ;
    assert(0 <= n % d < d) by (nonlinear_arith)
        requires
            n < 0,
            0 < d,
    ;
    assert((((-n) + d - 1) / d) * d <= 9_000_000_000_000_000_000_000) by (nonlinear_arith)
        requires
            n < 0,
            0 < d <= 2_000_000_000_000_000_000,
            -(d * 4010) <= n,
    ;
}

/// Bounds on the delta numerators and denominators of small rationals.
proof fn lemma_wu_new_bounds(s0: QR, s1: QR, e0: QR, e1: QR)
    requires
        0 < s0.d <= 1000,
        -1000 * s0.d <= s0.n <= 1000 * s0.d,
        0 < s1.d <= 1000,
        -1000 * s1.d <= s1.n <= 1000 * s1.d,
        0 < e0.d <= 1000,
        -1000 * e0.d <= e0.n <= 1000 * e0.d,
        0 < e1.d <= 1000,
        -1000 * e1.d <= e1.n <= 1000 * e1.d,
    ensures
        -2_000_000_000 <= e0.n * s0.d - s0.n * e0.d <= 2_000_000_000,
        -2_000_000_000 <= e1.n * s1.d - s1.n * e1.d <= 2_000_000_000,
        -1_000_000_000 <= e0.n * s0.d <= 1_000_000_000,
        -1_000_000_000 <= s0.n * e0.d <= 1_000_000_000,
        -1_000_000_000 <= e1.n * s1.d <= 1_000_000_000,
        -1_000_000_000 <= s1.n * e1.d <= 1_000_000_000,
        0 < e0.d * s0.d <= 1_000_000,
        0 < e1.d * s1.d <= 1_000_000,
{
    assert((-2_000_000_000 <= e0.n * s0.d - s0.n * e0.d <= 2_000_000_000) && (-2_000_000_000
        <= e1.n * s1.d - s1.n * e1.d <= 2_000_000_000) && (-1_000_000_000 <= e0.n * s0.d
        <= 1_000_000_000) && (-1_000_000_000 <= s0.n * e0.d <= 1_000_000_000) && (
    -1_000_000_000 <= e1.n * s1.d <= 1_000_000_000) && (-1_000_000_000 <= s1.n * e1.d
        <= 1_000_000_000) && (0 < e0.d * s0.d <= 1_000_000) && (0 < e1.d * s1.d <= 1_000_000))
        by (nonlinear_arith)
        requires
            0 < s0.d <= 1000,
            -1000 * s0.d <= s0.n <= 1000 * s0.d,
            0 < s1.d <= 1000,
            -1000 * s1.d <= s1.n <= 1000 * s1.d,
            0 < e0.d <= 1000,
            -1000 * e0.d <= e0.n <= 1000 * e0.d,
            0 < e1.d <= 1000,
            -1000 * e1.d <= e1.n <= 1000 * e1.d,
    ;
}


/// From `|an| * bd <= bn * ad` with positive denominators, the gradient
/// numerator is bounded by the gradient denominator in magnitude.
proof fn lemma_wu_slope(an: int, ad: int, bn: int, bd: int)
    requires
        0 < ad,
        0 < bd,
        0 <= bn,
        (if an < 0 { -an } else { an }) * bd <= bn * ad,
    ensures
        -(ad * bn) <= an * bd <= ad * bn,
{
    assert(-(ad * bn) <= an * bd <= ad * bn) by (nonlinear_arith)
        requires
            0 < ad,
            0 < bd,
            0 <= bn,
            (if an < 0 { -an } else { an }) * bd <= bn * ad,
    ;
}

/// The gradient cross products stay small.
proof fn lemma_wu_products(an: int, ad: int, bn: int, bd: int)
    requires
        -2_000_000_000 <= an <= 2_000_000_000,
        0 < ad <= 1_000_000,
        -2_000_000_000 <= bn <= 2_000_000_000,
        0 < bd <= 1_000_000,
    ensures
        -2_000_000_000_000_000 <= an * bd <= 2_000_000_000_000_000,
        -2_000_000_000_000_000 <= ad * bn <= 2_000_000_000_000_000,
{
    assert((-2_000_000_000_000_000 <= an * bd <= 2_000_000_000_000_000) && (
    -2_000_000_000_000_000 <= ad * bn <= 2_000_000_000_000_000)) by (nonlinear_arith)
        requires
            -2_000_000_000 <= an <= 2_000_000_000,
            0 < ad <= 1_000_000,
            -2_000_000_000 <= bn <= 2_000_000_000,
            0 < bd <= 1_000_000,
    ;
}

/// Bounds for the initial y state: the products `new` builds stay inside
/// `i128`, the denominator is positive, the per-column step is at most one
/// denominator, and the starting numerator is inside its budget.
proof fn lemma_wu_scale(gn: int, gd: int, s1: QR, x0: int)
    requires
        0 < gd <= 2_000_000_000_000_000,
        -gd <= gn <= gd,
        0 < s1.d <= 1000,
        -1000 * s1.d <= s1.n <= 1000 * s1.d,
        -1001 <= x0 <= 1001,
    ensures
        0 < s1.d * gd <= 2_000_000_000_000_000_000,
        -(s1.d * gd) <= s1.d * gn <= s1.d * gd,
        -2_000_000_000_000_000_000_000 <= s1.n * gd <= 2_000_000_000_000_000_000_000,
        -((s1.d * gd) * (x0 + 3005)) <= s1.n * gd <= (s1.d * gd) * (x0 + 3005),
{
    assert(0 < s1.d * gd <= 2_000_000_000_000_000_000) by (nonlinear_arith)
        requires
            0 < gd <= 2_000_000_000_000_000,
            0 < s1.d <= 1000,
    ;
    assert(-(s1.d * gd) <= s1.d * gn <= s1.d * gd) by (nonlinear_arith)
        requires
            0 < s1.d,
            -gd <= gn <= gd,
    ;
    assert(-2_000_000_000_000_000_000_000 <= s1.n * gd <= 2_000_000_000_000_000_000_000)
        by (nonlinear_arith)
        requires
            0 < gd <= 2_000_000_000_000_000,
            -1000 * s1.d <= s1.n <= 1000 * s1.d,
            0 < s1.d <= 1000,
    ;
    assert(-((s1.d * gd) * (x0 + 3005)) <= s1.n * gd <= (s1.d * gd) * (x0 + 3005))
        by (nonlinear_arith)
        requires
            0 < gd,
            0 < s1.d,
            -1000 * s1.d <= s1.n <= 1000 * s1.d,
            -1001 <= x0 <= 1001,
    ;
}


/// Two equal-valued fractions have the same floor.
proof fn lemma_floor_congruence(n1: int, d1: int, n2: int, d2: int)
    requires
        d1 > 0,
        d2 > 0,
        n1 * d2 == n2 * d1,
    ensures
        n1 / d1 == n2 / d2,
{
    let q1 = n1 / d1;
    let r1 = n1 % d1;
    let q2 = n2 / d2;
    let r2 = n2 % d2;
    vstd::arithmetic::div_mod::lemma_fundamental_div_mod(n1, d1);
    vstd::arithmetic::div_mod::lemma_fundamental_div_mod(n2, d2);
    vstd::arithmetic::div_mod::lemma_mod_bound(n1, d1);
    vstd::arithmetic::div_mod::lemma_mod_bound(n2, d2);
    assert(q1 == q2) by (nonlinear_arith)
        requires
            n1 == d1 * q1 + r1,
            n2 == d2 * q2 + r2,
            0 <= r1 < d1,
            0 <= r2 < d2,
            d1 > 0,
            d2 > 0,
            n1 * d2 == n2 * d1,
    ;
}

/// Two equal-valued rationals round to the same integer.
proof fn lemma_round_congruence(a: QR, b: QR)
    requires
        a.d > 0,
        b.d > 0,
        a.n * b.d == b.n * a.d,
    ensures
        crate::rat::q_round(a) == crate::rat::q_round(b),
{
    assert(a.n >= 0 <==> b.n >= 0) by (nonlinear_arith)
        requires
            a.d > 0,
            b.d > 0,
            a.n * b.d == b.n * a.d,
    ;
    if a.n >= 0 {
        assert((2 * a.n + a.d) * (2 * b.d) == (2 * b.n + b.d) * (2 * a.d)) by (nonlinear_arith)
            requires
                a.n * b.d == b.n * a.d,
        ;
        lemma_floor_congruence(2 * a.n + a.d, 2 * a.d, 2 * b.n + b.d, 2 * b.d);
    } else {
        assert((2 * (-a.n) + a.d) * (2 * b.d) == (2 * (-b.n) + b.d) * (2 * a.d))
            by (nonlinear_arith)
            requires
                a.n * b.d == b.n * a.d,
        ;
        lemma_floor_congruence(2 * (-a.n) + a.d, 2 * a.d, 2 * (-b.n) + b.d, 2 * b.d);
    }
}

/// Two walk states that agree on everything but the representation of
/// their y fractions (equal as values, with bounded denominators).
pub open spec fn wu_equiv(sa: WuState, sb: WuState) -> bool {
    &&& sa.steep == sb.steep
    &&& sa.x == sb.x
    &&& sa.ex == sb.ex
    &&& sa.lower == sb.lower
    &&& 0 < sa.yd <= 2_000_000_000_000_000_000
    &&& 0 < sb.yd <= 2_000_000_000_000_000_000
    &&& sa.yn * sb.yd == sb.yn * sa.yd
    &&& sa.gs * sb.yd == sb.gs * sa.yd
}

/// One emitted item of each walk, pointwise: equal pixels and equal-valued
/// coverage weights.
pub open spec fn wu_item_eq(p: ((i64, i64), Rat), q: ((i64, i64), Rat)) -> bool {
    &&& p.0 == q.0
    &&& crate::rat::rat_eq(p.1, q.1)
}

/// Equivalent states emit pointwise equal walks.
proof fn lemma_wu_equiv_walk(sa: WuState, sb: WuState)
    requires
        wu_equiv(sa, sb),
    ensures
        wu_rem(sa).len() == wu_rem(sb).len(),
        forall|i: int|
            0 <= i < wu_rem(sa).len() ==> wu_item_eq(#[trigger] wu_rem(sa)[i], wu_rem(sb)[i]),
    decreases sa.ex - sa.x + 1, (if sa.lower { 0int } else { 1int }),
{
    if sa.x <= sa.ex {
        let qa = sa.yn / sa.yd;
        let qb = sb.yn / sb.yd;
        let fa = sa.yn % sa.yd;
        let fb = sb.yn % sb.yd;
        lemma_floor_congruence(sa.yn, sa.yd, sb.yn, sb.yd);
        vstd::arithmetic::div_mod::lemma_fundamental_div_mod(sa.yn, sa.yd);
        vstd::arithmetic::div_mod::lemma_fundamental_div_mod(sb.yn, sb.yd);
        vstd::arithmetic::div_mod::lemma_mod_bound(sa.yn, sa.yd);
        vstd::arithmetic::div_mod::lemma_mod_bound(sb.yn, sb.yd);
        assert(fa * sb.yd == fb * sa.yd) by (nonlinear_arith)
            requires
                sa.yn == sa.yd * qa + fa,
                sb.yn == sb.yd * qb + fb,
                qa == qb,
                sa.yn * sb.yd == sb.yn * sa.yd,
        ;
        assert(fa > 0 <==> fb > 0) by (nonlinear_arith)
            requires
                fa * sb.yd == fb * sa.yd,
                0 <= fa,
                0 <= fb,
                sa.yd > 0,
                sb.yd > 0,
        ;
        assert(wu_item_eq(wu_item(sa), wu_item(sb))) by {
            assert((sa.yd - fa) * sb.yd == (sb.yd - fb) * sa.yd) by (nonlinear_arith)
                requires
                    fa * sb.yd == fb * sa.yd,
            ;
        }
        let ta = wu_step(sa);
        let tb = wu_step(sb);
        assert(wu_equiv(ta, tb)) by {
            assert((sa.yn + sa.gs) * sb.yd == (sb.yn + sb.gs) * sa.yd) by (nonlinear_arith)
                requires
                    sa.yn * sb.yd == sb.yn * sa.yd,
                    sa.gs * sb.yd == sb.gs * sa.yd,
            ;
        }
        lemma_wu_equiv_walk(ta, tb);
        assert forall|i: int|
            0 <= i < wu_rem(sa).len() implies wu_item_eq(
            #[trigger] wu_rem(sa)[i],
            wu_rem(sb)[i],
        ) by {
            if i > 0 {
                assert(wu_rem(sa)[i] == wu_rem(ta)[i - 1]);
                assert(wu_rem(sb)[i] == wu_rem(tb)[i - 1]);
            }
        }
    }
}

/// The left-right canonicalization law: the anti-aliased walk of a segment
/// does not depend on the order of its endpoints — both orders yield the
/// same pixels with the same coverage values.
pub proof fn lemma_xiaolin_wu_symmetric(a: (Rat, Rat), b: (Rat, Rat))
    requires
        rat_small(a.0),
        rat_small(a.1),
        rat_small(b.0),
        rat_small(b.1),
    ensures
        xiaolin_wu_seq(a, b).len() == xiaolin_wu_seq(b, a).len(),
        forall|i: int|
            0 <= i < xiaolin_wu_seq(a, b).len() ==> wu_item_eq(
                #[trigger] xiaolin_wu_seq(a, b)[i],
                xiaolin_wu_seq(b, a)[i],
            ),
{
    let a0 = rq(a.0);
    let a1 = rq(a.1);
    let b0 = rq(b.0);
    let b1 = rq(b.1);
    let f = wu_init((a0, a1), (b0, b1));
    let g = wu_init((b0, b1), (a0, a1));
    vstd::arithmetic::mul::lemma_mul_is_commutative(a0.d, b0.d);
    vstd::arithmetic::mul::lemma_mul_is_commutative(a1.d, b1.d);
    assert(a0.d * b0.d > 0 && a1.d * b1.d > 0 && b0.d * a0.d > 0 && b1.d * a1.d > 0)
        by (nonlinear_arith)
        requires
            a0.d > 0,
            b0.d > 0,
            a1.d > 0,
            b1.d > 0,
    ;
    // the steep test sees the same magnitudes from both ends
    assert(q_abs(q_sub(a0, b0)).n == q_abs(q_sub(b0, a0)).n);
    assert(q_abs(q_sub(a1, b1)).n == q_abs(q_sub(b1, a1)).n);
    let steep = q_lt(q_abs(q_sub(b0, a0)), q_abs(q_sub(b1, a1)));
    assert(q_lt(q_abs(q_sub(a0, b0)), q_abs(q_sub(a1, b1))) == steep);
    let sa = if steep { (a1, a0) } else { (a0, a1) };
    let sb = if steep { (b1, b0) } else { (b0, b1) };
    if q_lt(sb.0, sa.0) || q_lt(sa.0, sb.0) {
        // a strict order: both runs canonicalize to the identical pair,
        // so the walks are equal outright
        assert(f == g);
        assert forall|i: int|
            0 <= i < wu_rem(f).len() implies wu_item_eq(
            #[trigger] wu_rem(f)[i],
            wu_rem(g)[i],
        ) by {
        }
    } else {
        // the endpoints share their x value: neither run swaps, and the
        // y extent is zero as well, so both gradients are forced to one
        assert(sa.0.n * sb.0.d == sb.0.n * sa.0.d);
        if steep {
            assert(q_abs(q_sub(b1, a1)).n == 0);
            assert(false) by (nonlinear_arith)
                requires
                    q_abs(q_sub(b0, a0)).n >= 0,
                    q_abs(q_sub(b1, a1)).d > 0,
                    q_abs(q_sub(b1, a1)).n == 0,
                    q_abs(q_sub(b0, a0)).n * q_abs(q_sub(b1, a1)).d < q_abs(
                        q_sub(b1, a1),
                    ).n * q_abs(q_sub(b0, a0)).d,
            ;
        }
        assert(q_sub(b0, a0).n == 0);
        assert(q_abs(q_sub(b1, a1)).n == 0) by (nonlinear_arith)
            requires
                q_abs(q_sub(b0, a0)).n == 0,
                q_abs(q_sub(b0, a0)).d > 0,
                q_abs(q_sub(b1, a1)).n >= 0,
                !(q_abs(q_sub(b0, a0)).n * q_abs(q_sub(b1, a1)).d < q_abs(
                    q_sub(b1, a1),
                ).n * q_abs(q_sub(b0, a0)).d),
        ;
        assert(sa.1.n * sb.1.d == sb.1.n * sa.1.d);
        let bnf = sb.0.n * sa.0.d - sa.0.n * sb.0.d;
        let bng = sa.0.n * sb.0.d - sb.0.n * sa.0.d;
        assert(bnf == 0 && bng == 0);
        assert((sb.1.d * sa.1.d) * bnf == 0 && (sa.1.d * sb.1.d) * bng == 0)
            by (nonlinear_arith)
            requires
                bnf == 0,
                bng == 0,
        ;
        lemma_round_congruence(sa.0, sb.0);
        assert(sa.1.n * 1 == sa.1.n && sa.1.d * 1 == sa.1.d && sb.1.n * 1 == sb.1.n && sb.1.d
            * 1 == sb.1.d) by (nonlinear_arith);
        vstd::arithmetic::mul::lemma_mul_is_commutative(sa.1.d, sb.1.d);
        assert(wu_equiv(f, g));
        lemma_wu_equiv_walk(f, g);
    }
}

} // verus!
