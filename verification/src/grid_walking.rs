//! Walk along a grid, taking only orthogonal steps (plus, for the
//! supercover variant, diagonal steps at exact corner crossings).
//!
//! At each step the walk compares the fractional progress `(0.5 + ix) / nx`
//! against `(0.5 + iy) / ny`; the comparisons are evaluated exactly by
//! cross-multiplication, so a zero-length axis simply never wins the race
//! and the tie test is precise.

use crate::octant::{pt64, MAX_COORD};
use crate::steps::Steps;
use crate::bresenham_3d::{iabs, isign};
use vstd::prelude::*;

verus! {

/// The specification-level state of a grid walk: current point, per-axis
/// step counters, per-axis step signs, and per-axis step counts.
pub ghost struct GwState {
    pub point: (int, int),
    pub ix: int,
    pub iy: int,
    pub sign: (int, int),
    pub n: (int, int),
}

/// The exact comparison `(0.5 + ix) / nx < (0.5 + iy) / ny`, cross-multiplied.
/// A zero-length axis never takes a step this way.
pub open spec fn gw_x_first(s: GwState) -> bool {
    (2 * s.ix + 1) * s.n.1 < (2 * s.iy + 1) * s.n.0
}

/// The exact tie `(0.5 + ix) / nx == (0.5 + iy) / ny`, cross-multiplied.
pub open spec fn gw_tie(s: GwState) -> bool {
    (2 * s.ix + 1) * s.n.1 == (2 * s.iy + 1) * s.n.0
}

/// One orthogonal step: the axis whose fractional progress is smaller
/// advances, ties going to the y axis.
pub open spec fn wg_step(s: GwState) -> GwState {
    if gw_x_first(s) {
        GwState { point: (s.point.0 + s.sign.0, s.point.1), ix: s.ix + 1, ..s }
    } else {
        GwState { point: (s.point.0, s.point.1 + s.sign.1), iy: s.iy + 1, ..s }
    }
}

/// One supercover step: exact ties advance both axes diagonally.
pub open spec fn sc_step(s: GwState) -> GwState {
    if gw_tie(s) {
        GwState {
            point: (s.point.0 + s.sign.0, s.point.1 + s.sign.1),
            ix: s.ix + 1,
            iy: s.iy + 1,
            ..s
        }
    } else {
        wg_step(s)
    }
}

/// The points an orthogonal grid walk still emits from state `s`.
pub open spec fn wg_rem(s: GwState) -> Seq<(i64, i64)>
    decreases s.n.0 - s.ix + s.n.1 - s.iy + 2,
{
    if s.ix > s.n.0 || s.iy > s.n.1 {
        Seq::empty()
    } else {
        seq![pt64(s.point)] + wg_rem(wg_step(s))
    }
}

/// The points a supercover walk still emits from state `s`.
pub open spec fn sc_rem(s: GwState) -> Seq<(i64, i64)>
    decreases s.n.0 - s.ix + s.n.1 - s.iy + 2,
{
    if s.ix > s.n.0 || s.iy > s.n.1 {
        Seq::empty()
    } else {
        seq![pt64(s.point)] + sc_rem(sc_step(s))
    }
}

/// The starting state of a grid walk from `start` to `end`.
pub open spec fn gw_init(start: (int, int), end: (int, int)) -> GwState {
    GwState {
        point: start,
        ix: 0,
        iy: 0,
        sign: (isign(end.0 - start.0), isign(end.1 - start.1)),
        n: (iabs(end.0 - start.0), iabs(end.1 - start.1)),
    }
}

/// The full point sequence of an orthogonal grid walk from `start` to `end`.
pub open spec fn walk_grid_seq(start: (int, int), end: (int, int)) -> Seq<(i64, i64)> {
    wg_rem(gw_init(start, end))
}

/// The full point sequence of a supercover walk from `start` to `end`.
pub open spec fn supercover_seq(start: (int, int), end: (int, int)) -> Seq<(i64, i64)> {
    sc_rem(sc_init(start, end))
}

/// The starting state of a supercover walk; identical to the grid walk's.
pub open spec fn sc_init(start: (int, int), end: (int, int)) -> GwState {
    gw_init(start, end)
}

/// No two consecutive points of an orthogonal grid walk differ in both
/// coordinates: every step is a single-axis step.
pub proof fn lemma_walk_grid_no_diagonal(s: GwState)
    ensures
        forall|i: int|
            0 <= i < wg_rem(s).len() - 1 ==> !(#[trigger] wg_rem(s)[i].0 != wg_rem(s)[i + 1].0
                && wg_rem(s)[i].1 != wg_rem(s)[i + 1].1),
    decreases s.n.0 - s.ix + s.n.1 - s.iy + 2,
{
    if !(s.ix > s.n.0 || s.iy > s.n.1) {
        let s2 = wg_step(s);
        lemma_walk_grid_no_diagonal(s2);
        assert forall|i: int|
            0 <= i < wg_rem(s).len() - 1 implies !(#[trigger] wg_rem(s)[i].0 != wg_rem(s)[i + 1].0
            && wg_rem(s)[i].1 != wg_rem(s)[i + 1].1) by {
            if i == 0 {
                assert(wg_rem(s)[1] == wg_rem(s2)[0]);
            } else {
                assert(wg_rem(s)[i] == wg_rem(s2)[i - 1]);
                assert(wg_rem(s)[i + 1] == wg_rem(s2)[i]);
            }
        }
    }
}


/// Whether a walk state still has an emission to make.
pub open spec fn gw_in_range(s: GwState) -> bool {
    s.ix <= s.n.0 && s.iy <= s.n.1
}

/// The supercover path invariant: counters are nonnegative and the state
/// stays within half a step of the exact line, on both sides.
pub open spec fn sc_inv(s: GwState) -> bool {
    &&& s.n.0 >= 0
    &&& s.n.1 >= 0
    &&& 0 <= s.ix
    &&& 0 <= s.iy
    &&& (2 * s.ix - 1) * s.n.1 < (2 * s.iy + 1) * s.n.0
    &&& (2 * s.iy - 1) * s.n.0 < (2 * s.ix + 1) * s.n.1
}

/// The state of the reversed walk that stands at the same point: counters
/// measured from the other end, signs negated.
pub open spec fn sc_mirror(s: GwState) -> GwState {
    GwState {
        point: s.point,
        ix: s.n.0 - s.ix,
        iy: s.n.1 - s.iy,
        sign: (-s.sign.0, -s.sign.1),
        n: s.n,
    }
}

/// The state reached after `k` steps.
pub open spec fn sc_run(s: GwState, k: nat) -> GwState
    decreases k,
{
    if k == 0 {
        s
    } else {
        sc_run(sc_step(s), (k - 1) as nat)
    }
}

/// Running one step more is stepping the result once.
proof fn lemma_sc_run_snoc(s: GwState, k: nat)
    ensures
        sc_run(s, k + 1) == sc_step(sc_run(s, k)),
    decreases k,
{
    reveal_with_fuel(sc_run, 3);
    if k > 0 {
        lemma_sc_run_snoc(sc_step(s), (k - 1) as nat);
    }
}

/// One step preserves the path invariant.
proof fn lemma_sc_inv_step(s: GwState)
    requires
        sc_inv(s),
        gw_in_range(s),
        !(s.n.0 == 0 && s.n.1 == 0),
    ensures
        sc_inv(sc_step(s)),
{
    let u = s.ix;
    let v = s.iy;
    let nx = s.n.0;
    let ny = s.n.1;
    if gw_tie(s) {
        assert(nx > 0 && ny > 0) by (nonlinear_arith)
            requires
                (2 * u + 1) * ny == (2 * v + 1) * nx,
                0 <= u,
                0 <= v,
                0 <= nx,
                0 <= ny,
                !(nx == 0 && ny == 0),
        ;
        assert((2 * (u + 1) - 1) * ny < (2 * (v + 1) + 1) * nx && (2 * (v + 1) - 1) * nx < (2
            * (u + 1) + 1) * ny) by (nonlinear_arith)
            requires
                (2 * u + 1) * ny == (2 * v + 1) * nx,
                nx > 0,
                ny > 0,
        ;
    } else if gw_x_first(s) {
        assert((2 * (u + 1) - 1) * ny < (2 * v + 1) * nx && (2 * v - 1) * nx < (2 * (u + 1)
            + 1) * ny) by (nonlinear_arith)
            requires
                (2 * u + 1) * ny < (2 * v + 1) * nx,
                (2 * v - 1) * nx < (2 * u + 1) * ny,
                ny >= 0,
        ;
    } else {
        assert((2 * u - 1) * ny < (2 * (v + 1) + 1) * nx && (2 * (v + 1) - 1) * nx < (2 * u
            + 1) * ny) by (nonlinear_arith)
            requires
                (2 * u + 1) * ny > (2 * v + 1) * nx,
                (2 * u - 1) * ny < (2 * v + 1) * nx,
                nx >= 0,
        ;
    }
}

/// Element `k` of the remaining sequence is the point of the state reached
/// after `k` steps, which is still in range, and what remains there is
/// exactly the tail of the starting sequence.
proof fn lemma_sc_index(s: GwState, k: nat)
    requires
        k < sc_rem(s).len(),
    ensures
        gw_in_range(sc_run(s, k)),
        sc_rem(s)[k as int] == pt64(sc_run(s, k).point),
        sc_rem(sc_run(s, k)).len() == sc_rem(s).len() - k,
    decreases k,
{
    if k > 0 {
        lemma_sc_index(sc_step(s), (k - 1) as nat);
    }
}

/// The invariant holds at every state of a run.
proof fn lemma_sc_inv_run(s: GwState, k: nat)
    requires
        sc_inv(s),
        !(s.n.0 == 0 && s.n.1 == 0),
        k < sc_rem(s).len(),
    ensures
        sc_inv(sc_run(s, k)),
    decreases k,
{
    if k > 0 {
        lemma_sc_inv_step(s);
        lemma_sc_inv_run(sc_step(s), (k - 1) as nat);
    }
}

/// The walk's last emission is made with both counters at their bounds.
proof fn lemma_sc_last(s: GwState)
    requires
        sc_inv(s),
        gw_in_range(s),
        !(s.n.0 == 0 && s.n.1 == 0),
    ensures
        sc_rem(s).len() >= 1,
        sc_run(s, (sc_rem(s).len() - 1) as nat).ix == s.n.0,
        sc_run(s, (sc_rem(s).len() - 1) as nat).iy == s.n.1,
    decreases sc_rem(s).len(),
{
    let u = s.ix;
    let v = s.iy;
    let nx = s.n.0;
    let ny = s.n.1;
    if !gw_in_range(sc_step(s)) {
        // the step after the last emission leaves the grid; with the
        // invariant that can only happen from the far corner
        if gw_tie(s) {
            assert(u == nx && v == ny) by (nonlinear_arith)
                requires
                    (2 * u + 1) * ny == (2 * v + 1) * nx,
                    0 <= u <= nx,
                    0 <= v <= ny,
                    !(nx == 0 && ny == 0),
                    u + 1 > nx || v + 1 > ny,
            ;
        } else if gw_x_first(s) {
            assert(u == nx && v == ny) by (nonlinear_arith)
                requires
                    (2 * u + 1) * ny < (2 * v + 1) * nx,
                    (2 * v - 1) * nx < (2 * u + 1) * ny,
                    0 <= u <= nx,
                    0 <= v <= ny,
                    u + 1 > nx,
            ;
        } else {
            assert(u == nx && v == ny) by (nonlinear_arith)
                requires
                    (2 * u + 1) * ny > (2 * v + 1) * nx,
                    (2 * u - 1) * ny < (2 * v + 1) * nx,
                    0 <= u <= nx,
                    0 <= v <= ny,
                    v + 1 > ny,
            ;
        }
    } else {
        lemma_sc_inv_step(s);
        lemma_sc_last(sc_step(s));
        assert(sc_run(s, (sc_rem(s).len() - 1) as nat) == sc_run(
            sc_step(s),
            (sc_rem(sc_step(s)).len() - 1) as nat,
        ));
    }
}

/// The core symmetry step: when the walk moves from `s`, the reversed walk
/// standing at the mirror of the moved state moves straight back to the
/// mirror of `s`.
proof fn lemma_sc_local(s: GwState)
    requires
        sc_inv(s),
        gw_in_range(s),
        !(s.n.0 == 0 && s.n.1 == 0),
    ensures
        sc_step(sc_mirror(sc_step(s))) == sc_mirror(s),
{
    let u = s.ix;
    let v = s.iy;
    let nx = s.n.0;
    let ny = s.n.1;
    let m = sc_mirror(sc_step(s));
    if gw_tie(s) {
        assert(gw_tie(m)) by (nonlinear_arith)
            requires
                m.ix == nx - (u + 1) && m.iy == ny - (v + 1) && m.n == (nx, ny),
                (2 * u + 1) * ny == (2 * v + 1) * nx,
                gw_tie(m) == ((2 * m.ix + 1) * m.n.1 == (2 * m.iy + 1) * m.n.0),
        ;
    } else if gw_x_first(s) {
        assert(!gw_tie(m) && gw_x_first(m)) by (nonlinear_arith)
            requires
                m.ix == nx - (u + 1) && m.iy == ny - v && m.n == (nx, ny),
                (2 * u + 1) * ny < (2 * v + 1) * nx,
                (2 * v - 1) * nx < (2 * u + 1) * ny,
                gw_tie(m) == ((2 * m.ix + 1) * m.n.1 == (2 * m.iy + 1) * m.n.0),
                gw_x_first(m) == ((2 * m.ix + 1) * m.n.1 < (2 * m.iy + 1) * m.n.0),
        ;
    } else {
        assert(!gw_tie(m) && !gw_x_first(m)) by (nonlinear_arith)
            requires
                m.ix == nx - u && m.iy == ny - (v + 1) && m.n == (nx, ny),
                (2 * u + 1) * ny > (2 * v + 1) * nx,
                (2 * u - 1) * ny < (2 * v + 1) * nx,
                gw_tie(m) == ((2 * m.ix + 1) * m.n.1 == (2 * m.iy + 1) * m.n.0),
                gw_x_first(m) == ((2 * m.ix + 1) * m.n.1 < (2 * m.iy + 1) * m.n.0),
        ;
    }
}

/// The reversed walk steps through the mirrors of the forward walk's
/// states, in the opposite order.
proof fn lemma_sc_reverse_run(f: GwState, i: nat)
    requires
        sc_inv(f),
        gw_in_range(f),
        !(f.n.0 == 0 && f.n.1 == 0),
        i < sc_rem(f).len(),
    ensures
        sc_run(sc_mirror(sc_run(f, (sc_rem(f).len() - 1) as nat)), i) == sc_mirror(
            sc_run(f, (sc_rem(f).len() - 1 - i) as nat),
        ),
    decreases i,
{
    let kk = (sc_rem(f).len() - 1) as nat;
    let b = sc_mirror(sc_run(f, kk));
    if i > 0 {
        lemma_sc_reverse_run(f, (i - 1) as nat);
        let j = (sc_rem(f).len() - i) as nat;
        // run(b, i) = step(run(b, i - 1)) = step(mirror(run(f, j)))
        lemma_sc_run_snoc(b, (i - 1) as nat);
        // run(f, j) = step(run(f, j - 1))
        lemma_sc_run_snoc(f, (j - 1) as nat);
        lemma_sc_index(f, (j - 1) as nat);
        lemma_sc_index(f, j);
        lemma_sc_inv_run(f, (j - 1) as nat);
        lemma_sc_local(sc_run(f, (j - 1) as nat));
    }
}

/// From a state whose every reachable state stays in range for `k` more
/// steps, at least `k + 1` emissions remain.
proof fn lemma_sc_len_lower(s: GwState, k: nat)
    requires
        forall|j: nat| j <= k ==> gw_in_range(#[trigger] sc_run(s, j)),
    ensures
        sc_rem(s).len() >= k + 1,
    decreases k,
{
    assert(gw_in_range(sc_run(s, 0)));
    if k > 0 {
        assert forall|j: nat| j <= (k - 1) as nat implies gw_in_range(
            #[trigger] sc_run(sc_step(s), j),
        ) by {
            assert(sc_run(s, j + 1) == sc_run(sc_step(s), j));
            assert(gw_in_range(sc_run(s, j + 1)));
        }
        lemma_sc_len_lower(sc_step(s), (k - 1) as nat);
    }
}

/// The point of every state equals the start plus the signed counters.
proof fn lemma_sc_point_run(s: GwState, a: (int, int), k: nat)
    requires
        s.point.0 == a.0 + s.sign.0 * s.ix,
        s.point.1 == a.1 + s.sign.1 * s.iy,
    ensures
        sc_run(s, k).sign == s.sign,
        sc_run(s, k).n == s.n,
        sc_run(s, k).point.0 == a.0 + s.sign.0 * sc_run(s, k).ix,
        sc_run(s, k).point.1 == a.1 + s.sign.1 * sc_run(s, k).iy,
    decreases k,
{
    if k > 0 {
        let t = sc_step(s);
        assert(t.point.0 == a.0 + s.sign.0 * t.ix && t.point.1 == a.1 + s.sign.1 * t.iy)
            by (nonlinear_arith)
            requires
                s.point.0 == a.0 + s.sign.0 * s.ix,
                s.point.1 == a.1 + s.sign.1 * s.iy,
                t == sc_step(s),
        ;
        lemma_sc_point_run(t, a, (k - 1) as nat);
    }
}

/// The supercover symmetry law: the walk from `b` back to `a` is exactly
/// the reverse of the walk from `a` to `b`.
pub proof fn lemma_supercover_symmetric(a: (int, int), b: (int, int))
    ensures
        supercover_seq(b, a) == supercover_seq(a, b).reverse(),
{
    let f = sc_init(a, b);
    let g = sc_init(b, a);
    if a == b {
        reveal_with_fuel(sc_rem, 3);
        assert(supercover_seq(b, a) =~= supercover_seq(a, b).reverse());
    } else {
        let nx = f.n.0;
        let ny = f.n.1;
        assert(sc_inv(f)) by (nonlinear_arith)
            requires
                f.ix == 0 && f.iy == 0 && f.n.0 >= 0 && f.n.1 >= 0,
                !(f.n.0 == 0 && f.n.1 == 0),
        ;
        let kk = (sc_rem(f).len() - 1) as nat;
        lemma_sc_last(f);
        lemma_sc_point_run(f, a, kk);
        // the final forward point is b itself
        assert(a.0 + f.sign.0 * nx == b.0 && a.1 + f.sign.1 * ny == b.1) by (nonlinear_arith)
            requires
                f.sign.0 == isign(b.0 - a.0),
                f.sign.1 == isign(b.1 - a.1),
                nx == iabs(b.0 - a.0),
                ny == iabs(b.1 - a.1),
        ;
        assert(g == sc_mirror(sc_run(f, kk)));
        // the reversed walk has the same length
        assert forall|j: nat| j <= kk implies gw_in_range(#[trigger] sc_run(g, j)) by {
            lemma_sc_reverse_run(f, j);
            lemma_sc_index(f, (sc_rem(f).len() - 1 - j) as nat);
            lemma_sc_inv_run(f, (sc_rem(f).len() - 1 - j) as nat);
        }
        lemma_sc_len_lower(g, kk);
        lemma_sc_reverse_run(f, kk);
        assert(sc_run(g, kk) == sc_mirror(sc_run(f, 0)));
        assert(sc_rem(sc_run(g, kk)).len() == 1) by {
            reveal_with_fuel(sc_rem, 3);
        }
        lemma_sc_index(g, kk);
        assert(sc_rem(g).len() == kk + 1);
        // match every index to the opposite end of the forward walk
        assert forall|i: int| 0 <= i < sc_rem(g).len() implies sc_rem(g)[i] == sc_rem(f).reverse()[i] by {
            lemma_sc_index(g, i as nat);
            lemma_sc_reverse_run(f, i as nat);
            lemma_sc_index(f, (sc_rem(f).len() - 1 - i) as nat);
        }
        assert(sc_rem(g) =~= sc_rem(f).reverse());
    }
}


/// Every grid walk emits at least one point, and the first one is the
/// start itself.
pub proof fn lemma_walk_grid_starts(start: (int, int), end: (int, int))
    ensures
        walk_grid_seq(start, end).len() >= 1,
        walk_grid_seq(start, end)[0] == pt64(start),
        supercover_seq(start, end).len() >= 1,
        supercover_seq(start, end)[0] == pt64(start),
{
}

/// Walk along a grid, taking only orthogonal steps.
///
/// Note that this algorithm isn't symmetrical; if you swap `start` and
/// `end`, the reversed line may differ.
pub struct WalkGrid {
    point: (i64, i64),
    ix: i64,
    iy: i64,
    sign_x: i64,
    sign_y: i64,
    ny: i64,
    nx: i64,
}

impl WalkGrid {
    /// The specification-level state this walker stands at.
    pub closed spec fn state(self) -> GwState {
        GwState {
            point: (self.point.0 as int, self.point.1 as int),
            ix: self.ix as int,
            iy: self.iy as int,
            sign: (self.sign_x as int, self.sign_y as int),
            n: (self.nx as int, self.ny as int),
        }
    }

    /// The points this walker has yet to emit.
    pub open spec fn remaining(self) -> Seq<(i64, i64)> {
        wg_rem(self.state())
    }

    /// The walker's state is consistent: counters inside their ranges, unit
    /// signs, and a point that cannot have strayed further from the start
    /// than the steps already taken.
    pub closed spec fn wf(self) -> bool {
        &&& 0 <= self.nx as int <= 2 * (MAX_COORD as int)
        &&& 0 <= self.ny as int <= 2 * (MAX_COORD as int)
        &&& 0 <= self.ix as int <= self.nx as int + 1
        &&& 0 <= self.iy as int <= self.ny as int + 1
        &&& -1 <= self.sign_x <= 1
        &&& -1 <= self.sign_y <= 1
        &&& iabs(self.point.0 as int) <= MAX_COORD as int + self.ix as int
        &&& iabs(self.point.1 as int) <= MAX_COORD as int + self.iy as int
    }

    pub fn new(start: (i64, i64), end: (i64, i64)) -> (r: WalkGrid)
        requires
            -MAX_COORD <= start.0 <= MAX_COORD,
            -MAX_COORD <= start.1 <= MAX_COORD,
            -MAX_COORD <= end.0 <= MAX_COORD,
            -MAX_COORD <= end.1 <= MAX_COORD,
        ensures
            r.wf(),
            r.remaining() == walk_grid_seq(
                (start.0 as int, start.1 as int),
                (end.0 as int, end.1 as int),
            ),
    {
        let dx = end.0 - start.0;
        let dy = end.1 - start.1;

        WalkGrid {
            point: start,
            ix: 0,
            iy: 0,
            sign_x: if dx < 0 { -1 } else if dx > 0 { 1 } else { 0 },
            sign_y: if dy < 0 { -1 } else if dy > 0 { 1 } else { 0 },
            nx: if dx < 0 { -dx } else { dx },
            ny: if dy < 0 { -dy } else { dy },
        }
    }

    /// The next point of the walk, or `None` when a counter has passed its
    /// bound.
    pub fn next(&mut self) -> (r: Option<(i64, i64)>)
        requires
            old(self).wf(),
        ensures
            final(self).wf(),
            match r {
                Some(p) => old(self).remaining().len() > 0
                    && p == old(self).remaining()[0]
                    && final(self).remaining() == old(self).remaining().skip(1),
                None => old(self).remaining().len() == 0 && *final(self) == *old(self),
            },
    {
        if self.ix <= self.nx && self.iy <= self.ny {
            let point = self.point;
            proof {
                assert(self.remaining().skip(1) =~= wg_rem(wg_step(self.state())));
            }

            proof {
                vstd::arithmetic::mul::lemma_mul_upper_bound(
                    2 * (self.ix as int) + 1,
                    4 * (MAX_COORD as int) + 3,
                    self.ny as int,
                    2 * (MAX_COORD as int),
                );
                vstd::arithmetic::mul::lemma_mul_upper_bound(
                    2 * (self.iy as int) + 1,
                    4 * (MAX_COORD as int) + 3,
                    self.nx as int,
                    2 * (MAX_COORD as int),
                );
                vstd::arithmetic::mul::lemma_mul_nonnegative(2 * (self.ix as int) + 1, self.ny as int);
                vstd::arithmetic::mul::lemma_mul_nonnegative(2 * (self.iy as int) + 1, self.nx as int);
            }
            if (2 * (self.ix as i128) + 1) * (self.ny as i128)
                < (2 * (self.iy as i128) + 1) * (self.nx as i128) {
                self.point.0 = self.point.0 + self.sign_x;
                self.ix = self.ix + 1;
            } else {
                self.point.1 = self.point.1 + self.sign_y;
                self.iy = self.iy + 1;
            }

            Some(point)
        } else {
            None
        }
    }

    /// Collect the whole walk into a vector.
    pub fn points(&mut self) -> (r: Vec<(i64, i64)>)
        requires
            old(self).wf(),
        ensures
            final(self).wf(),
            r@ == old(self).remaining(),
    {
        let mut out: Vec<(i64, i64)> = Vec::new();
        loop
            invariant
                self.wf(),
                out@ + self.remaining() == old(self).remaining(),
            ensures
                self.wf(),
                self.remaining().len() == 0,
                out@ + self.remaining() == old(self).remaining(),
            decreases self.remaining().len(),
        {
            match self.next() {
                Some(p) => out.push(p),
                None => {
                    break;
                }
            }
        }
        proof {
            assert(out@ =~= old(self).remaining());
        }
        out
    }

    /// Turn the walk into an iterator over `(start, end)` pairs.
    pub fn steps(self) -> (r: Steps<(i64, i64)>)
        requires
            self.wf(),
        ensures
            r.wf(),
            r.remaining() == crate::steps::pair_seq(self.remaining()),
    {
        let mut walker = self;
        let pts = walker.points();
        Steps::new(pts)
    }
}

/// Like [`WalkGrid`] but takes diagonal steps if the line passes directly
/// over a corner.
///
/// This algorithm is symmetrical: swapping `start` and `end` reverses the
/// walk exactly.
pub struct Supercover {
    point: (i64, i64),
    ix: i64,
    iy: i64,
    sign_x: i64,
    sign_y: i64,
    ny: i64,
    nx: i64,
}

impl Supercover {
    /// The specification-level state this walker stands at.
    pub closed spec fn state(self) -> GwState {
        GwState {
            point: (self.point.0 as int, self.point.1 as int),
            ix: self.ix as int,
            iy: self.iy as int,
            sign: (self.sign_x as int, self.sign_y as int),
            n: (self.nx as int, self.ny as int),
        }
    }

    /// The points this walker has yet to emit.
    pub open spec fn remaining(self) -> Seq<(i64, i64)> {
        sc_rem(self.state())
    }

    /// The walker's state is consistent; see [`WalkGrid::wf`].
    pub closed spec fn wf(self) -> bool {
        &&& 0 <= self.nx as int <= 2 * (MAX_COORD as int)
        &&& 0 <= self.ny as int <= 2 * (MAX_COORD as int)
        &&& 0 <= self.ix as int <= self.nx as int + 1
        &&& 0 <= self.iy as int <= self.ny as int + 1
        &&& -1 <= self.sign_x <= 1
        &&& -1 <= self.sign_y <= 1
        &&& iabs(self.point.0 as int) <= MAX_COORD as int + self.ix as int
        &&& iabs(self.point.1 as int) <= MAX_COORD as int + self.iy as int
    }

    pub fn new(start: (i64, i64), end: (i64, i64)) -> (r: Supercover)
        requires
            -MAX_COORD <= start.0 <= MAX_COORD,
            -MAX_COORD <= start.1 <= MAX_COORD,
            -MAX_COORD <= end.0 <= MAX_COORD,
            -MAX_COORD <= end.1 <= MAX_COORD,
        ensures
            r.wf(),
            r.remaining() == supercover_seq(
                (start.0 as int, start.1 as int),
                (end.0 as int, end.1 as int),
            ),
    {
        let dx = end.0 - start.0;
        let dy = end.1 - start.1;

        Supercover {
            point: start,
            ix: 0,
            iy: 0,
            sign_x: if dx < 0 { -1 } else if dx > 0 { 1 } else { 0 },
            sign_y: if dy < 0 { -1 } else if dy > 0 { 1 } else { 0 },
            nx: if dx < 0 { -dx } else { dx },
            ny: if dy < 0 { -dy } else { dy },
        }
    }

    /// The next point of the walk, or `None` when a counter has passed its
    /// bound.
    pub fn next(&mut self) -> (r: Option<(i64, i64)>)
        requires
            old(self).wf(),
        ensures
            final(self).wf(),
            match r {
                Some(p) => old(self).remaining().len() > 0
                    && p == old(self).remaining()[0]
                    && final(self).remaining() == old(self).remaining().skip(1),
                None => old(self).remaining().len() == 0 && *final(self) == *old(self),
            },
    {
        if self.ix <= self.nx && self.iy <= self.ny {
            let point = self.point;
            proof {
                assert(self.remaining().skip(1) =~= sc_rem(sc_step(self.state())));
            }

            proof {
                vstd::arithmetic::mul::lemma_mul_upper_bound(
                    2 * (self.ix as int) + 1,
                    4 * (MAX_COORD as int) + 3,
                    self.ny as int,
                    2 * (MAX_COORD as int),
                );
                vstd::arithmetic::mul::lemma_mul_upper_bound(
                    2 * (self.iy as int) + 1,
                    4 * (MAX_COORD as int) + 3,
                    self.nx as int,
                    2 * (MAX_COORD as int),
                );
                vstd::arithmetic::mul::lemma_mul_nonnegative(2 * (self.ix as int) + 1, self.ny as int);
                vstd::arithmetic::mul::lemma_mul_nonnegative(2 * (self.iy as int) + 1, self.nx as int);
            }
            let lhs = (2 * (self.ix as i128) + 1) * (self.ny as i128);
            let rhs = (2 * (self.iy as i128) + 1) * (self.nx as i128);

            if lhs == rhs {
                self.point.0 = self.point.0 + self.sign_x;
                self.point.1 = self.point.1 + self.sign_y;
                self.ix = self.ix + 1;
                self.iy = self.iy + 1;
            } else if lhs < rhs {
                self.point.0 = self.point.0 + self.sign_x;
                self.ix = self.ix + 1;
            } else {
                self.point.1 = self.point.1 + self.sign_y;
                self.iy = self.iy + 1;
            }

            Some(point)
        } else {
            None
        }
    }

    /// Collect the whole walk into a vector.
    pub fn points(&mut self) -> (r: Vec<(i64, i64)>)
        requires
            old(self).wf(),
        ensures
            final(self).wf(),
            r@ == old(self).remaining(),
    {
        let mut out: Vec<(i64, i64)> = Vec::new();
        loop
            invariant
                self.wf(),
                out@ + self.remaining() == old(self).remaining(),
            ensures
                self.wf(),
                self.remaining().len() == 0,
                out@ + self.remaining() == old(self).remaining(),
            decreases self.remaining().len(),
        {
            match self.next() {
                Some(p) => out.push(p),
                None => {
                    break;
                }
            }
        }
        proof {
            assert(out@ =~= old(self).remaining());
        }
        out
    }

    /// Turn the walk into an iterator over `(start, end)` pairs.
    pub fn steps(self) -> (r: Steps<(i64, i64)>)
        requires
            self.wf(),
        ensures
            r.wf(),
            r.remaining() == crate::steps::pair_seq(self.remaining()),
    {
        let mut walker = self;
        let pts = walker.points();
        Steps::new(pts)
    }
}

} // verus!
