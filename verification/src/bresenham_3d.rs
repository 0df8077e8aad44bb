//! A 3-D implementation of Bresenham's line algorithm.

use crate::octant::MAX_COORD;
use crate::steps::Steps;
use vstd::prelude::*;

verus! {

/// Absolute value of a specification integer.
pub open spec fn iabs(x: int) -> int {
    if x < 0 {
        -x
    } else {
        x
    }
}

/// Sign of a specification integer: `-1`, `0` or `1`.
pub open spec fn isign(x: int) -> int {
    if x < 0 {
        -1
    } else if x > 0 {
        1
    } else {
        0
    }
}

/// Maximum of two specification integers.
pub open spec fn imax(a: int, b: int) -> int {
    if a >= b {
        a
    } else {
        b
    }
}

/// Casts a specification-level voxel to the machine representation.
pub open spec fn vox64(p: (int, int, int)) -> (i64, i64, i64) {
    (p.0 as i64, p.1 as i64, p.2 as i64)
}

/// The specification-level state of a 3-D Bresenham walk: current voxel,
/// per-axis step signs, per-axis error accumulators, per-axis lengths, the
/// driving length, and the remaining step counter.
pub ghost struct B3State {
    pub voxel: (int, int, int),
    pub sign: (int, int, int),
    pub err: (int, int, int),
    pub len: (int, int, int),
    pub longest: int,
    pub count: int,
}

/// One step of the 3-D walk: every error accumulator drops by its axis
/// length, and each axis whose accumulator went negative gains the driving
/// length back and advances by its sign.
pub open spec fn b3_step(s: B3State) -> B3State {
    let e = (s.err.0 - s.len.0, s.err.1 - s.len.1, s.err.2 - s.len.2);
    let x = if e.0 < 0 { (s.voxel.0 + s.sign.0, e.0 + s.longest) } else { (s.voxel.0, e.0) };
    let y = if e.1 < 0 { (s.voxel.1 + s.sign.1, e.1 + s.longest) } else { (s.voxel.1, e.1) };
    let z = if e.2 < 0 { (s.voxel.2 + s.sign.2, e.2 + s.longest) } else { (s.voxel.2, e.2) };
    B3State {
        voxel: (x.0, y.0, z.0),
        err: (x.1, y.1, z.1),
        count: s.count - 1,
        ..s
    }
}

/// The voxels still to be emitted from state `s`: the current voxel, then
/// whatever follows the stepped state, until the counter goes negative.
pub open spec fn b3_rem(s: B3State) -> Seq<(i64, i64, i64)>
    decreases s.count + 1,
{
    if s.count < 0 {
        Seq::empty()
    } else {
        seq![vox64(s.voxel)] + b3_rem(b3_step(s))
    }
}

/// The starting state of the walk from `start` to `end`.
pub open spec fn b3_init(start: (int, int, int), end: (int, int, int)) -> B3State {
    let len = (iabs(end.0 - start.0), iabs(end.1 - start.1), iabs(end.2 - start.2));
    let longest = imax(len.0, imax(len.1, len.2));
    B3State {
        voxel: start,
        sign: (isign(end.0 - start.0), isign(end.1 - start.1), isign(end.2 - start.2)),
        err: (longest / 2, longest / 2, longest / 2),
        len,
        longest,
        count: longest,
    }
}

/// The full voxel sequence of a 3-D Bresenham walk from `start` to `end`.
pub open spec fn bresenham3d_seq(start: (int, int, int), end: (int, int, int)) -> Seq<(i64, i64, i64)> {
    b3_rem(b3_init(start, end))
}

/// From any state, the walk emits exactly `count + 1` voxels.
proof fn lemma_b3_rem_len(s: B3State)
    requires
        s.count >= -1,
    ensures
        b3_rem(s).len() == s.count + 1,
    decreases s.count + 1,
{
    if s.count >= 0 {
        lemma_b3_rem_len(b3_step(s));
    }
}

/// The count law: a 3-D Bresenham walk always emits exactly
/// `max(|dx|, |dy|, |dz|) + 1` voxels, whichever direction it runs in.
pub proof fn lemma_bresenham3d_count(start: (int, int, int), end: (int, int, int))
    ensures
        bresenham3d_seq(start, end).len() == 1 + imax(
            iabs(end.0 - start.0),
            imax(iabs(end.1 - start.1), iabs(end.2 - start.2)),
        ),
{
    lemma_b3_rem_len(b3_init(start, end));
}

/// The per-axis accumulator invariant: after `j` emissions with `a`
/// advances taken, the accumulator equals its closed form and sits inside
/// the driving window.
pub open spec fn b3_axis_inv(lg: int, len: int, err: int, j: int, a: int) -> bool {
    &&& err == lg / 2 - j * len + a * lg
    &&& 0 <= err <= lg - 1
}

/// One iteration preserves the per-axis invariant, advancing the axis
/// exactly when the accumulator would go negative.
proof fn lemma_b3_axis_step(lg: int, len: int, err: int, j: int, a: int)
    requires
        0 < lg,
        0 <= len <= lg,
        b3_axis_inv(lg, len, err, j, a),
    ensures
        err - len < 0 ==> b3_axis_inv(lg, len, err - len + lg, j + 1, a + 1),
        err - len >= 0 ==> b3_axis_inv(lg, len, err - len, j + 1, a),
{
    if err - len < 0 {
        assert(err - len + lg == lg / 2 - (j + 1) * len + (a + 1) * lg) by (nonlinear_arith)
            requires
                err == lg / 2 - j * len + a * lg,
        ;
    } else {
        assert(err - len == lg / 2 - (j + 1) * len + a * lg) by (nonlinear_arith)
            requires
                err == lg / 2 - j * len + a * lg,
        ;
    }
}

/// After all `longest` iterations an axis has advanced exactly its own
/// length.
proof fn lemma_b3_axis_final(lg: int, len: int, err: int, a: int)
    requires
        0 < lg,
        0 <= len <= lg,
        b3_axis_inv(lg, len, err, lg, a),
    ensures
        a == len,
{
    assert(a == len) by (nonlinear_arith)
        requires
            err == lg / 2 - lg * len + a * lg,
            0 <= err <= lg - 1,
            0 <= lg / 2 < lg,
            0 < lg,
    ;
}

/// From any invariant-respecting state, the walk's last emission is the
/// voxel a full length away from the start on every axis.
proof fn lemma_b3_last(s: B3State, start: (int, int, int), j: int, a: (int, int, int))
    requires
        s.longest >= 1,
        s.count == s.longest - j,
        0 <= j <= s.longest,
        0 <= s.len.0 <= s.longest,
        0 <= s.len.1 <= s.longest,
        0 <= s.len.2 <= s.longest,
        b3_axis_inv(s.longest, s.len.0, s.err.0, j, a.0),
        b3_axis_inv(s.longest, s.len.1, s.err.1, j, a.1),
        b3_axis_inv(s.longest, s.len.2, s.err.2, j, a.2),
        s.voxel.0 == start.0 + s.sign.0 * a.0,
        s.voxel.1 == start.1 + s.sign.1 * a.1,
        s.voxel.2 == start.2 + s.sign.2 * a.2,
    ensures
        b3_rem(s).len() >= 1,
        b3_rem(s).last() == vox64(
            (
                start.0 + s.sign.0 * s.len.0,
                start.1 + s.sign.1 * s.len.1,
                start.2 + s.sign.2 * s.len.2,
            ),
        ),
    decreases s.count,
{
    lemma_b3_rem_len(s);
    if s.count == 0 {
        reveal_with_fuel(b3_rem, 3);
        lemma_b3_axis_final(s.longest, s.len.0, s.err.0, a.0);
        lemma_b3_axis_final(s.longest, s.len.1, s.err.1, a.1);
        lemma_b3_axis_final(s.longest, s.len.2, s.err.2, a.2);
    } else {
        lemma_b3_axis_step(s.longest, s.len.0, s.err.0, j, a.0);
        lemma_b3_axis_step(s.longest, s.len.1, s.err.1, j, a.1);
        lemma_b3_axis_step(s.longest, s.len.2, s.err.2, j, a.2);
        let t = b3_step(s);
        let a2 = (
            a.0 + if s.err.0 - s.len.0 < 0 { 1int } else { 0int },
            a.1 + if s.err.1 - s.len.1 < 0 { 1int } else { 0int },
            a.2 + if s.err.2 - s.len.2 < 0 { 1int } else { 0int },
        );
        assert(t.voxel.0 == start.0 + s.sign.0 * a2.0 && t.voxel.1 == start.1 + s.sign.1 * a2.1
            && t.voxel.2 == start.2 + s.sign.2 * a2.2) by (nonlinear_arith)
            requires
                s.voxel.0 == start.0 + s.sign.0 * a.0,
                s.voxel.1 == start.1 + s.sign.1 * a.1,
                s.voxel.2 == start.2 + s.sign.2 * a.2,
                t == b3_step(s),
                a2.0 == a.0 + (if s.err.0 - s.len.0 < 0 { 1int } else { 0int }),
                a2.1 == a.1 + (if s.err.1 - s.len.1 < 0 { 1int } else { 0int }),
                a2.2 == a.2 + (if s.err.2 - s.len.2 < 0 { 1int } else { 0int }),
        ;
        lemma_b3_last(t, start, j + 1, a2);
        lemma_b3_rem_len(t);
        assert(b3_rem(s).last() == b3_rem(t).last());
    }
}

/// The endpoint law: a 3-D Bresenham walk emits the start voxel first and
/// the end voxel last.
pub proof fn lemma_bresenham3d_endpoints(start: (int, int, int), end: (int, int, int))
    ensures
        bresenham3d_seq(start, end).len() >= 1,
        bresenham3d_seq(start, end)[0] == vox64(start),
        bresenham3d_seq(start, end).last() == vox64(end),
{
    let s = b3_init(start, end);
    lemma_b3_rem_len(s);
    if s.longest == 0 {
        reveal_with_fuel(b3_rem, 3);
        assert(bresenham3d_seq(start, end).last() == vox64(start));
        assert(end == start);
    } else {
        assert(s.longest / 2 == s.longest / 2 - 0 * s.len.0 + 0 * s.longest
            && s.longest / 2 == s.longest / 2 - 0 * s.len.1 + 0 * s.longest
            && s.longest / 2 == s.longest / 2 - 0 * s.len.2 + 0 * s.longest
            && 0 <= s.longest / 2 <= s.longest - 1
            && start.0 + s.sign.0 * 0 == start.0
            && start.1 + s.sign.1 * 0 == start.1
            && start.2 + s.sign.2 * 0 == start.2) by (nonlinear_arith)
            requires
                s.longest >= 1,
        ;
        lemma_b3_last(s, start, 0, (0, 0, 0));
        assert(start.0 + s.sign.0 * s.len.0 == end.0 && start.1 + s.sign.1 * s.len.1 == end.1
            && start.2 + s.sign.2 * s.len.2 == end.2) by (nonlinear_arith)
            requires
                s.sign.0 == isign(end.0 - start.0),
                s.sign.1 == isign(end.1 - start.1),
                s.sign.2 == isign(end.2 - start.2),
                s.len.0 == iabs(end.0 - start.0),
                s.len.1 == iabs(end.1 - start.1),
                s.len.2 == iabs(end.2 - start.2),
        ;
    }
}

/// A 3-D implementation of Bresenham's line algorithm.
///
/// It includes both the start and end point and is asymmetrical.
pub struct Bresenham3d {
    sign_x: i64,
    sign_y: i64,
    sign_z: i64,
    err_x: i64,
    err_y: i64,
    err_z: i64,
    len_x: i64,
    len_y: i64,
    len_z: i64,
    longest: i64,
    count: i64,
    voxel: (i64, i64, i64),
}

impl Bresenham3d {
    /// The specification-level state this walker stands at.
    pub closed spec fn state(self) -> B3State {
        B3State {
            voxel: (self.voxel.0 as int, self.voxel.1 as int, self.voxel.2 as int),
            sign: (self.sign_x as int, self.sign_y as int, self.sign_z as int),
            err: (self.err_x as int, self.err_y as int, self.err_z as int),
            len: (self.len_x as int, self.len_y as int, self.len_z as int),
            longest: self.longest as int,
            count: self.count as int,
        }
    }

    /// The voxels this walker has yet to emit.
    pub open spec fn remaining(self) -> Seq<(i64, i64, i64)> {
        b3_rem(self.state())
    }

    /// The walker's state is consistent: lengths bounded with the driving
    /// length their maximum, unit step signs, error accumulators inside the
    /// driving window, and a voxel that cannot have strayed further from the
    /// start than the steps already taken.
    pub closed spec fn wf(self) -> bool {
        &&& 0 <= self.len_x as int <= 2 * (MAX_COORD as int)
        &&& 0 <= self.len_y as int <= 2 * (MAX_COORD as int)
        &&& 0 <= self.len_z as int <= 2 * (MAX_COORD as int)
        &&& self.longest as int == imax(self.len_x as int, imax(self.len_y as int, self.len_z as int))
        &&& -1 <= self.count <= self.longest
        &&& -1 <= self.sign_x <= 1
        &&& -1 <= self.sign_y <= 1
        &&& -1 <= self.sign_z <= 1
        &&& 0 <= self.err_x as int <= imax(self.longest as int - 1, 0)
        &&& 0 <= self.err_y as int <= imax(self.longest as int - 1, 0)
        &&& 0 <= self.err_z as int <= imax(self.longest as int - 1, 0)
        &&& iabs(self.voxel.0 as int) <= MAX_COORD as int + 1 + self.longest - self.count
        &&& iabs(self.voxel.1 as int) <= MAX_COORD as int + 1 + self.longest - self.count
        &&& iabs(self.voxel.2 as int) <= MAX_COORD as int + 1 + self.longest - self.count
    }

    pub fn new(start: (i64, i64, i64), end: (i64, i64, i64)) -> (r: Bresenham3d)
        requires
            -MAX_COORD <= start.0 <= MAX_COORD,
            -MAX_COORD <= start.1 <= MAX_COORD,
            -MAX_COORD <= start.2 <= MAX_COORD,
            -MAX_COORD <= end.0 <= MAX_COORD,
            -MAX_COORD <= end.1 <= MAX_COORD,
            -MAX_COORD <= end.2 <= MAX_COORD,
        ensures
            r.wf(),
            r.remaining() == bresenham3d_seq(
                (start.0 as int, start.1 as int, start.2 as int),
                (end.0 as int, end.1 as int, end.2 as int),
            ),
    {
        let delta_x = end.0 - start.0;
        let delta_y = end.1 - start.1;
        let delta_z = end.2 - start.2;

        let len_x = if delta_x < 0 { -delta_x } else { delta_x };
        let len_y = if delta_y < 0 { -delta_y } else { delta_y };
        let len_z = if delta_z < 0 { -delta_z } else { delta_z };

        let longest = if len_x >= len_y && len_x >= len_z {
            len_x
        } else if len_y >= len_z {
            len_y
        } else {
            len_z
        };

        let sign_x: i64 = if delta_x < 0 { -1 } else if delta_x > 0 { 1 } else { 0 };
        let sign_y: i64 = if delta_y < 0 { -1 } else if delta_y > 0 { 1 } else { 0 };
        let sign_z: i64 = if delta_z < 0 { -1 } else if delta_z > 0 { 1 } else { 0 };

        Bresenham3d {
            len_x,
            len_y,
            len_z,
            longest,
            count: longest,
            err_x: longest / 2,
            err_y: longest / 2,
            err_z: longest / 2,
            sign_x,
            sign_y,
            sign_z,
            voxel: start,
        }
    }

    /// The next voxel of the walk, or `None` once `count + 1` voxels are out.
    pub fn next(&mut self) -> (r: Option<(i64, i64, i64)>)
        requires
            old(self).wf(),
        ensures
            final(self).wf(),
            match r {
                Some(p) => old(self).remaining().len() > 0
                    && p == old(self).remaining()[0]
                    && final(self).remaining() == old(self).remaining().skip(1),
                None => old(self).remaining().len() == 0 && *final(self) == *old(self),
            },
    {
        if self.count >= 0 {
            proof {
                assert(self.remaining() == seq![vox64(self.state().voxel)] + b3_rem(
                    b3_step(self.state()),
                ));
                assert(self.remaining().skip(1) =~= b3_rem(b3_step(self.state())));
            }
            self.count = self.count - 1;
            self.err_x = self.err_x - self.len_x;
            self.err_y = self.err_y - self.len_y;
            self.err_z = self.err_z - self.len_z;

            let voxel = self.voxel;

            if self.err_x < 0 {
                self.err_x = self.err_x + self.longest;
                self.voxel.0 = self.voxel.0 + self.sign_x;
            }

            if self.err_y < 0 {
                self.err_y = self.err_y + self.longest;
                self.voxel.1 = self.voxel.1 + self.sign_y;
            }

            if self.err_z < 0 {
                self.err_z = self.err_z + self.longest;
                self.voxel.2 = self.voxel.2 + self.sign_z;
            }

            Some(voxel)
        } else {
            None
        }
    }

    /// Collect the whole walk into a vector.
    pub fn points(&mut self) -> (r: Vec<(i64, i64, i64)>)
        requires
            old(self).wf(),
        ensures
            final(self).wf(),
            r@ == old(self).remaining(),
    {
        let mut out: Vec<(i64, i64, i64)> = Vec::new();
        loop
            invariant
                self.wf(),
                out@ + self.remaining() == old(self).remaining(),
            ensures
                self.wf(),
                self.remaining().len() == 0,
                out@ + self.remaining() == old(self).remaining(),
            decreases self.remaining().len(),
        {
            match self.next() {
                Some(p) => out.push(p),
                None => {
                    break;
                }
            }
        }
        proof {
            assert(out@ =~= old(self).remaining());
        }
        out
    }

    /// Turn the walk into an iterator over `(start, end)` pairs.
    pub fn steps(self) -> (r: Steps<(i64, i64, i64)>)
        requires
            self.wf(),
        ensures
            r.wf(),
            r.remaining() == crate::steps::pair_seq(self.remaining()),
    {
        let mut walker = self;
        let pts = walker.points();
        Steps::new(pts)
    }
}

} // verus!
