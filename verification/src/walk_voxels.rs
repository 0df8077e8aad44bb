//! Walk between two voxels, taking orthogonal steps and visiting all
//! voxels in between.

use crate::bresenham_3d::{iabs, isign, vox64};
use crate::rat::{q_eq, q_floor, q_round, rat_small, rq, Rat, QR};
use crate::steps::Steps;
use vstd::prelude::*;

verus! {

/// Where the center of the voxel is, at the center or a corner.
///
/// Generally you want `Center`.
#[derive(Clone, Copy, Debug, PartialEq, Eq, Structural)]
pub enum VoxelOrigin {
    Corner,
    Center,
}

/// The rounding an origin applies to one continuous coordinate.
pub open spec fn vo_round(center: bool, a: QR) -> int {
    if center {
        q_round(a)
    } else {
        q_floor(a)
    }
}

impl VoxelOrigin {
    /// Whether this origin rounds to the nearest voxel center.
    pub open spec fn is_center(self) -> bool {
        self == VoxelOrigin::Center
    }

    /// Round a voxel's position based on the origin.
    pub fn round(&self, voxel: (Rat, Rat, Rat)) -> (r: (i64, i64, i64))
        requires
            rat_small(voxel.0),
            rat_small(voxel.1),
            rat_small(voxel.2),
        ensures
            r.0 as int == vo_round(self.is_center(), rq(voxel.0)),
            r.1 as int == vo_round(self.is_center(), rq(voxel.1)),
            r.2 as int == vo_round(self.is_center(), rq(voxel.2)),
            -1001 <= r.0 <= 1001,
            -1001 <= r.1 <= 1001,
            -1001 <= r.2 <= 1001,
    {
        match *self {
            VoxelOrigin::Corner => (voxel.0.floor_i64(), voxel.1.floor_i64(), voxel.2.floor_i64()),
            VoxelOrigin::Center => (voxel.0.round_i64(), voxel.1.round_i64(), voxel.2.round_i64()),
        }
    }
}

/// The specification-level state of a voxel walk: the current voxel, the
/// per-axis step signs, the per-axis scaled error accumulators and their
/// per-step increments (all numerators over one fixed positive
/// denominator, which never needs to be materialized: only magnitudes are
/// ever compared), and the remaining step counter.
pub ghost struct WvState {
    pub vox: (int, int, int),
    pub sign: (int, int, int),
    pub err: (int, int, int),
    pub derr: (int, int, int),
    pub count: int,
}

/// One step: the axis whose scaled error magnitude is smallest advances,
/// ties and exhausted axes deferring in the order x, y, z.
pub open spec fn wv_step(s: WvState) -> WvState {
    let xr = iabs(s.err.0);
    let yr = iabs(s.err.1);
    let zr = iabs(s.err.2);
    let xz = s.sign.0 == 0;
    let yz = s.sign.1 == 0;
    let zz = s.sign.2 == 0;
    if !xz && (yz || xr < yr) && (zz || xr < zr) {
        WvState {
            vox: (s.vox.0 + s.sign.0, s.vox.1, s.vox.2),
            err: (s.err.0 + s.derr.0, s.err.1, s.err.2),
            count: s.count - 1,
            ..s
        }
    } else if !yz && (zz || yr < zr) {
        WvState {
            vox: (s.vox.0, s.vox.1 + s.sign.1, s.vox.2),
            err: (s.err.0, s.err.1 + s.derr.1, s.err.2),
            count: s.count - 1,
            ..s
        }
    } else if !zz {
        WvState {
            vox: (s.vox.0, s.vox.1, s.vox.2 + s.sign.2),
            err: (s.err.0, s.err.1, s.err.2 + s.derr.2),
            count: s.count - 1,
            ..s
        }
    } else {
        WvState { count: s.count - 1, ..s }
    }
}

/// The voxels a walk still emits from state `s`.
pub open spec fn wv_rem(s: WvState) -> Seq<(i64, i64, i64)>
    decreases s.count + 1,
{
    if s.count < 0 {
        Seq::empty()
    } else {
        seq![vox64(s.vox)] + wv_rem(wv_step(s))
    }
}

/// The starting state of a voxel walk: endpoints are rounded to voxels
/// per the origin, the step budget is the sum of the per-axis distances,
/// and each axis's error to its next grid plane is scaled by the product
/// of the other two axes' continuous deltas (ones standing in for
/// zero-length axes), all over one common denominator.
pub open spec fn wv_init(start: (QR, QR, QR), end: (QR, QR, QR), center: bool) -> WvState {
    let si = (vo_round(center, start.0), vo_round(center, start.1), vo_round(center, start.2));
    let ei = (vo_round(center, end.0), vo_round(center, end.1), vo_round(center, end.2));
    let sg = (isign(ei.0 - si.0), isign(ei.1 - si.1), isign(ei.2 - si.2));
    let p = (
        si.0 + if ei.0 > si.0 { 1int } else { 0int },
        si.1 + if ei.1 > si.1 { 1int } else { 0int },
        si.2 + if ei.2 > si.2 { 1int } else { 0int },
    );
    let v0 = wv_delta(start.0, end.0);
    let v1 = wv_delta(start.1, end.1);
    let v2 = wv_delta(start.2, end.2);
    let vyz = v1.n * v2.n;
    let vxz = v0.n * v2.n;
    let vxy = v0.n * v1.n;
    let sc0 = start.1.d * (start.2.d * v0.d);
    let sc1 = start.0.d * (start.2.d * v1.d);
    let sc2 = start.0.d * (start.1.d * v2.d);
    WvState {
        vox: si,
        sign: sg,
        err: (
            (p.0 * start.0.d - start.0.n) * vyz * sc0,
            (p.1 * start.1.d - start.1.n) * vxz * sc1,
            (p.2 * start.2.d - start.2.n) * vxy * sc2,
        ),
        derr: (
            sg.0 * vyz * (start.0.d * sc0),
            sg.1 * vxz * (start.1.d * sc1),
            sg.2 * vxy * (start.2.d * sc2),
        ),
        count: iabs(si.0 - ei.0) + iabs(si.1 - ei.1) + iabs(si.2 - ei.2),
    }
}

/// The continuous delta used to scale an axis's error margin: a one when
/// the axis's endpoints coincide.
pub open spec fn wv_delta(s: QR, e: QR) -> QR {
    if q_eq(s, e) {
        QR { n: 1, d: 1 }
    } else {
        QR { n: e.n * s.d - s.n * e.d, d: e.d * s.d }
    }
}

/// The full voxel sequence of a walk from `start` to `end` under `origin`.
pub open spec fn walk_voxels_seq(start: (Rat, Rat, Rat), end: (Rat, Rat, Rat), origin: VoxelOrigin) -> Seq<(i64, i64, i64)> {
    wv_rem(
        wv_init(
            (rq(start.0), rq(start.1), rq(start.2)),
            (rq(end.0), rq(end.1), rq(end.2)),
            origin.is_center(),
        ),
    )
}


/// Every voxel walk emits at least one voxel, and the first one is the
/// rounded start.
pub proof fn lemma_walk_voxels_starts(start: (Rat, Rat, Rat), end: (Rat, Rat, Rat), origin: VoxelOrigin)
    ensures
        walk_voxels_seq(start, end, origin).len() >= 1,
        walk_voxels_seq(start, end, origin)[0] == vox64(
            (
                vo_round(origin.is_center(), rq(start.0)),
                vo_round(origin.is_center(), rq(start.1)),
                vo_round(origin.is_center(), rq(start.2)),
            ),
        ),
{
    let s = wv_init(
        (rq(start.0), rq(start.1), rq(start.2)),
        (rq(end.0), rq(end.1), rq(end.2)),
        origin.is_center(),
    );
    assert(s.count >= 0);
}

/// Walk between two voxels, taking orthogonal steps and visiting all
/// voxels in between.
///
/// This algorithm takes rational (continuous) input points.
pub struct WalkVoxels {
    voxel: (i64, i64, i64),
    count: i64,
    sign_x: i64,
    sign_y: i64,
    sign_z: i64,
    err_x: i128,
    err_y: i128,
    err_z: i128,
    d_err_x: i128,
    d_err_y: i128,
    d_err_z: i128,
}

impl WalkVoxels {
    /// The specification-level state this walker stands at.
    pub closed spec fn state(self) -> WvState {
        WvState {
            vox: (self.voxel.0 as int, self.voxel.1 as int, self.voxel.2 as int),
            sign: (self.sign_x as int, self.sign_y as int, self.sign_z as int),
            err: (self.err_x as int, self.err_y as int, self.err_z as int),
            derr: (self.d_err_x as int, self.d_err_y as int, self.d_err_z as int),
            count: self.count as int,
        }
    }

    /// The voxels this walker has yet to emit.
    pub open spec fn remaining(self) -> Seq<(i64, i64, i64)> {
        wv_rem(self.state())
    }

    /// The walker's state is consistent: a bounded step counter, unit
    /// signs, a voxel that cannot have strayed further than the steps
    /// already taken, and error accumulators inside a budget that widens
    /// by one increment per step.
    pub closed spec fn wf(self) -> bool {
        &&& -1 <= self.count <= 6006
        &&& -1 <= self.sign_x <= 1
        &&& -1 <= self.sign_y <= 1
        &&& -1 <= self.sign_z <= 1
        &&& iabs(self.voxel.0 as int) <= 1002 + 6006 - self.count
        &&& iabs(self.voxel.1 as int) <= 1002 + 6006 - self.count
        &&& iabs(self.voxel.2 as int) <= 1002 + 6006 - self.count
        &&& iabs(self.d_err_x as int) <= 4_100_000_000_000_000_000_000_000_000_000_000
        &&& iabs(self.d_err_y as int) <= 4_100_000_000_000_000_000_000_000_000_000_000
        &&& iabs(self.d_err_z as int) <= 4_100_000_000_000_000_000_000_000_000_000_000
        &&& iabs(self.err_x as int) <= 9_000_000_000_000_000_000_000_000_000_000_000_000 + (
        6006 - self.count) * 4_100_000_000_000_000_000_000_000_000_000_000
        &&& iabs(self.err_y as int) <= 9_000_000_000_000_000_000_000_000_000_000_000_000 + (
        6006 - self.count) * 4_100_000_000_000_000_000_000_000_000_000_000
        &&& iabs(self.err_z as int) <= 9_000_000_000_000_000_000_000_000_000_000_000_000 + (
        6006 - self.count) * 4_100_000_000_000_000_000_000_000_000_000_000
    }

    /// Create a new `WalkVoxels` iterator, with the origin of the voxels.
    #[verifier::rlimit(100)]
    pub fn new(start: (Rat, Rat, Rat), end: (Rat, Rat, Rat), origin: &VoxelOrigin) -> (r:
        WalkVoxels)
        requires
            rat_small(start.0),
            rat_small(start.1),
            rat_small(start.2),
            rat_small(end.0),
            rat_small(end.1),
            rat_small(end.2),
        ensures
            r.wf(),
            r.remaining() == walk_voxels_seq(start, end, *origin),
    {
        let start_i = origin.round(start);
        let end_i = origin.round(end);

        let dx = if start_i.0 >= end_i.0 { start_i.0 - end_i.0 } else { end_i.0 - start_i.0 };
        let dy = if start_i.1 >= end_i.1 { start_i.1 - end_i.1 } else { end_i.1 - start_i.1 };
        let dz = if start_i.2 >= end_i.2 { start_i.2 - end_i.2 } else { end_i.2 - start_i.2 };
        let count = dx + dy + dz;

        let sign_x: i64 = if end_i.0 > start_i.0 { 1 } else if end_i.0 == start_i.0 { 0 } else { -1 };
        let sign_y: i64 = if end_i.1 > start_i.1 { 1 } else if end_i.1 == start_i.1 { 0 } else { -1 };
        let sign_z: i64 = if end_i.2 > start_i.2 { 1 } else if end_i.2 == start_i.2 { 0 } else { -1 };

        // Planes for each axis that we will next cross
        let x_plane = start_i.0 + (if end_i.0 > start_i.0 { 1 } else { 0 });
        let y_plane = start_i.1 + (if end_i.1 > start_i.1 { 1 } else { 0 });
        let z_plane = start_i.2 + (if end_i.2 > start_i.2 { 1 } else { 0 });

        // Only used for multiplying up the error margins
        let v0 = delta_or_one(&start.0, &end.0);
        let v1 = delta_or_one(&start.1, &end.1);
        let v2 = delta_or_one(&start.2, &end.2);

        proof {
            lemma_wv_products(
                rq(start.0),
                rq(start.1),
                rq(start.2),
                QR { n: v0.0 as int, d: v0.1 as int },
                QR { n: v1.0 as int, d: v1.1 as int },
                QR { n: v2.0 as int, d: v2.1 as int },
                (x_plane as int, y_plane as int, z_plane as int),
                (sign_x as int, sign_y as int, sign_z as int),
            );
        }

        let vyz: i128 = v1.0 * v2.0;
        let vxz: i128 = v0.0 * v2.0;
        let vxy: i128 = v0.0 * v1.0;
        let sc0: i128 = start.1.den * (start.2.den * v0.1);
        let sc1: i128 = start.0.den * (start.2.den * v1.1);
        let sc2: i128 = start.0.den * (start.1.den * v2.1);

        WalkVoxels {
            sign_x,
            sign_y,
            sign_z,
            count,
            voxel: start_i,
            // Error to the next plane on each axis, scaled to the common
            // denominator
            err_x: ((x_plane as i128) * start.0.den - start.0.num) * vyz * sc0,
            err_y: ((y_plane as i128) * start.1.den - start.1.num) * vxz * sc1,
            err_z: ((z_plane as i128) * start.2.den - start.2.num) * vxy * sc2,
            d_err_x: (sign_x as i128) * vyz * (start.0.den * sc0),
            d_err_y: (sign_y as i128) * vxz * (start.1.den * sc1),
            d_err_z: (sign_z as i128) * vxy * (start.2.den * sc2),
        }
    }

    /// The next voxel of the walk, or `None` once the step budget is
    /// spent.
    pub fn next(&mut self) -> (r: Option<(i64, i64, i64)>)
        requires
            old(self).wf(),
        ensures
            final(self).wf(),
            match r {
                Some(p) => old(self).remaining().len() > 0
                    && p == old(self).remaining()[0]
                    && final(self).remaining() == old(self).remaining().skip(1),
                None => old(self).remaining().len() == 0 && *final(self) == *old(self),
            },
    {
        if self.count >= 0 {
            proof {
                assert(self.remaining().skip(1) =~= wv_rem(wv_step(self.state())));
            }
            self.count = self.count - 1;

            // Which plane do we cross first?
            let xr = if self.err_x < 0 { -self.err_x } else { self.err_x };
            let yr = if self.err_y < 0 { -self.err_y } else { self.err_y };
            let zr = if self.err_z < 0 { -self.err_z } else { self.err_z };

            let x_zero = self.sign_x == 0;
            let y_zero = self.sign_y == 0;
            let z_zero = self.sign_z == 0;

            let voxel = self.voxel;

            if !x_zero && (y_zero || xr < yr) && (z_zero || xr < zr) {
                self.voxel.0 = self.voxel.0 + self.sign_x;
                self.err_x = self.err_x + self.d_err_x;
            } else if !y_zero && (z_zero || yr < zr) {
                self.voxel.1 = self.voxel.1 + self.sign_y;
                self.err_y = self.err_y + self.d_err_y;
            } else if !z_zero {
                self.voxel.2 = self.voxel.2 + self.sign_z;
                self.err_z = self.err_z + self.d_err_z;
            }

            Some(voxel)
        } else {
            None
        }
    }

    /// Collect the whole walk into a vector.
    pub fn points(&mut self) -> (r: Vec<(i64, i64, i64)>)
        requires
            old(self).wf(),
        ensures
            final(self).wf(),
            r@ == old(self).remaining(),
    {
        let mut out: Vec<(i64, i64, i64)> = Vec::new();
        loop
            invariant
                self.wf(),
                out@ + self.remaining() == old(self).remaining(),
            ensures
                self.wf(),
                self.remaining().len() == 0,
                out@ + self.remaining() == old(self).remaining(),
            decreases self.remaining().len(),
        {
            match self.next() {
                Some(p) => out.push(p),
                None => {
                    break;
                }
            }
        }
        proof {
            assert(out@ =~= old(self).remaining());
        }
        out
    }

    /// Turn the walk into an iterator over `(start, end)` pairs.
    pub fn steps(self) -> (r: Steps<(i64, i64, i64)>)
        requires
            self.wf(),
        ensures
            r.wf(),
            r.remaining() == crate::steps::pair_seq(self.remaining()),
    {
        let mut walker = self;
        let pts = walker.points();
        Steps::new(pts)
    }
}

/// The numerator and denominator of the continuous delta of one axis, or
/// one when the endpoints coincide.
fn delta_or_one(s: &Rat, e: &Rat) -> (r: (i128, i128))
    requires
        rat_small(*s),
        rat_small(*e),
    ensures
        (QR { n: r.0 as int, d: r.1 as int }) == wv_delta(rq(*s), rq(*e)),
        -2_000_000_000 <= r.0 <= 2_000_000_000,
        0 < r.1 <= 1_000_000,
{
    proof {
        lemma_wv_delta_bounds(rq(*s), rq(*e));
    }
    if s.eq_val(e) {
        (1, 1)
    } else {
        (e.num * s.den - s.num * e.den, e.den * s.den)
    }
}

/// Bounds on the delta terms of one axis.
proof fn lemma_wv_delta_bounds(s: QR, e: QR)
    requires
        0 < s.d <= 1000,
        -1000 * s.d <= s.n <= 1000 * s.d,
        0 < e.d <= 1000,
        -1000 * e.d <= e.n <= 1000 * e.d,
    ensures
        -2_000_000_000 <= e.n * s.d - s.n * e.d <= 2_000_000_000,
        -1_000_000_000 <= e.n * s.d <= 1_000_000_000,
        -1_000_000_000 <= s.n * e.d <= 1_000_000_000,
        0 < e.d * s.d <= 1_000_000,
{
    assert((-2_000_000_000 <= e.n * s.d - s.n * e.d <= 2_000_000_000) && (-1_000_000_000
        <= e.n * s.d <= 1_000_000_000) && (-1_000_000_000 <= s.n * e.d <= 1_000_000_000) && (0
        < e.d * s.d <= 1_000_000)) by (nonlinear_arith)
        requires
            0 < s.d <= 1000,
            -1000 * s.d <= s.n <= 1000 * s.d,
            0 < e.d <= 1000,
            -1000 * e.d <= e.n <= 1000 * e.d,
    ;
}

/// Bounds on every product the constructor builds; they keep the scaled
/// error terms and their increments far inside `i128`.
proof fn lemma_wv_products(s0: QR, s1: QR, s2: QR, v0: QR, v1: QR, v2: QR, p: (int, int, int), sg: (int, int, int))
    requires
        0 < s0.d <= 1000,
        -1000 * s0.d <= s0.n <= 1000 * s0.d,
        0 < s1.d <= 1000,
        -1000 * s1.d <= s1.n <= 1000 * s1.d,
        0 < s2.d <= 1000,
        -1000 * s2.d <= s2.n <= 1000 * s2.d,
        -2_000_000_000 <= v0.n <= 2_000_000_000,
        0 < v0.d <= 1_000_000,
        -2_000_000_000 <= v1.n <= 2_000_000_000,
        0 < v1.d <= 1_000_000,
        -2_000_000_000 <= v2.n <= 2_000_000_000,
        0 < v2.d <= 1_000_000,
        -1002 <= p.0 <= 1002,
        -1002 <= p.1 <= 1002,
        -1002 <= p.2 <= 1002,
        -1 <= sg.0 <= 1,
        -1 <= sg.1 <= 1,
        -1 <= sg.2 <= 1,
    ensures
        -4_000_000_000_000_000_000 <= v1.n * v2.n <= 4_000_000_000_000_000_000,
        -4_000_000_000_000_000_000 <= v0.n * v2.n <= 4_000_000_000_000_000_000,
        -4_000_000_000_000_000_000 <= v0.n * v1.n <= 4_000_000_000_000_000_000,
        0 < s2.d * v0.d <= 1_000_000_000,
        0 < s2.d * v1.d <= 1_000_000_000,
        0 < s1.d * v2.d <= 1_000_000_000,
        0 < s1.d * (s2.d * v0.d) <= 1_000_000_000_000,
        0 < s0.d * (s2.d * v1.d) <= 1_000_000_000_000,
        0 < s0.d * (s1.d * v2.d) <= 1_000_000_000_000,
        -2_100_000 <= p.0 * s0.d - s0.n <= 2_100_000,
        -2_100_000 <= p.1 * s1.d - s1.n <= 2_100_000,
        -2_100_000 <= p.2 * s2.d - s2.n <= 2_100_000,
        -8_400_000_000_000_000_000_000_000 <= (p.0 * s0.d - s0.n) * (v1.n * v2.n)
            <= 8_400_000_000_000_000_000_000_000,
        -8_400_000_000_000_000_000_000_000 <= (p.1 * s1.d - s1.n) * (v0.n * v2.n)
            <= 8_400_000_000_000_000_000_000_000,
        -8_400_000_000_000_000_000_000_000 <= (p.2 * s2.d - s2.n) * (v0.n * v1.n)
            <= 8_400_000_000_000_000_000_000_000,
        -8_400_000_000_000_000_000_000_000_000_000_000_000 <= (p.0 * s0.d - s0.n) * (v1.n
            * v2.n) * (s1.d * (s2.d * v0.d)) <= 8_400_000_000_000_000_000_000_000_000_000_000_000,
        -8_400_000_000_000_000_000_000_000_000_000_000_000 <= (p.1 * s1.d - s1.n) * (v0.n
            * v2.n) * (s0.d * (s2.d * v1.d)) <= 8_400_000_000_000_000_000_000_000_000_000_000_000,
        -8_400_000_000_000_000_000_000_000_000_000_000_000 <= (p.2 * s2.d - s2.n) * (v0.n
            * v1.n) * (s0.d * (s1.d * v2.d)) <= 8_400_000_000_000_000_000_000_000_000_000_000_000,
        0 < s0.d * (s1.d * (s2.d * v0.d)) <= 1_000_000_000_000_000,
        0 < s1.d * (s0.d * (s2.d * v1.d)) <= 1_000_000_000_000_000,
        0 < s2.d * (s0.d * (s1.d * v2.d)) <= 1_000_000_000_000_000,
        -4_000_000_000_000_000_000 <= sg.0 * (v1.n * v2.n) <= 4_000_000_000_000_000_000,
        -4_000_000_000_000_000_000 <= sg.1 * (v0.n * v2.n) <= 4_000_000_000_000_000_000,
        -4_000_000_000_000_000_000 <= sg.2 * (v0.n * v1.n) <= 4_000_000_000_000_000_000,
        -4_000_000_000_000_000_000_000_000_000_000_000 <= sg.0 * (v1.n * v2.n) * (s0.d * (s1.d
            * (s2.d * v0.d))) <= 4_000_000_000_000_000_000_000_000_000_000_000,
        -4_000_000_000_000_000_000_000_000_000_000_000 <= sg.1 * (v0.n * v2.n) * (s1.d * (s0.d
            * (s2.d * v1.d))) <= 4_000_000_000_000_000_000_000_000_000_000_000,
        -4_000_000_000_000_000_000_000_000_000_000_000 <= sg.2 * (v0.n * v1.n) * (s2.d * (s0.d
            * (s1.d * v2.d))) <= 4_000_000_000_000_000_000_000_000_000_000_000,
{
    lemma_wv_axis(s0, v1, v2, v0.d, s1.d, s2.d, p.0, sg.0);
    lemma_wv_axis(s1, v0, v2, v1.d, s0.d, s2.d, p.1, sg.1);
    lemma_wv_axis(s2, v0, v1, v2.d, s0.d, s1.d, p.2, sg.2);
}

/// Bounds for one axis's products.
proof fn lemma_wv_axis(s: QR, a: QR, b: QR, cd: int, t1: int, t2: int, p: int, sg: int)
    requires
        0 < s.d <= 1000,
        -1000 * s.d <= s.n <= 1000 * s.d,
        -2_000_000_000 <= a.n <= 2_000_000_000,
        -2_000_000_000 <= b.n <= 2_000_000_000,
        0 < cd <= 1_000_000,
        0 < t1 <= 1000,
        0 < t2 <= 1000,
        -1002 <= p <= 1002,
        -1 <= sg <= 1,
    ensures
        -4_000_000_000_000_000_000 <= a.n * b.n <= 4_000_000_000_000_000_000,
        0 < t2 * cd <= 1_000_000_000,
        0 < t1 * (t2 * cd) <= 1_000_000_000_000,
        -2_100_000 <= p * s.d - s.n <= 2_100_000,
        -8_400_000_000_000_000_000_000_000 <= (p * s.d - s.n) * (a.n * b.n)
            <= 8_400_000_000_000_000_000_000_000,
        -8_400_000_000_000_000_000_000_000_000_000_000_000 <= (p * s.d - s.n) * (a.n * b.n) * (
        t1 * (t2 * cd)) <= 8_400_000_000_000_000_000_000_000_000_000_000_000,
        0 < s.d * (t1 * (t2 * cd)) <= 1_000_000_000_000_000,
        -4_000_000_000_000_000_000 <= sg * (a.n * b.n) <= 4_000_000_000_000_000_000,
        -4_000_000_000_000_000_000_000_000_000_000_000 <= sg * (a.n * b.n) * (s.d * (t1 * (t2
            * cd))) <= 4_000_000_000_000_000_000_000_000_000_000_000,
{
    assert((-4_000_000_000_000_000_000 <= a.n * b.n <= 4_000_000_000_000_000_000) && (0 < t2
        * cd <= 1_000_000_000) && (0 < t1 * (t2 * cd) <= 1_000_000_000_000) && (-2_100_000
        <= p * s.d - s.n <= 2_100_000))
        by (nonlinear_arith)
        requires
            0 < s.d <= 1000,
            -1000 * s.d <= s.n <= 1000 * s.d,
            -2_000_000_000 <= a.n <= 2_000_000_000,
            -2_000_000_000 <= b.n <= 2_000_000_000,
            0 < cd <= 1_000_000,
            0 < t1 <= 1000,
            0 < t2 <= 1000,
            -1002 <= p <= 1002,
    ;
    let u = p * s.d - s.n;
    let w = a.n * b.n;
    let sc = t1 * (t2 * cd);
    assert((-8_400_000_000_000_000_000_000_000 <= u * w <= 8_400_000_000_000_000_000_000_000)
        && (-8_400_000_000_000_000_000_000_000_000_000_000_000 <= u * w * sc
        <= 8_400_000_000_000_000_000_000_000_000_000_000_000) && (0 < s.d * sc
        <= 1_000_000_000_000_000) && (-4_000_000_000_000_000_000 <= sg * w
        <= 4_000_000_000_000_000_000) && (-4_000_000_000_000_000_000_000_000_000_000_000 <= sg
        * w * (s.d * sc) <= 4_000_000_000_000_000_000_000_000_000_000_000)) by (nonlinear_arith)
        requires
            -2_100_000 <= u <= 2_100_000,
            -4_000_000_000_000_000_000 <= w <= 4_000_000_000_000_000_000,
            0 < sc <= 1_000_000_000_000,
            0 < s.d <= 1000,
            -1 <= sg <= 1,
    ;
}

} // verus!
