use line_drawing::{Rat, VoxelOrigin, WalkVoxels, XiaolinWu};

fn rat(num: i128, den: i128) -> Rat {
    Rat::new(num, den)
}

fn whole(n: i128) -> Rat {
    Rat::new(n, 1)
}

fn assert_wu(got: &[((i64, i64), Rat)], want: &[((i64, i64), i128, i128)]) {
    assert_eq!(got.len(), want.len());
    for (g, w) in got.iter().zip(want.iter()) {
        assert_eq!(g.0, w.0);
        assert!(g.1.eq_val(&rat(w.1, w.2)));
    }
}

#[test]
fn tests() {
    assert_eq!(
        WalkVoxels::new(
            (rat(472, 1000), rat(-1100, 1000), rat(179, 1000)),
            (rat(1114, 1000), rat(-391, 1000), rat(927, 1000)),
            &VoxelOrigin::Center
        )
        .points(),
        [(0, -1, 0), (1, -1, 0), (1, -1, 1), (1, 0, 1)]
    );
}

#[test]
fn walk_voxels_doc_example() {
    assert_eq!(
        WalkVoxels::new(
            (whole(0), whole(0), whole(0)),
            (whole(5), whole(6), whole(7)),
            &VoxelOrigin::Center
        )
        .points(),
        [
            (0, 0, 0),
            (0, 0, 1),
            (0, 1, 1),
            (1, 1, 1),
            (1, 1, 2),
            (1, 2, 2),
            (2, 2, 2),
            (2, 2, 3),
            (2, 3, 3),
            (2, 3, 4),
            (3, 3, 4),
            (3, 4, 4),
            (3, 4, 5),
            (4, 4, 5),
            (4, 5, 5),
            (4, 5, 6),
            (4, 5, 7),
            (4, 6, 7),
            (5, 6, 7)
        ]
    );
}

#[test]
fn walk_voxels_corner_rounding() {
    // Corner rounding floors the continuous coordinates
    assert_eq!(
        VoxelOrigin::Corner.round((rat(-15, 10), rat(17, 10), rat(5, 10))),
        (-2, 1, 0)
    );
    // Center rounding goes to the nearest voxel, halves away from zero
    assert_eq!(
        VoxelOrigin::Center.round((rat(-15, 10), rat(17, 10), rat(5, 10))),
        (-2, 2, 1)
    );
}

#[test]
#[should_panic]
fn walk_voxels_symmetrical() {
    let walk_voxels = |a, b| WalkVoxels::new(a, b, &VoxelOrigin::Center).points();

    for _ in 0..10000 {
        let start = (
            rat(rand::random_range(-500_000..500_000), 1000),
            rat(rand::random_range(-500_000..500_000), 1000),
            rat(rand::random_range(-500_000..500_000), 1000),
        );
        let end = (
            rat(rand::random_range(-500_000..500_000), 1000),
            rat(rand::random_range(-500_000..500_000), 1000),
            rat(rand::random_range(-500_000..500_000), 1000),
        );

        let mut backward = walk_voxels(end, start);
        backward.reverse();
        assert_eq!(walk_voxels(start, end), backward);
    }
}

#[test]
fn xiaolin_wu_tests() {
    let xiaolin_wu = |a, b| XiaolinWu::new(a, b).points();

    assert_wu(
        &xiaolin_wu((whole(0), whole(0)), (whole(6), whole(3))),
        &[
            ((0, 0), 1, 1),
            ((1, 0), 1, 2),
            ((1, 1), 1, 2),
            ((2, 1), 1, 1),
            ((3, 1), 1, 2),
            ((3, 2), 1, 2),
            ((4, 2), 1, 1),
            ((5, 2), 1, 2),
            ((5, 3), 1, 2),
            ((6, 3), 1, 1),
        ],
    );

    // The algorithm reorders the points to be left-to-right
    let forward = xiaolin_wu((rat(3405, 10), rat(29077, 100)), (whole(110), whole(170)));
    let backward = xiaolin_wu((whole(110), whole(170)), (rat(3405, 10), rat(29077, 100)));
    assert_eq!(forward.len(), backward.len());
    for (f, b) in forward.iter().zip(backward.iter()) {
        assert_eq!(f.0, b.0);
        assert!(f.1.eq_val(&b.1));
    }
}

#[test]
fn xiaolin_wu_steep_example() {
    assert_wu(
        &XiaolinWu::new((whole(0), whole(0)), (whole(3), whole(6))).points(),
        &[
            ((0, 0), 1, 1),
            ((0, 1), 1, 2),
            ((1, 1), 1, 2),
            ((1, 2), 1, 1),
            ((1, 3), 1, 2),
            ((2, 3), 1, 2),
            ((2, 4), 1, 1),
            ((2, 5), 1, 2),
            ((3, 5), 1, 2),
            ((3, 6), 1, 1),
        ],
    );
}

#[test]
fn xiaolin_wu_coverage_pairs_sum_to_one() {
    let points = XiaolinWu::new((rat(3, 10), rat(17, 10)), (rat(131, 10), rat(94, 10))).points();
    for w in points.windows(2) {
        if w[0].0 .0 == w[1].0 .0 {
            // same column: the two weights are complementary
            assert_eq!(w[0].1.den, w[1].1.den);
            assert_eq!(w[0].1.num + w[1].1.num, w[0].1.den);
        }
    }
}
