use line_drawing::{reverse_slice, Supercover, WalkGrid};

#[test]
fn walk_grid_tests() {
    let walk_grid = |a, b| WalkGrid::new(a, b).points();

    assert_eq!(
        walk_grid((0, 0), (2, 2)),
        [(0, 0), (0, 1), (1, 1), (1, 2), (2, 2)]
    );

    assert_eq!(
        walk_grid((0, 0), (3, 2)),
        [(0, 0), (1, 0), (1, 1), (2, 1), (2, 2), (3, 2)]
    );

    assert_eq!(
        walk_grid((0, 0), (0, 5)),
        [(0, 0), (0, 1), (0, 2), (0, 3), (0, 4), (0, 5)]
    );

    assert_eq!(
        walk_grid((0, 0), (5, 0)),
        [(0, 0), (1, 0), (2, 0), (3, 0), (4, 0), (5, 0)]
    );

    // by default, walk grid is asymmetrical
    assert_ne!(
        walk_grid((0, 0), (2, 2)),
        reverse_slice(&walk_grid((2, 2), (0, 0)))
    );
}

#[test]
fn walk_grid_no_diagonal_steps() {
    let points = WalkGrid::new((-7, 3), (11, -4)).points();
    for w in points.windows(2) {
        assert!(w[0].0 == w[1].0 || w[0].1 == w[1].1);
    }
}

#[test]
fn supercover_tests() {
    let walk_grid = |a, b| WalkGrid::new(a, b).points();
    let supercover = |a, b| Supercover::new(a, b).points();

    // supercover should jump diagonally if the difference is equal

    assert_eq!(
        supercover((0, 0), (5, 5)),
        [(0, 0), (1, 1), (2, 2), (3, 3), (4, 4), (5, 5)]
    );

    assert_eq!(supercover((0, 0), (3, 1)), [(0, 0), (1, 0), (2, 1), (3, 1)]);

    assert_eq!(
        supercover((0, 0), (0, 5)),
        [(0, 0), (0, 1), (0, 2), (0, 3), (0, 4), (0, 5)]
    );

    assert_eq!(
        supercover((0, 0), (5, 0)),
        [(0, 0), (1, 0), (2, 0), (3, 0), (4, 0), (5, 0)]
    );

    assert_ne!(walk_grid((0, 0), (-10, 10)), supercover((0, 0), (-10, 10)));
    assert_ne!(
        walk_grid((20, 10), (10, 20)),
        supercover((20, 10), (10, 20))
    );

    // otherwise it should do the same as walk grid
    assert_eq!(supercover((0, 0), (4, 5)), walk_grid((0, 0), (4, 5)));
}

#[test]
fn supercover_symmetrical() {
    let supercover = |a, b| Supercover::new(a, b).points();

    for _ in 0..10000 {
        let start = (rand::random_range(-500..500), rand::random_range(-500..500));
        let end = (rand::random_range(-500..500), rand::random_range(-500..500));

        assert_eq!(
            supercover(start, end),
            reverse_slice(&supercover(end, start))
        );
    }
}

#[test]
#[should_panic]
fn bresenham_not_symmetrical() {
    let bresenham = |a, b| line_drawing::Bresenham::new(a, b).points();

    for _ in 0..10000 {
        let start = (rand::random_range(-500..500), rand::random_range(-500..500));
        let end = (rand::random_range(-500..500), rand::random_range(-500..500));

        assert_eq!(bresenham(start, end), reverse_slice(&bresenham(end, start)));
    }
}

#[test]
#[should_panic]
fn bresenham_3d_not_symmetrical() {
    let bresenham_3d = |a, b| line_drawing::Bresenham3d::new(a, b).points();

    for _ in 0..10000 {
        let start = (
            rand::random_range(-500..500),
            rand::random_range(-500..500),
            rand::random_range(-500..500),
        );
        let end = (
            rand::random_range(-500..500),
            rand::random_range(-500..500),
            rand::random_range(-500..500),
        );

        assert_eq!(
            bresenham_3d(start, end),
            reverse_slice(&bresenham_3d(end, start))
        );
    }
}
