use line_drawing::{BresenhamCircle, BresenhamEllipse};

#[test]
fn circle_radius_one() {
    assert_eq!(
        BresenhamCircle::new(0, 0, 1).points(),
        [(1, 0), (0, 1), (-1, 0), (0, -1)]
    );
}

#[test]
fn circle_radius_three() {
    assert_eq!(
        BresenhamCircle::new(0, 0, 3).points(),
        [
            (3, 0),
            (0, 3),
            (-3, 0),
            (0, -3),
            (3, 1),
            (-1, 3),
            (-3, -1),
            (1, -3),
            (2, 2),
            (-2, 2),
            (-2, -2),
            (2, -2),
            (1, 3),
            (-3, 1),
            (-1, -3),
            (3, -1)
        ]
    );
}

#[test]
fn circle_radius_zero() {
    assert!(BresenhamCircle::new(4, -7, 0).points().is_empty());
}

#[test]
fn circle_fourfold_rotation() {
    // every ring of four is a quarter-turn orbit about the center
    let center = (5, 7);
    let points = BresenhamCircle::new(center.0, center.1, 10).points();
    assert_eq!(points.len() % 4, 0);
    for ring in points.chunks(4) {
        for j in 0..3 {
            let p = (ring[j].0 - center.0, ring[j].1 - center.1);
            let r = (ring[j + 1].0 - center.0, ring[j + 1].1 - center.1);
            assert_eq!(r, (-p.1, p.0));
        }
    }
}

#[test]
fn bresenham_ellipse_tests() {
    let ellipse = |a, b, c, d| BresenhamEllipse::new(a, b, c, d).points();

    assert_eq!(
        ellipse(50, 50, 10, 15),
        [(60, 50), (40, 50), (40, 50), (60, 50), (60, 51), (40, 51), (40, 49), (60, 49), (60, 52),
         (40, 52), (40, 48), (60, 48), (60, 53), (40, 53), (40, 47), (60, 47), (60, 54), (40, 54),
         (40, 46), (60, 46), (59, 55), (41, 55), (41, 45), (59, 45), (59, 56), (41, 56), (41, 44),
         (59, 44), (59, 57), (41, 57), (41, 43), (59, 43), (58, 58), (42, 58), (42, 42), (58, 42),
         (58, 59), (42, 59), (42, 41), (58, 41), (57, 60), (43, 60), (43, 40), (57, 40), (57, 61),
         (43, 61), (43, 39), (57, 39), (56, 62), (44, 62), (44, 38), (56, 38), (50, 65), (50, 65),
         (50, 35), (50, 35), (51, 65), (49, 65), (49, 35), (51, 35), (52, 65), (48, 65), (48, 35),
         (52, 35), (53, 64), (47, 64), (47, 36), (53, 36), (54, 64), (46, 64), (46, 36), (54, 36),
         (55, 63), (45, 63), (45, 37), (55, 37)]
    );
}

#[test]
fn ellipse_doc_example() {
    assert_eq!(
        BresenhamEllipse::new(5, 5, 2, 3).points(),
        [
            (7, 5),
            (3, 5),
            (3, 5),
            (7, 5),
            (7, 6),
            (3, 6),
            (3, 4),
            (7, 4),
            (6, 7),
            (4, 7),
            (4, 3),
            (6, 3),
            (5, 8),
            (5, 8),
            (5, 2),
            (5, 2),
            (6, 8),
            (4, 8),
            (4, 2),
            (6, 2)
        ]
    );
}

#[test]
fn ellipse_fourfold_mirror() {
    // every ring of four reflects one offset across the center's axes
    let center = (9, -4);
    let points = BresenhamEllipse::new(center.0, center.1, 6, 11).points();
    assert_eq!(points.len() % 4, 0);
    for ring in points.chunks(4) {
        assert_eq!(ring[1], (2 * center.0 - ring[0].0, ring[0].1));
        assert_eq!(ring[2], (ring[1].0, 2 * center.1 - ring[1].1));
        assert_eq!(ring[3], (2 * center.0 - ring[2].0, ring[2].1));
    }
}
