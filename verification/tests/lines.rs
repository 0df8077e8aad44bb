use line_drawing::{Bresenham, Bresenham3d, Midpoint, Rat, Steps};

fn rat(num: i128, den: i128) -> Rat {
    Rat::new(num, den)
}

fn whole(n: i128) -> Rat {
    Rat::new(n, 1)
}

#[test]
fn test() {
    assert_eq!(
        Bresenham::new((0, 0), (5, 5)).points(),
        [(0, 0), (1, 1), (2, 2), (3, 3), (4, 4), (5, 5)]
    )
}

#[test]
fn bresenham_doc_example() {
    assert_eq!(
        Bresenham::new((0, 0), (5, 6)).points(),
        [(0, 0), (0, 1), (1, 2), (2, 3), (3, 4), (4, 5), (5, 6)]
    )
}

#[test]
fn bresenham_asymmetry_example() {
    let forward = Bresenham::new((0, 0), (5, 3)).points();
    let mut backward = Bresenham::new((5, 3), (0, 0)).points();
    backward.reverse();
    assert_ne!(forward, backward);
}

#[test]
fn bresenham_degenerate() {
    assert_eq!(Bresenham::new((7, -3), (7, -3)).points(), [(7, -3)]);
}

#[test]
fn bresenham_3d_tests() {
    assert_eq!(
        Bresenham3d::new((0, 0, 0), (5, 5, 5)).points(),
        [
            (0, 0, 0),
            (1, 1, 1),
            (2, 2, 2),
            (3, 3, 3),
            (4, 4, 4),
            (5, 5, 5)
        ]
    );

    assert_eq!(Bresenham3d::new((0, 0, 0), (500, 678, 1000)).points().len(), 1001);

    assert_eq!(Bresenham3d::new((500, 678, 1000), (0, 0, 0)).points().len(), 1001);
}

#[test]
fn bresenham_3d_doc_example() {
    assert_eq!(
        Bresenham3d::new((0, 0, 0), (5, 6, 7)).points(),
        [
            (0, 0, 0),
            (1, 1, 1),
            (1, 2, 2),
            (2, 3, 3),
            (3, 3, 4),
            (4, 4, 5),
            (4, 5, 6),
            (5, 6, 7)
        ]
    );
}

#[test]
fn midpoint_tests() {
    let midpoint = |a: (Rat, Rat), b: (Rat, Rat)| Midpoint::new(a, b).points();

    assert_eq!(
        midpoint((whole(0), whole(0)), (whole(-5), whole(-5))),
        [(0, 0), (-1, -1), (-2, -2), (-3, -3), (-4, -4), (-5, -5)]
    );

    assert_eq!(
        midpoint((whole(0), whole(0)), (whole(6), whole(3))),
        [(0, 0), (1, 1), (2, 1), (3, 2), (4, 2), (5, 3), (6, 3)]
    );
}

#[test]
fn midpoint_doc_example() {
    assert_eq!(
        Midpoint::new((rat(2, 10), rat(2, 100)), (rat(28, 10), rat(77, 10))).points(),
        [
            (0, 0),
            (1, 1),
            (1, 2),
            (1, 3),
            (2, 4),
            (2, 5),
            (2, 6),
            (3, 7),
            (3, 8)
        ]
    );
}

#[test]
fn steps() {
    assert_eq!(
        Midpoint::new((whole(0), whole(0)), (whole(3), whole(4)))
            .steps()
            .collect_pairs(),
        [
            ((0, 0), (1, 1)),
            ((1, 1), (2, 2)),
            ((2, 2), (2, 3)),
            ((2, 3), (3, 4))
        ]
    );
}

#[test]
fn steps_short_sequences() {
    let mut empty: Steps<(i64, i64)> = Steps::new(vec![]);
    assert_eq!(empty.next(), None);

    let mut single = Steps::new(vec![(4, 2)]);
    assert_eq!(single.next(), None);

    let mut pair = Steps::new(vec![(0, 0), (1, 0), (1, 1)]);
    assert_eq!(pair.next(), Some(((0, 0), (1, 0))));
    assert_eq!(pair.next(), Some(((1, 0), (1, 1))));
    assert_eq!(pair.next(), None);
}

#[test]
fn steps_pairing_counts() {
    for n in 0..6i64 {
        let seq: Vec<(i64, i64)> = (0..n).map(|i| (i, 2 * i)).collect();
        let pairs = Steps::new(seq.clone()).collect_pairs();
        if n <= 1 {
            assert!(pairs.is_empty());
        } else {
            assert_eq!(pairs.len(), (n - 1) as usize);
            for (i, p) in pairs.iter().enumerate() {
                assert_eq!(*p, (seq[i], seq[i + 1]));
            }
        }
    }
}
