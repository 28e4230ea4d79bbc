use nested_points::geometry::Pos;
use nested_points::score::{compute_score, dist, isqrt};

#[test]
fn isqrt_exact_values() {
    assert_eq!(isqrt(0), 0);
    assert_eq!(isqrt(1), 1);
    assert_eq!(isqrt(2), 1);
    assert_eq!(isqrt(3), 1);
    assert_eq!(isqrt(4), 2);
    assert_eq!(isqrt(99), 9);
    assert_eq!(isqrt(100), 10);
    assert_eq!(isqrt(250_000), 500);
    assert_eq!(isqrt(u64::MAX), 4_294_967_295);
}

#[test]
fn dist_is_the_rounded_euclidean_distance() {
    // a 3-4-5 triangle, scaled: dx = 300, dy = 400, distance 500
    assert_eq!(dist(Pos { x: 0, y: 0 }, Pos { x: 300, y: 400 }), 500);
    assert_eq!(dist(Pos { x: 300, y: 400 }, Pos { x: 0, y: 0 }), 500);
    // a unit diagonal rounds down
    assert_eq!(dist(Pos { x: 0, y: 0 }, Pos { x: 100, y: 100 }), 141);
}

#[test]
fn score_of_empty_and_single_layouts_is_zero() {
    let empty: Vec<Pos> = Vec::new();
    assert_eq!(compute_score(&empty, 5), 0);
    let single = vec![Pos { x: 123, y: 456 }];
    assert_eq!(compute_score(&single, 5), 0);
}

#[test]
fn score_scales_with_depth_and_zeroes_at_depth_zero() {
    let points = vec![Pos { x: 0, y: 0 }, Pos { x: 300, y: 400 }];
    assert_eq!(compute_score(&points, 0), 0);
    assert_eq!(compute_score(&points, 1), 500);
    assert_eq!(compute_score(&points, 2), 1000);
    assert_eq!(compute_score(&points, 7), 3500);
}

#[test]
fn score_sums_every_unordered_pair() {
    // pairwise distances: 500 (3-4-5), 400, 300
    let points = vec![Pos { x: 0, y: 0 }, Pos { x: 300, y: 400 }, Pos { x: 300, y: 0 }];
    assert_eq!(compute_score(&points, 1), 500 + 400 + 300);
}

#[test]
fn score_is_symmetric_under_reordering() {
    let a = vec![
        Pos { x: 10, y: 20 },
        Pos { x: 900, y: 400 },
        Pos { x: 330, y: 330 },
        Pos { x: 500, y: 999 },
    ];
    let b = vec![a[2], a[0], a[3], a[1]];
    let c = vec![a[3], a[2], a[1], a[0]];
    let sa = compute_score(&a, 3);
    assert_eq!(sa, compute_score(&b, 3));
    assert_eq!(sa, compute_score(&c, 3));
}

#[test]
fn coincident_points_add_no_score() {
    let points = vec![Pos { x: 400, y: 400 }, Pos { x: 400, y: 400 }];
    assert_eq!(compute_score(&points, 9), 0);
}
