use polar_order::order::order_points;
use polar_order::order::OrderError;
use polar_order::point::Point;
use std::cmp::Ordering;

fn pt(x: i32, y: i32) -> Point {
    Point::new(x, y)
}

fn count_occurrences(v: &[Point], p: &Point) -> usize {
    v.iter().filter(|q| *q == p).count()
}

#[test]
fn orders_collinear_points_anchor_first() {
    let mut pts = vec![pt(0, 0), pt(2, 2), pt(1, 1)];
    let r = order_points(&mut pts);
    assert_eq!(r, Ok(()));
    assert_eq!(pts, vec![pt(0, 0), pt(1, 1), pt(2, 2)]);
}

#[test]
fn orders_axis_points_by_increasing_angle() {
    let mut pts = vec![pt(0, 0), pt(1, 0), pt(0, 1), pt(-1, 0), pt(0, -1)];
    let r = order_points(&mut pts);
    assert_eq!(r, Ok(()));
    assert_eq!(pts[0], pt(0, -1));
    assert_eq!(pts, vec![pt(0, -1), pt(1, 0), pt(0, 0), pt(0, 1), pt(-1, 0)]);
}

#[test]
fn single_point_is_returned_alone() {
    let mut pts = vec![pt(5, 5)];
    let r = order_points(&mut pts);
    assert_eq!(r, Ok(()));
    assert_eq!(pts, vec![pt(5, 5)]);
}

#[test]
fn empty_input_is_rejected() {
    let mut pts: Vec<Point> = vec![];
    let r = order_points(&mut pts);
    assert_eq!(r, Err(OrderError::EmptyInput));
    assert!(pts.is_empty());
}

#[test]
fn anchor_breaks_y_ties_by_lowest_x() {
    let mut pts = vec![pt(3, 0), pt(1, 0), pt(2, 5)];
    let r = order_points(&mut pts);
    assert_eq!(r, Ok(()));
    assert_eq!(pts[0], pt(1, 0));
}

#[test]
fn identical_points_do_not_crash() {
    let mut pts = vec![pt(2, 2), pt(2, 2)];
    let r = order_points(&mut pts);
    assert_eq!(r, Ok(()));
    assert_eq!(pts, vec![pt(2, 2), pt(2, 2)]);
}

#[test]
fn output_is_a_permutation_of_the_input() {
    let input = vec![pt(4, 7), pt(-3, 2), pt(0, 0), pt(-3, 2), pt(9, -1), pt(5, 5)];
    let mut pts = input.clone();
    let r = order_points(&mut pts);
    assert_eq!(r, Ok(()));
    assert_eq!(pts.len(), input.len());
    for p in &input {
        assert_eq!(count_occurrences(&pts, p), count_occurrences(&input, p));
    }
}

#[test]
fn output_angles_never_decrease() {
    let mut pts = vec![pt(0, 0), pt(1, 0), pt(0, 1), pt(-1, 0), pt(0, -1), pt(3, 4), pt(-2, 7)];
    let r = order_points(&mut pts);
    assert_eq!(r, Ok(()));
    let anchor = pts[0];
    for i in 1..pts.len() {
        for j in (i + 1)..pts.len() {
            let c = polar_order::angle::compare(&pts[i], &pts[j], &anchor);
            assert_ne!(c, Ordering::Greater);
        }
    }
}

#[test]
fn ordering_is_deterministic() {
    let input = vec![pt(2, 3), pt(-1, -1), pt(4, 0), pt(0, 4), pt(-1, -1), pt(2, 3)];
    let mut first = input.clone();
    let mut second = input.clone();
    assert_eq!(order_points(&mut first), Ok(()));
    assert_eq!(order_points(&mut second), Ok(()));
    assert_eq!(first, second);
}
