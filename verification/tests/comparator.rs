use polar_order::angle::compare;
use polar_order::point::distance;
use polar_order::point::Point;
use std::cmp::Ordering;

#[test]
fn test_compare() {
    let p1 = Point::new(0, 0);
    let p2 = Point::new(1, 1);
    let p3 = Point::new(2, 2);
    assert_eq!(compare(&p1, &p2, &p3), Ordering::Equal);

    let base = Point::new(0, 0);
    let p1 = Point::new(1, 1);
    let p2 = Point::new(0, 1);
    assert_eq!(compare(&p1, &p2, &base), Ordering::Less);
    assert_eq!(compare(&p2, &p1, &base), Ordering::Greater);
}

#[test]
fn compare_is_antisymmetric() {
    let base = Point::new(0, 0);
    let samples = [
        (Point::new(1, 1), Point::new(0, 1)),
        (Point::new(0, 1), Point::new(1, 1)),
        (Point::new(2, 2), Point::new(1, 1)),
        (Point::new(-3, 5), Point::new(4, 1)),
        (Point::new(7, -2), Point::new(-6, -4)),
    ];
    for (a, b) in samples {
        let fwd = compare(&a, &b, &base);
        let rev = compare(&b, &a, &base);
        assert_eq!(fwd == Ordering::Greater, rev == Ordering::Less);
        assert_eq!(fwd == Ordering::Equal, rev == Ordering::Equal);
    }
}

#[test]
fn compare_handles_extreme_coordinates() {
    let base = Point::new(i32::MIN, i32::MIN);
    let a = Point::new(i32::MAX, i32::MIN);
    let b = Point::new(i32::MIN, i32::MAX);
    // From a, the base lies to the left and b up-left: a counter-clockwise turn.
    assert_eq!(compare(&a, &b, &base), Ordering::Less);
    assert_eq!(compare(&b, &a, &base), Ordering::Greater);
}

#[test]
fn distance_is_the_squared_euclidean_distance() {
    let p1 = Point::new(1, 2);
    let p2 = Point::new(4, 6);
    assert_eq!(distance(&p1, &p2), 25);
}

#[test]
fn distance_of_a_point_to_itself_is_zero() {
    let p = Point::new(-37, 41);
    assert_eq!(distance(&p, &p), 0);
}

#[test]
fn distance_is_symmetric() {
    let p1 = Point::new(-8, 3);
    let p2 = Point::new(5, -11);
    assert_eq!(distance(&p1, &p2), distance(&p2, &p1));
    let far1 = Point::new(i32::MIN, i32::MAX);
    let far2 = Point::new(i32::MAX, i32::MIN);
    assert_eq!(distance(&far1, &far2), distance(&far2, &far1));
}
