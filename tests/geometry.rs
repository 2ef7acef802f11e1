use artillery::Coordinate;

fn at(x: i32, y: i32) -> Coordinate {
    Coordinate { x, y }
}

#[test]
fn distance_of_a_right_triangle() {
    assert_eq!(at(0, 0).distance(&at(300, 400)), 500);
    assert_eq!(at(-100, 250).distance(&at(200, -150)), 500);
}

#[test]
fn distance_rounds_down_to_hundredths() {
    // sqrt(2) hundredths
    assert_eq!(at(0, 0).distance(&at(1, 1)), 1);
    // sqrt(5000) = 70.71 hundredths
    assert_eq!(at(0, 0).distance(&at(50, 50)), 70);
}

#[test]
fn distance_is_symmetric_and_zero_to_itself() {
    let a = at(2500, 2500);
    let b = at(-731, 12);
    assert_eq!(a.distance(&b), b.distance(&a));
    assert_eq!(a.distance(&a), 0);
    assert_eq!(b.distance(&b), 0);
}

#[test]
fn distance_at_the_extremes_of_the_axes() {
    let a = at(i32::MIN, i32::MIN);
    let b = at(i32::MAX, i32::MAX);
    // (2^32 - 1) * sqrt(2), rounded down
    assert_eq!(a.distance(&b), 6_074_000_998);
    assert_eq!(a.squared_distance(&b), 2 * 4_294_967_295u128 * 4_294_967_295u128);
}

#[test]
fn contains_includes_the_boundary() {
    assert!(at(0, 0).contains(&at(300, 400), 500));
    assert!(!at(0, 0).contains(&at(300, 400), 499));
    assert!(at(7, 7).contains(&at(7, 7), 0));
}

#[test]
fn contains_is_order_independent() {
    let a = at(1000, -250);
    let b = at(1300, 150);
    for r in [0u32, 100, 499, 500, 501, 10_000] {
        assert_eq!(a.contains(&b, r), b.contains(&a, r));
    }
}
