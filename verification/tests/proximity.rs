use clusters::Proximity;
use clusters::line::LinePoint;
use clusters::line::SkewPoint;

#[test]
fn is_near_follows_distance_threshold() {
    let a = LinePoint { pos: 2 };
    let b = LinePoint { pos: 7 };
    assert_eq!(a.distance(&b), 5);
    assert!(a.is_near(&b, 5));
    assert!(!a.is_near(&b, 4));
}

#[test]
fn distance_is_direction_free_for_line_points() {
    let a = LinePoint { pos: 3 };
    let b = LinePoint { pos: 9 };
    assert_eq!(a.distance(&b), b.distance(&a));
}

#[test]
fn distance_need_not_be_symmetric() {
    let a = SkewPoint { pos: 3 };
    let b = SkewPoint { pos: 8 };
    assert_eq!(a.distance(&b), 5);
    assert_eq!(b.distance(&a), 7);
    assert!(a.is_near(&b, 5));
    assert!(!b.is_near(&a, 5));
}

#[test]
fn cross_type_measurement() {
    let a = LinePoint { pos: 1 };
    let b = SkewPoint { pos: 4 };
    assert_eq!(a.distance(&b), 3);
    assert!(a.is_near(&b, 3));
    assert!(!a.is_near(&b, 2));
}

#[test]
fn zero_distance_is_near_any_epsilon() {
    let a = LinePoint { pos: 11 };
    let b = LinePoint { pos: 11 };
    assert_eq!(a.distance(&b), 0);
    assert!(a.is_near(&b, 0));
}

#[test]
fn extreme_positions_measure_without_overflow() {
    let a = LinePoint { pos: 0 };
    let b = LinePoint { pos: u32::MAX };
    assert_eq!(a.distance(&b), u32::MAX as u64);
    assert_eq!(b.distance(&a), u32::MAX as u64);
    let s = SkewPoint { pos: u32::MAX };
    let t = SkewPoint { pos: 0 };
    assert_eq!(s.distance(&t), u32::MAX as u64 + 2);
}
