use circuit_sim::car::Car;
use circuit_sim::fixed::{from_int, Fixed, SCALE};
use circuit_sim::geometry::{closer_than, farther_than, get_eukled_distance, offset, within, Point};

fn cone(x: Fixed, y: Fixed) -> Point {
    (x * SCALE, y * SCALE)
}

#[test]
fn marker_at_exactly_the_range_is_seen() {
    let car = Car::new(0, 0, 0);
    assert!(car.is_cone_in_range((from_int(20), 0)));
    assert!(car.is_cone_in_range(cone(12, 16)));
}

#[test]
fn marker_one_step_beyond_the_range_is_not_seen() {
    let car = Car::new(0, 0, 0);
    assert!(!car.is_cone_in_range((from_int(20) + 1, 0)));
    assert!(!car.is_cone_in_range((from_int(12), from_int(16) + 1)));
}

#[test]
fn marker_behind_the_vehicle_is_not_seen() {
    let car = Car::new(0, 0, 0);
    assert!(car.is_cone_in_range(cone(10, 0)));
    assert!(!car.is_cone_in_range(cone(-10, 0)));
    assert!(!car.is_cone_in_range(cone(0, 10)));
}

#[test]
fn opening_angle_is_eighty_degrees_to_either_side() {
    let car = Car::new(0, 0, 0);
    assert_eq!(car.half_view(), 1_396_263_401);
    assert!(car.is_cone_in_range(cone(1, 5)));
    assert!(!car.is_cone_in_range(cone(1, 6)));
    assert!(!car.is_cone_in_range(cone(-1, 5)));
    assert!(car.is_cone_in_range(cone(5, 5)));
}

#[test]
fn bearing_test_takes_the_difference_from_marker_to_vehicle() {
    let car = Car::new(0, 0, 0);
    assert!(car.is_cone_in_angle(0, -SCALE));
    assert!(!car.is_cone_in_angle(0, SCALE));
    assert!(!car.is_cone_in_angle(-SCALE, 0));
    assert!(car.is_cone_in_angle(SCALE, -SCALE));
}

#[test]
fn scan_keeps_order_and_coordinates() {
    let car = Car::new(0, 0, 0);
    let blue = vec![cone(10, 0), cone(-10, 0), cone(5, 5), cone(30, 0), cone(1, 5)];
    let yellow = vec![cone(0, 10), cone(12, 16), cone(20, 0)];
    let (seen_blue, seen_yellow) = car.scan_cones(&blue, &yellow);
    assert_eq!(seen_blue, vec![cone(10, 0), cone(5, 5), cone(1, 5)]);
    assert_eq!(seen_yellow, vec![cone(12, 16), cone(20, 0)]);
}

#[test]
fn scan_of_nothing_sees_nothing() {
    let car = Car::new(0, 0, 0);
    let (seen_blue, seen_yellow) = car.scan_cones(&Vec::new(), &Vec::new());
    assert!(seen_blue.is_empty());
    assert!(seen_yellow.is_empty());
}

#[test]
fn turning_vehicle_and_markers_together_keeps_what_is_seen() {
    let ahead = Car::new(0, 0, 0);
    let left = Car::new(0, 0, 1_570_796_327);
    let markers = vec![cone(10, 0), cone(5, 5), cone(1, 5), cone(1, 6), cone(-10, 0), cone(3, -4)];
    let turned: Vec<Point> = markers.iter().map(|m| (-m.1, m.0)).collect();
    let (seen, _) = ahead.scan_cones(&markers, &Vec::new());
    let (seen_turned, _) = left.scan_cones(&turned, &Vec::new());
    let back: Vec<Point> = seen_turned.iter().map(|m| (m.1, -m.0)).collect();
    assert_eq!(seen, back);
}

#[test]
fn heading_below_zero_sees_what_the_heading_a_turn_higher_sees() {
    let low = Car::new(0, 0, from_int(-6));
    let high = Car::new(0, 0, 283_185_307);
    let markers = vec![(from_int(5), from_int(-1)), cone(5, 0), (2_942_505_586, -4_042_482_019)];
    let (seen_low, _) = low.scan_cones(&markers, &Vec::new());
    let (seen_high, _) = high.scan_cones(&markers, &Vec::new());
    assert_eq!(seen_low, markers);
    assert_eq!(seen_high, seen_low);
}

#[test]
fn whole_turns_of_the_heading_change_nothing() {
    let markers = vec![cone(5, 0), cone(1, 5), cone(1, 6), cone(-5, 1), cone(0, -7), cone(3, 3)];
    let plain = Car::new(0, 0, 283_185_307);
    let (seen, _) = plain.scan_cones(&markers, &Vec::new());
    assert_eq!(seen, vec![cone(5, 0), cone(1, 5), cone(1, 6), cone(3, 3)]);
    let mut turns: Fixed = -5;
    while turns <= 5 {
        let turned = Car::new(0, 0, 283_185_307 + turns * 6_283_185_307);
        let (seen_turned, _) = turned.scan_cones(&markers, &Vec::new());
        assert_eq!(seen_turned, seen);
        turns += 1;
    }
}

#[test]
fn every_heading_sees_the_marker_ahead_and_not_the_one_behind() {
    let mut heading: Fixed = -20 * SCALE;
    while heading < 20 * SCALE {
        let car = Car::new(0, 0, heading);
        let ahead = offset((0, 0), heading, from_int(5));
        let behind = offset((0, 0), heading, from_int(-5));
        assert!(car.is_cone_in_range(ahead));
        assert!(!car.is_cone_in_range(behind));
        heading += 123_456_789;
    }
}

#[test]
fn outline_of_the_field_of_view() {
    let car = Car::new(0, 0, 0);
    let edge = car.get_view_edge();
    assert_eq!(edge.len(), 60);
    assert_eq!(edge[0], (0, 0));
    assert_eq!(edge[1], (0, 0));
    assert_eq!(edge[2], (3_472_963_540, -19_696_155_080));
    assert_eq!(edge[3], (173_648_177, -984_807_754));
    assert_eq!(edge[4], (173_648_179, 984_807_753));
    assert_eq!(edge[5], (6_180_339_880, -19_021_130_340));
    assert_eq!(edge[57], (3_299_315_363, -18_711_347_326));
    assert_eq!(edge[58], (3_299_315_401, 18_711_347_307));
    assert_eq!(edge[59], (6_180_339_900, 19_021_130_320));
}

#[test]
fn distance_tests_are_exact() {
    let origin: Point = (0, 0);
    assert!(within(origin, (3, 4), 5));
    assert!(!within(origin, (3, 4), 4));
    assert!(!closer_than(origin, (3, 4), 5));
    assert!(closer_than(origin, (3, 4), 6));
    assert!(farther_than(origin, (3, 4), 4));
    assert!(!farther_than(origin, (3, 4), 5));
    assert!(!within(origin, origin, -1));
    assert!(farther_than((i64::MIN, i64::MIN), (i64::MAX, i64::MAX), i64::MAX));
}

#[test]
fn distance_of_two_points() {
    assert_eq!(get_eukled_distance(cone(1, 2), cone(4, 6)), from_int(5));
    assert_eq!(get_eukled_distance(cone(4, 6), cone(1, 2)), from_int(5));
    assert_eq!(get_eukled_distance((0, 0), (1, 1)), 1);
    assert_eq!(get_eukled_distance((i64::MIN, 0), (i64::MAX, 0)), i64::MAX);
}

#[test]
fn offset_along_the_axes() {
    assert_eq!(offset(cone(1, 2), 0, from_int(3)), cone(4, 2));
    assert_eq!(offset(cone(1, 2), 1_570_796_327, from_int(3)), (1_000_000_000, 5_000_000_000));
    assert_eq!(offset(cone(1, 2), 3_141_592_654, from_int(3)), (-2_000_000_000, 2_000_000_000));
}

#[test]
fn outline_of_a_range_that_is_no_multiple_of_twenty() {
    let mut car = Car::new(0, 0, 1_396_263_401);
    car.view_range = 7;
    let edge = car.get_view_edge();
    assert_eq!(edge[3 * 19], (6, 0));
    assert_eq!(edge[3 * 10], (3, 0));
    assert_eq!(edge[3 * 3], (1, 0));
    for p in edge.iter() {
        assert!(p.0.abs() <= 7 && p.1.abs() <= 7);
    }
}
