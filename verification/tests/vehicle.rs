use circuit_sim::car::{Car, Pose, STEERING_EPSILON};
use circuit_sim::fixed::{from_int, Fixed, SCALE};
use circuit_sim::trig::HALF_PI;

fn as_float(x: Fixed) -> f64 {
    x as f64 / SCALE as f64
}

#[test]
fn new_car_has_the_default_parameters() {
    let car = Car::new(from_int(1), from_int(2), from_int(3));
    assert_eq!(car.get_position(), (from_int(1), from_int(2), from_int(3)));
    assert_eq!(car.view_angle, from_int(160));
    assert_eq!(car.view_range, from_int(20));
    assert_eq!(car.velocity, 0);
    assert_eq!(car.steering_angle, 0);
    assert_eq!(car.max_angle, 392_699_082);
    assert_eq!(car.a, from_int(2));
    assert_eq!(car.b, from_int(2));
    assert_eq!(car.get_traveled_distance(), 0);
}

#[test]
fn one_tick_straight_ahead_from_the_origin() {
    let mut car = Car::new(0, 0, 0);
    car.velocity = SCALE;
    car.steering_angle = 0;
    car.update_car_position();
    assert_eq!(car.get_position(), (SCALE, 0, 0));
    assert_eq!(car.get_traveled_distance(), SCALE);
}

#[test]
fn steering_at_the_threshold_moves_straight() {
    let car = Car::new(0, 0, 0);
    let start = Pose { x: 0, y: 0, heading: 0 };
    let straight = Pose { x: SCALE, y: 0, heading: 0 };
    assert_eq!(car.integrate(start, SCALE, STEERING_EPSILON), straight);
    assert_eq!(car.integrate(start, SCALE, -STEERING_EPSILON), straight);
    assert_eq!(
        car.integrate(start, SCALE, STEERING_EPSILON + 1),
        Pose { x: 999_999_040, y: -1_967_368, heading: -1_967_368 }
    );
}

#[test]
fn straight_step_follows_the_heading() {
    let mut car = Car::new(from_int(1), from_int(2), HALF_PI);
    car.velocity = 100_000_000;
    car.update_car_position();
    assert_eq!(car.get_position(), (1_000_000_000, 2_100_000_000, HALF_PI));
    assert_eq!(car.get_traveled_distance(), 100_000_000);
}

#[test]
fn radius_angle_and_chord_at_half_steering() {
    let car = Car::new(0, 0, 0);
    let half: Fixed = SCALE / 2;
    assert_eq!(car.turn_radius(half), -10_054_678_990);
    assert_eq!(car.turn_angle(SCALE, half), -110_440_138);
    assert_eq!(car.chord_length(SCALE, half), 1_001_017_670);
    let r = 2.0 * (0.5 * std::f64::consts::PI / 8.0 + std::f64::consts::PI / 2.0).tan();
    let alpha = 1.0 / (r + 1.0);
    let len = 2.0 * (r + 1.0) * (alpha / 2.0).tan();
    assert!((as_float(car.turn_radius(half)) - r).abs() < 1e-5);
    assert!((as_float(car.turn_angle(SCALE, half)) - alpha).abs() < 1e-5);
    assert!((as_float(car.chord_length(SCALE, half)) - len).abs() < 1e-5);
}

#[test]
fn turning_step_advances_by_the_chord_along_the_new_heading() {
    let mut car = Car::new(0, 0, 0);
    car.velocity = SCALE;
    car.steering_angle = SCALE / 2;
    car.update_car_position();
    assert_eq!(car.get_position(), (994_919_154, -110_327_931, -110_440_138));
    assert_eq!(car.get_traveled_distance(), 1_001_017_669);
    let (x, y, _) = car.get_position();
    let moved = (as_float(x) * as_float(x) + as_float(y) * as_float(y)).sqrt();
    assert!((moved - as_float(car.chord_length(SCALE, SCALE / 2))).abs() < 1e-5);
}

#[test]
fn full_steering_to_the_other_side() {
    let mut car = Car::new(0, 0, 0);
    car.velocity = SCALE;
    car.steering_angle = -SCALE;
    assert_eq!(car.turn_radius(-SCALE), 4_828_427_114);
    car.update_car_position();
    assert_eq!(car.get_position(), (987_741_642, 171_152_396, 171_572_875));
    assert_eq!(car.get_traveled_distance(), 1_002_460_320);
}

#[test]
fn heading_is_never_wrapped() {
    let mut car = Car::new(0, 0, from_int(100));
    car.velocity = SCALE;
    car.steering_angle = -SCALE;
    car.update_car_position();
    let (_, _, heading) = car.get_position();
    assert_eq!(heading, from_int(100) + 171_572_875);
}

#[test]
fn distance_travelled_never_shrinks() {
    let mut car = Car::new(0, 0, 0);
    car.velocity = -SCALE;
    let mut last: Fixed = 0;
    let mut tick = 0;
    while tick < 20 {
        car.steering_angle = (tick - 10) * 100_000_000;
        car.update_car_position();
        assert!(car.get_traveled_distance() >= last);
        last = car.get_traveled_distance();
        tick += 1;
    }
    assert!(last > 19 * SCALE);
}

#[test]
fn length_of_a_turning_step_is_the_chord_up_to_rounding() {
    let mut steering: Fixed = -SCALE;
    while steering <= SCALE {
        if steering.abs() > STEERING_EPSILON {
            let mut car = Car::new(from_int(3), from_int(-4), from_int(2));
            car.velocity = 700_000_000;
            car.steering_angle = steering;
            let len = car.chord_length(car.velocity, steering).abs() as i128;
            car.update_car_position();
            let step = car.get_traveled_distance() as i128;
            assert!(step * 1_000_000_000 <= 1_000_000_002 * len);
            assert!(999_999_997 * len < (step + 3) * 1_000_000_000);
        }
        steering += 37_000_000;
    }
}
