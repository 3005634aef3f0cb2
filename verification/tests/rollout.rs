use circuit_sim::car::{Car, Pose};
use circuit_sim::dmp::{PdController, DMP};
use circuit_sim::fixed::{from_int, Fixed, SCALE};
use circuit_sim::geometry::Point;
use circuit_sim::rollout::{
    clamp_steering, goal_direction, ManualInput, Rollout, ROLLOUT_TICKS, WARMUP_TICKS,
};

const NO_INPUT: ManualInput = ManualInput { velocity_delta: 0, steering_goal_delta: 0 };

fn point(x: Fixed, y: Fixed) -> Point {
    (x * SCALE, y * SCALE)
}

fn shaper() -> DMP {
    let yellow = vec![point(1, -1), point(2, 0)];
    let blue = vec![point(1, 1), point(2, 2)];
    DMP::new(3, &yellow, &blue)
}

#[test]
fn steering_is_held_within_one() {
    assert_eq!(clamp_steering(3_000_000_000), SCALE);
    assert_eq!(clamp_steering(-3_000_000_000), -SCALE);
    assert_eq!(clamp_steering(1_000_000_000), SCALE);
    assert_eq!(clamp_steering(i128::MAX), SCALE);
    assert_eq!(clamp_steering(i128::MIN), -SCALE);
    assert_eq!(clamp_steering(-1_000_000_000), -SCALE);
    assert_eq!(clamp_steering(123), 123);
}

#[test]
fn three_ticks_toward_a_goal_direction() {
    let dmp = shaper();
    let mut car = Car::new(0, 0, 0);
    car.velocity = SCALE / 10;
    let mut rollout = Rollout::new(car, PdController::new(5 * SCALE, 1_000_000), ROLLOUT_TICKS, WARMUP_TICKS);
    let cones = vec![point(5, 0), point(-5, 0)];

    let first = rollout.step(&cones, &Vec::new(), &dmp, SCALE / 2, NO_INPUT).unwrap();
    assert_eq!(first.detected_blue, vec![point(5, 0)]);
    assert!(first.detected_yellow.is_empty());
    assert_eq!(first.steering_goal, 500_000_000);
    assert_eq!(first.steering_command, -SCALE);
    assert_eq!(first.tracking_error, 3_000_500_000);
    assert_eq!(first.pose, Pose { x: 99_987_707, y: 1_715_686, heading: 17_157_287 });
    assert_eq!(first.reward, 0);
    assert_eq!(rollout.reward, 0);

    let second = rollout.step(&cones, &Vec::new(), &dmp, SCALE / 2, NO_INPUT).unwrap();
    assert_eq!(second.steering_goal, 482_842_713);
    assert_eq!(second.pose, Pose { x: 199_931_262, y: 5_146_553, heading: 34_314_574 });
    assert_eq!(second.reward, 540_887_576);

    let third = rollout.step(&cones, &Vec::new(), &dmp, SCALE / 2, NO_INPUT).unwrap();
    assert_eq!(third.pose, Pose { x: 299_801_246, y: 10_291_591, heading: 51_471_861 });
    assert_eq!(third.reward, 573_599_975);
    assert_eq!(rollout.reward, 1_114_487_551);
    assert_eq!(rollout.ticks_done, 3);
    assert_eq!(rollout.car.get_traveled_distance(), 300_007_275);
}

#[test]
fn driver_changes_velocity_and_steering_goal() {
    let dmp = shaper();
    let car = Car::new(0, 0, 0);
    let mut rollout = Rollout::new(car, PdController::new(SCALE, 0), 10, 0);
    let input = ManualInput { velocity_delta: 100_000_000, steering_goal_delta: 300_000_000 };
    let report = rollout.step(&Vec::new(), &Vec::new(), &dmp, 0, input).unwrap();
    assert_eq!(rollout.car.velocity, 100_000_000);
    assert_eq!(report.steering_goal, 300_000_000);
    assert_eq!(report.steering_command, -300_000_000);
}

#[test]
fn finished_rollout_stays_as_it_is() {
    let dmp = shaper();
    let mut car = Car::new(0, 0, 0);
    car.velocity = SCALE;
    let mut rollout = Rollout::new(car, PdController::new(SCALE, 0), 2, 0);
    assert!(!rollout.finished());
    assert!(rollout.step(&Vec::new(), &Vec::new(), &dmp, 0, NO_INPUT).is_some());
    assert!(rollout.step(&Vec::new(), &Vec::new(), &dmp, 0, NO_INPUT).is_some());
    assert!(rollout.finished());
    let position = rollout.car.get_position();
    let reward = rollout.reward;
    assert!(rollout.step(&Vec::new(), &Vec::new(), &dmp, 0, NO_INPUT).is_none());
    assert_eq!(rollout.car.get_position(), position);
    assert_eq!(rollout.reward, reward);
    assert_eq!(rollout.ticks_done, 2);
}

#[test]
fn warm_up_ticks_collect_no_reward() {
    let dmp = shaper();
    let mut car = Car::new(SCALE, 0, 0);
    car.velocity = 0;
    let mut rollout = Rollout::new(car, PdController::new(0, 0), 5, 3);
    for _ in 0..3 {
        let report = rollout.step(&Vec::new(), &Vec::new(), &dmp, 0, NO_INPUT).unwrap();
        assert_eq!(report.reward, 0);
    }
    let report = rollout.step(&Vec::new(), &Vec::new(), &dmp, 0, NO_INPUT).unwrap();
    assert_eq!(report.reward, dmp.get_reward((SCALE, 0)));
    assert!(report.reward > 0);
    assert_eq!(rollout.reward, report.reward);
}

#[test]
fn goal_is_the_bearing_to_the_middle_of_the_first_pair() {
    let blue = vec![point(4, 3), point(9, 9)];
    let yellow = vec![point(6, 1)];
    assert_eq!(goal_direction(Car::new(0, 0, 0), &blue, &yellow), 380_506_377);
    assert_eq!(goal_direction(Car::new(from_int(5), from_int(2), from_int(1)), &blue, &yellow), 0);
    assert_eq!(goal_direction(Car::new(0, 0, 0), &vec![point(0, 5)], &vec![point(0, 3)]), 1_570_796_327);
}

#[test]
fn goal_without_a_pair_in_sight_is_the_heading() {
    let blue = vec![point(4, 3)];
    assert_eq!(goal_direction(Car::new(0, 0, from_int(7)), &blue, &Vec::new()), from_int(7));
    assert_eq!(goal_direction(Car::new(0, 0, from_int(7)), &Vec::new(), &blue), from_int(7));
    assert_eq!(goal_direction(Car::new(0, 0, -3), &Vec::new(), &Vec::new()), -3);
}
