use circuit_sim::dmp::{
    base_function, midpoint, waypoint_reward, PdController, WeightError, DMP,
};
use circuit_sim::fixed::{from_int, ratio, Fixed, SCALE};
use circuit_sim::geometry::Point;

fn point(x: Fixed, y: Fixed) -> Point {
    (x * SCALE, y * SCALE)
}

fn as_float(x: i128) -> f64 {
    x as f64 / SCALE as f64
}

#[test]
fn midpoint_rounds_toward_zero() {
    assert_eq!(midpoint(1, 4), 2);
    assert_eq!(midpoint(-1, -4), -2);
    assert_eq!(midpoint(i64::MAX, i64::MAX), i64::MAX);
    assert_eq!(midpoint(i64::MIN, i64::MAX), 0);
}

#[test]
fn new_shaper_has_zero_weights() {
    let dmp = DMP::new(40, &Vec::new(), &Vec::new());
    assert_eq!(dmp.get_weights(), &vec![0; 40]);
}

#[test]
fn waypoints_pair_markers_by_index() {
    let yellow = vec![point(0, 0), point(2, 0)];
    let blue = vec![point(0, 2), point(2, 2), point(9, 9)];
    let dmp = DMP::new(3, &yellow, &blue);
    assert_eq!(dmp.get_reward(point(0, 1)), 668_333_333);
    assert_eq!(dmp.get_reward(point(9, 9)), 0);
}

#[test]
fn reward_of_one_waypoint() {
    let w = (SCALE, 0, from_int(100));
    assert_eq!(waypoint_reward((0, 0), w), 333_333_333);
    assert_eq!(waypoint_reward((SCALE, 0), w), 500_000_000);
    assert_eq!(waypoint_reward((0, 0), (3 * SCALE, 0, from_int(105))), 95_454_545);
}

#[test]
fn waypoint_at_exactly_the_radius_gives_nothing() {
    assert_eq!(waypoint_reward((0, 0), (4 * SCALE, 0, from_int(100))), 0);
    assert!(waypoint_reward((0, 0), (4 * SCALE - 1, 0, from_int(100))) > 0);
}

#[test]
fn reward_does_not_depend_on_earlier_calls() {
    let yellow = vec![point(0, 0), point(2, 0)];
    let blue = vec![point(0, 2), point(2, 2)];
    let dmp = DMP::new(3, &yellow, &blue);
    let first = dmp.get_reward(point(0, 1));
    let _ = dmp.get_reward(point(50, 50));
    let _ = dmp.get_reward(point(1, 1));
    assert_eq!(dmp.get_reward(point(0, 1)), first);
}

#[test]
fn set_weights_of_the_right_length() {
    let mut dmp = DMP::new(3, &Vec::new(), &Vec::new());
    assert_eq!(dmp.set_weights(vec![SCALE, 2 * SCALE, 3 * SCALE]), Ok(()));
    assert_eq!(dmp.get_weights(), &vec![SCALE, 2 * SCALE, 3 * SCALE]);
}

#[test]
fn set_weights_of_the_wrong_length_changes_nothing() {
    let mut dmp = DMP::new(3, &Vec::new(), &Vec::new());
    assert_eq!(dmp.set_weights(vec![SCALE, 2 * SCALE, 3 * SCALE]), Ok(()));
    assert_eq!(
        dmp.set_weights(vec![7, 8]),
        Err(WeightError::LengthMismatch { expected: 3, given: 2 })
    );
    assert_eq!(dmp.get_weights(), &vec![SCALE, 2 * SCALE, 3 * SCALE]);
    assert_eq!(
        dmp.set_weights(vec![7, 8, 9, 10]),
        Err(WeightError::LengthMismatch { expected: 3, given: 4 })
    );
    assert_eq!(dmp.get_weights(), &vec![SCALE, 2 * SCALE, 3 * SCALE]);
}

#[test]
fn basis_function_values() {
    assert_eq!(base_function(1, 0, SCALE), 367_879_441);
    assert_eq!(base_function(2, SCALE / 2, SCALE / 2), SCALE);
    assert_eq!(base_function(40, 999_000_000, ratio(1, 40)), 0);
}

#[test]
fn trajectory_has_a_thousand_samples() {
    for n in [0, 1, 3, 40] {
        let mut dmp = DMP::new(n, &Vec::new(), &Vec::new());
        assert_eq!(dmp.generate_trajectory(SCALE, 0).len(), 1000);
        let weights: Vec<Fixed> = (0..n as i64).map(|i| (i - 3) * SCALE).collect();
        assert_eq!(dmp.set_weights(weights), Ok(()));
        assert_eq!(dmp.generate_trajectory(from_int(-7), from_int(1000)).len(), 1000);
        assert_eq!(dmp.generate_trajectory(i64::MAX, i64::MIN).len(), 1000);
    }
}

#[test]
fn trajectory_without_basis_functions_is_zero() {
    let dmp = DMP::new(0, &Vec::new(), &Vec::new());
    assert_eq!(dmp.generate_trajectory(SCALE, 0), vec![0; 1000]);
}

#[test]
fn trajectory_of_one_basis_function() {
    let mut dmp = DMP::new(1, &Vec::new(), &Vec::new());
    assert_eq!(dmp.set_weights(vec![2 * SCALE]), Ok(()));
    let y = dmp.generate_trajectory(SCALE, 0);
    assert_eq!(y[0], 0);
    assert_eq!(y[1], 2_000_000);
    assert_eq!(y[500], 1_000_000_000);
    assert_eq!(y[999], 1_998_000_000);
}

#[test]
fn trajectory_of_three_basis_functions() {
    let mut dmp = DMP::new(3, &Vec::new(), &Vec::new());
    assert_eq!(dmp.set_weights(vec![SCALE, 2 * SCALE, 3 * SCALE]), Ok(()));
    let y = dmp.generate_trajectory(2 * SCALE, SCALE / 2);
    assert_eq!(y[0], 0);
    assert_eq!(y[250], 571_193_970);
    assert_eq!(y[500], 1_392_285_921);
    assert_eq!(y[999], 3_901_009_495);
    let x: f64 = 0.25;
    let mut plain = 0.0;
    let mut weighted = 0.0;
    for i in 1..=3 {
        let c = i as f64 / 3.0;
        let phi = (-(x - c) * (x - c) * 3.0 / c).exp();
        plain += phi;
        weighted += phi * i as f64;
    }
    assert!((as_float(y[250]) - weighted / plain * x * 1.5).abs() < 1e-6);
}

#[test]
fn trajectory_with_zero_weights_is_zero() {
    let dmp = DMP::new(40, &Vec::new(), &Vec::new());
    assert_eq!(dmp.generate_trajectory(from_int(3), from_int(-2)), vec![0; 1000]);
}

#[test]
fn controller_is_proportional_and_derivative() {
    let mut controller = PdController::new(5 * SCALE, 1_000_000);
    assert_eq!(controller.last_error, 0);
    assert_eq!(controller.compute(SCALE, 400_000_000), 3_000_600_000);
    assert_eq!(controller.last_error, 600_000_000);
    assert_eq!(controller.compute(SCALE, 500_000_000), 2_499_900_000);
    assert_eq!(controller.last_error, 500_000_000);
}

#[test]
fn controller_output_is_not_clamped() {
    let mut controller = PdController::new(5 * SCALE, 0);
    assert_eq!(controller.compute(from_int(10), 0), 50_000_000_000);
    assert_eq!(controller.compute(from_int(-10), 0), -50_000_000_000);
}

#[test]
fn controller_output_is_exact_beyond_the_range_of_a_fixed_point_number() {
    let million: Fixed = 1_000_000 * SCALE;
    let mut controller = PdController::new(million, million);
    assert_eq!(controller.compute(million, -million), 4_000_000_000_000_000_000_000);
    assert_eq!(controller.last_error, 2 * million);
    assert_eq!(controller.compute(-million, million), -6_000_000_000_000_000_000_000);
    let mut largest = PdController::new(i64::MAX, i64::MIN);
    let command = largest.compute(i64::MAX, i64::MIN);
    assert_eq!(command, -18_446_744_074);
    assert_eq!(largest.last_error, i64::MAX);
}

#[test]
fn carried_reward_adds_the_small_reward_of_the_call_before() {
    let yellow = vec![point(0, 0), point(2, 0)];
    let blue = vec![point(0, 2), point(2, 2)];
    let mut dmp = DMP::new(3, &yellow, &blue);
    assert_eq!(dmp.get_reward_carried(point(0, 1)), 668_333_333);
    assert_eq!(dmp.get_reward_carried(point(50, 50)), 0);
    assert_eq!(dmp.get_reward_carried(point(0, 1)), 668_333_333);
    assert_eq!(dmp.get_reward_carried(point(0, 1)), 668_333_333);
    assert_eq!(dmp.get_reward(point(0, 1)), 668_333_333);
}

#[test]
fn trajectory_turns_its_sign_when_goal_and_state_change_places() {
    let million: Fixed = 1_000_000 * SCALE;
    let mut dmp = DMP::new(1, &Vec::new(), &Vec::new());
    assert_eq!(dmp.set_weights(vec![million]), Ok(()));
    let there = dmp.generate_trajectory(million, -million);
    let back = dmp.generate_trajectory(-million, million);
    assert_eq!(there[999], 1_998_000_000_000_000_000_000);
    assert_eq!(back[999], -1_998_000_000_000_000_000_000);
    for i in 0..1000 {
        assert_eq!(back[i], -there[i]);
    }
    let mut dmp = DMP::new(3, &Vec::new(), &Vec::new());
    assert_eq!(dmp.set_weights(vec![million, -million, million / 2]), Ok(()));
    let there = dmp.generate_trajectory(-million, million);
    let back = dmp.generate_trajectory(million, -million);
    assert_eq!(there[500], -62_093_723_772_188_000_000);
    for i in 0..1000 {
        assert_eq!(back[i], -there[i]);
    }
}

#[test]
fn trajectory_between_equal_goal_and_state_is_zero() {
    let mut dmp = DMP::new(3, &Vec::new(), &Vec::new());
    assert_eq!(dmp.set_weights(vec![7 * SCALE, -2 * SCALE, i64::MAX]), Ok(()));
    assert_eq!(dmp.generate_trajectory(from_int(5), from_int(5)), vec![0; 1000]);
    assert_eq!(dmp.generate_trajectory(i64::MIN, i64::MIN), vec![0; 1000]);
}

#[test]
fn trajectory_depends_on_the_difference_of_goal_and_state() {
    let mut dmp = DMP::new(3, &Vec::new(), &Vec::new());
    assert_eq!(dmp.set_weights(vec![SCALE, 2 * SCALE, 3 * SCALE]), Ok(()));
    let plain = dmp.generate_trajectory(from_int(3), from_int(1));
    assert_eq!(dmp.generate_trajectory(from_int(-40), from_int(-42)), plain);
    assert_eq!(dmp.generate_trajectory(from_int(2), 0), plain);
}

#[test]
fn trajectory_of_the_largest_inputs_does_not_overflow() {
    let mut dmp = DMP::new(2, &Vec::new(), &Vec::new());
    assert_eq!(dmp.set_weights(vec![i64::MAX, i64::MAX]), Ok(()));
    let y = dmp.generate_trajectory(i64::MAX, i64::MIN);
    assert_eq!(y.len(), 1000);
    assert_eq!(y[999], 169_971_042_277_008_762_450_306_204_737);
}

#[test]
fn basis_functions_lie_between_zero_and_one() {
    for n in [1, 2, 40] {
        let mut x: Fixed = 0;
        while x < SCALE {
            for k in 1..=n {
                let v = base_function(n, x, ratio(k as i64, n as i64));
                assert!(0 <= v && v <= SCALE);
            }
            x += 9_876_543;
        }
    }
}
