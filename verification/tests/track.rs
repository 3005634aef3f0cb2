use circuit_sim::fixed::{from_int, Fixed, SCALE};
use circuit_sim::geometry::{farther_than, Point};
use circuit_sim::track::{
    bezier_curve, build_circuit, circle_samples, closed_spline, control_angle, draw_jitter,
    generate_circuit, generate_cone_lists, get_circle_samples, jitter_bound, place_markers,
    MIN_SPACING,
};
use circuit_sim::trig::{HALF_PI, PI};
use rand::rngs::StdRng;
use rand::SeedableRng;

fn point(x: Fixed, y: Fixed) -> Point {
    (x * SCALE, y * SCALE)
}

fn midpoint(a: Point, b: Point) -> Point {
    ((a.0 + b.0) / 2, (a.1 + b.1) / 2)
}

fn real_distance(a: Point, b: Point) -> f64 {
    let dx = (a.0 - b.0) as f64 / SCALE as f64;
    let dy = (a.1 - b.1) as f64 / SCALE as f64;
    (dx * dx + dy * dy).sqrt()
}

#[test]
fn control_angles_are_evenly_spaced() {
    assert_eq!(control_angle(0, 4), 0);
    assert_eq!(control_angle(1, 4), 1_570_796_326);
    assert_eq!(control_angle(2, 4), 3_141_592_653);
    assert_eq!(control_angle(3, 4), 4_712_388_980);
}

#[test]
fn control_points_without_perturbation_lie_on_the_ellipse() {
    let jitter = vec![(0, 0); 4];
    let (points, pitch) = circle_samples(point(1, 2), from_int(10), from_int(20), 4, &jitter);
    assert_eq!(
        points,
        vec![
            (11_000_000_000, 2_000_000_000),
            (1_000_000_010, 22_000_000_000),
            (-9_000_000_000, 2_000_000_020),
            (999_999_990, -18_000_000_000),
        ]
    );
    assert_eq!(pitch, vec![1_570_796_327, 3_141_592_653, 4_712_388_980, 6_283_185_307]);
}

#[test]
fn perturbation_moves_a_control_point() {
    let jitter = vec![(0, 0), (123, -456), (0, 0), (0, 0)];
    let (points, _) = circle_samples((0, 0), from_int(10), from_int(10), 4, &jitter);
    assert_eq!(points[1], (133, 9_999_999_544));
}

#[test]
fn perturbations_stay_within_a_fifth_of_the_radius() {
    assert_eq!(jitter_bound(from_int(40)), from_int(8));
    let mut rng = StdRng::seed_from_u64(11);
    let jitter = draw_jitter(&mut rng, from_int(40), from_int(10), 200);
    assert_eq!(jitter.len(), 200);
    for j in jitter.iter() {
        assert!(-from_int(8) <= j.0 && j.0 < from_int(8));
        assert!(-from_int(2) <= j.1 && j.1 < from_int(2));
    }
}

#[test]
fn radius_too_small_for_the_grid_is_not_perturbed() {
    let mut rng = StdRng::seed_from_u64(11);
    let jitter = draw_jitter(&mut rng, 4, from_int(10), 50);
    assert_eq!(jitter.len(), 50);
    for j in jitter.iter() {
        assert_eq!(j.0, 0);
        assert!(-from_int(2) <= j.1 && j.1 < from_int(2));
    }
    let (points, _) = get_circle_samples(&mut rng, (0, 0), 0, 0, 4);
    assert_eq!(points, vec![(0, 0); 4]);
    let circuit = generate_circuit(&mut rng, (0, 0), 3, 3, 2, 1);
    assert_eq!(circuit.centerline.len(), 2);
}

#[test]
fn perturbations_differ_from_point_to_point() {
    let mut rng = StdRng::seed_from_u64(11);
    let jitter = draw_jitter(&mut rng, from_int(40), from_int(40), 8);
    assert!(jitter.iter().any(|j| j.0 != jitter[0].0));
    assert!(jitter.iter().any(|j| j.1 != jitter[0].1));
    assert!(jitter.iter().any(|j| j.0 != -from_int(8)));
}

#[test]
fn sampled_control_points_stay_near_the_ellipse() {
    let mut rng = StdRng::seed_from_u64(3);
    let (points, pitch) = get_circle_samples(&mut rng, (0, 0), from_int(40), from_int(40), 8);
    let jitter = vec![(0, 0); 8];
    let (plain, plain_pitch) = circle_samples((0, 0), from_int(40), from_int(40), 8, &jitter);
    assert_eq!(pitch, plain_pitch);
    assert_eq!(points.len(), 8);
    for i in 0..8 {
        assert!((points[i].0 - plain[i].0).abs() <= from_int(8));
        assert!((points[i].1 - plain[i].1).abs() <= from_int(8));
    }
}

#[test]
fn straight_segment_has_evenly_spaced_samples() {
    let curve = bezier_curve(&(0, 0), 0, &point(30, 0), 0, 4);
    assert_eq!(curve, vec![(0, 0), (7_500_000_000, 0), (15_000_000_000, 0), (22_500_000_000, 0)]);
}

#[test]
fn three_samples_of_a_straight_segment_are_exact() {
    let curve = bezier_curve(&(0, 0), 0, &point(30, 0), 0, 3);
    assert_eq!(curve, vec![(0, 0), point(10, 0), point(20, 0)]);
}

#[test]
fn segment_without_samples_is_empty() {
    assert!(bezier_curve(&(0, 0), 0, &point(30, 0), 0, 0).is_empty());
}

#[test]
fn closed_spline_returns_to_the_first_point() {
    let points = vec![(0, 0), point(30, 0)];
    let pitch = vec![HALF_PI, PI + HALF_PI];
    let line = closed_spline(&points, &pitch, 3);
    assert_eq!(
        line,
        vec![
            (0, 0),
            (7_777_777_777, 6_666_666_666),
            (22_222_222_222, 6_666_666_666),
            (30_000_000_000, 0),
            (22_222_222_223, -6_666_666_666),
            (7_777_777_778, -6_666_666_666),
        ]
    );
}

#[test]
fn markers_along_a_straight_line() {
    let line: Vec<Point> = (0..20).map(|i| point(i, 0)).collect();
    let (blue, yellow) = place_markers(&line);
    assert_eq!(blue, vec![(10_000_000_000, 1_500_000_000), (15_000_000_000, 1_500_000_000)]);
    assert_eq!(yellow, vec![(10_000_000_000, -1_500_000_000), (15_000_000_000, -1_500_000_000)]);
}

#[test]
fn first_sample_far_from_the_origin_gets_no_markers() {
    let line: Vec<Point> = (0..40).map(|i| (10 * SCALE + i * SCALE / 2, 3 * SCALE)).collect();
    let (blue, yellow) = place_markers(&line);
    assert_eq!(blue.len(), 4);
    assert_eq!(yellow.len(), 4);
    assert_eq!(blue[0], (14_500_000_000, 4_500_000_000));
    assert_eq!(blue[1], (19_000_000_000, 4_500_000_000));
    assert_eq!(yellow[0], (14_500_000_000, 1_500_000_000));
    assert_eq!(yellow[1], (19_000_000_000, 1_500_000_000));
}

#[test]
fn sample_at_exactly_the_spacing_gets_no_markers() {
    let line = vec![point(5, 0), point(9, 0), (9 * SCALE + 1, 0)];
    let (blue, yellow) = place_markers(&line);
    assert_eq!(blue.len(), 1);
    assert_eq!(yellow.len(), 1);
    assert_eq!(blue[0].0, 9 * SCALE + 1);
}

#[test]
fn line_without_samples_has_no_markers() {
    let (blue, yellow) = place_markers(&Vec::new());
    assert!(blue.is_empty());
    assert!(yellow.is_empty());
}

#[test]
fn circuit_through_given_control_points() {
    let jitter = vec![(0, 0); 8];
    let (points, pitch) = circle_samples((0, 0), from_int(40), from_int(40), 8, &jitter);
    let circuit = build_circuit(&points, &pitch, 100);
    assert_eq!(circuit.centerline.len(), 800);
    assert_eq!(circuit.centerline[0], points[0]);
    assert_eq!(circuit.centerline[100], points[1]);
    assert_eq!(circuit.centerline[700], points[7]);
    assert_eq!(circuit.orange_cones.len(), 2);
    assert_eq!(circuit.orange_cones[0], (points[0].0 - 1_500_000_000, points[0].1));
    assert_eq!(circuit.orange_cones[1], (points[0].0 + 1_500_000_000, points[0].1));
    assert_eq!(circuit.blue_cones.len(), circuit.yellow_cones.len());
    let (blue, yellow) = place_markers(&circuit.centerline);
    assert_eq!(circuit.blue_cones, blue);
    assert_eq!(circuit.yellow_cones, yellow);
    assert!(circuit.blue_cones.len() > 40);
}

#[test]
fn same_seed_gives_the_same_circuit() {
    let first = generate_cone_lists(42);
    let second = generate_cone_lists(42);
    assert_eq!(first.centerline, second.centerline);
    assert_eq!(first.blue_cones, second.blue_cones);
    assert_eq!(first.yellow_cones, second.yellow_cones);
    assert_eq!(first.orange_cones, second.orange_cones);
}

#[test]
fn other_seed_gives_another_circuit() {
    let first = generate_cone_lists(1);
    let second = generate_cone_lists(2);
    assert_ne!(first.centerline, second.centerline);
}

#[test]
fn generated_circuit_has_paired_markers_and_a_start_gate() {
    let circuit = generate_cone_lists(7);
    assert_eq!(circuit.centerline.len(), 800);
    assert_eq!(circuit.orange_cones.len(), 2);
    assert_eq!(circuit.blue_cones.len(), circuit.yellow_cones.len());
    assert!(circuit.blue_cones.len() > 20);
    let first = circuit.centerline[0];
    assert_eq!(circuit.orange_cones[0], (first.0 - 1_500_000_000, first.1));
    assert_eq!(circuit.orange_cones[1], (first.0 + 1_500_000_000, first.1));
    for k in 0..circuit.blue_cones.len() {
        let across = real_distance(circuit.blue_cones[k], circuit.yellow_cones[k]);
        assert!((across - 3.0).abs() < 1e-6);
    }
}

#[test]
fn consecutive_marker_pairs_are_more_than_the_spacing_apart() {
    let circuit = generate_cone_lists(7);
    let centers: Vec<Point> = (0..circuit.blue_cones.len())
        .map(|k| midpoint(circuit.blue_cones[k], circuit.yellow_cones[k]))
        .collect();
    for k in 1..centers.len() {
        assert!(real_distance(centers[k - 1], centers[k]) > 4.0 - 1e-6);
    }
    let line: Vec<Point> = (0..60).map(|i| (i * SCALE / 3, 0)).collect();
    let (blue, _) = place_markers(&line);
    for k in 1..blue.len() {
        assert!(farther_than(blue[k - 1], blue[k], MIN_SPACING));
    }
}

#[test]
fn circuit_of_other_size_and_resolution() {
    let mut rng = StdRng::seed_from_u64(5);
    let circuit = generate_circuit(&mut rng, point(3, 4), from_int(30), from_int(20), 6, 50);
    assert_eq!(circuit.centerline.len(), 300);
    assert_eq!(circuit.blue_cones.len(), circuit.yellow_cones.len());
    assert_eq!(circuit.orange_cones.len(), 2);
}
