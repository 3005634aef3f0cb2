//! The vehicle: a rear-axle bicycle model, and a sensor limited in range and
//! angle.

use crate::fixed::{
    fx_abs, fx_add, fx_div, fx_div_int, fx_mul, fx_mul_int, fx_mul_ratio, fx_sub, hypot, magnitude,
    trunc_div, Fixed, SCALE,
};
use crate::geometry::{
    dist_sq, get_eukled_distance, lemma_offset_length, offset, within, Point,
};
use crate::trig::{
    fx_atan2, fx_cos, fx_sin, fx_tan, lemma_atan2_range, lemma_unit_circle, wrap_angle, HALF_PI, PI,
    TWO_PI,
};
use vstd::prelude::*;

verus! {

/// The steering input up to which (inclusive) the vehicle moves straight.
pub const STEERING_EPSILON: Fixed = 10_000_000;

/// The number of steps along each edge of the field of view.
pub const VIEW_EDGE_STEPS: u32 = 20;

/// A position with a heading in radians. The heading is never wrapped.
#[derive(Clone, Copy, PartialEq, Eq, Structural, Debug)]
pub struct Pose {
    pub x: Fixed,
    pub y: Fixed,
    pub heading: Fixed,
}

#[derive(Clone, Copy, Debug)]
pub struct Car {
    pub pos_x: Fixed,
    pub pos_y: Fixed,
    /// The heading in radians.
    pub direction: Fixed,
    /// The full opening angle of the sensor, in degrees.
    pub view_angle: Fixed,
    pub view_range: Fixed,
    pub velocity: Fixed,
    /// The steering input, between -1 and 1.
    pub steering_angle: Fixed,
    /// The wheel deflection at a steering input of 1, in radians.
    pub max_angle: Fixed,
    /// The distance between the left and the right wheel.
    pub b: Fixed,
    /// The distance between the front and the rear axle.
    pub a: Fixed,
    pub traveled_distance: Fixed,
}

/// The pose one tick later on a straight line.
pub open spec fn straight_step(pose: Pose, velocity: Fixed) -> Pose {
    Pose {
        x: fx_add(pose.x, fx_mul(fx_cos(pose.heading), velocity)),
        y: fx_add(pose.y, fx_mul(fx_sin(pose.heading), velocity)),
        heading: pose.heading,
    }
}

impl Car {
    pub open spec fn pose(self) -> Pose {
        Pose { x: self.pos_x, y: self.pos_y, heading: self.direction }
    }

    pub open spec fn position(self) -> Point {
        (self.pos_x, self.pos_y)
    }

    /// The turning radius for a steering input:
    /// `a * tan(steering * max_angle + pi / 2)`.
    pub open spec fn spec_turn_radius(self, steering: Fixed) -> Fixed {
        fx_mul(fx_tan(fx_add(fx_mul(steering, self.max_angle), HALF_PI)), self.a)
    }

    /// The distance from the center of the turn to the middle of the axle:
    /// the turning radius plus half the track width.
    pub open spec fn spec_turn_arm(self, steering: Fixed) -> Fixed {
        fx_add(self.spec_turn_radius(steering), fx_div_int(self.b, 2))
    }

    /// The angle turned in one tick: the velocity over the turn arm.
    pub open spec fn spec_turn_angle(self, velocity: Fixed, steering: Fixed) -> Fixed {
        fx_div(velocity, self.spec_turn_arm(steering))
    }

    /// The chord travelled in one tick: `2 * arm * tan(angle / 2)`.
    pub open spec fn spec_chord_length(self, velocity: Fixed, steering: Fixed) -> Fixed {
        fx_mul_int(
            fx_mul(
                fx_tan(fx_div_int(self.spec_turn_angle(velocity, steering), 2)),
                self.spec_turn_arm(steering),
            ),
            2,
        )
    }

    /// The pose one tick later on a curve: the heading grows by the turn
    /// angle, and the position advances by the chord along the new heading.
    pub open spec fn turn_step(self, pose: Pose, velocity: Fixed, steering: Fixed) -> Pose {
        let beta = fx_add(pose.heading, self.spec_turn_angle(velocity, steering));
        let len = self.spec_chord_length(velocity, steering);
        Pose {
            x: fx_add(pose.x, fx_mul(fx_cos(beta), len)),
            y: fx_add(pose.y, fx_mul(fx_sin(beta), len)),
            heading: beta,
        }
    }

    /// The pose one tick later.
    pub open spec fn spec_integrate(self, pose: Pose, velocity: Fixed, steering: Fixed) -> Pose {
        if fx_abs(steering) > STEERING_EPSILON {
            self.turn_step(pose, velocity, steering)
        } else {
            straight_step(pose, velocity)
        }
    }

    /// Half the opening angle of the sensor, in radians.
    pub open spec fn spec_half_view(self) -> Fixed {
        fx_div_int(fx_div_int(fx_mul(self.view_angle, PI), 180), 2)
    }

    /// The lower end of the window of bearings that the sensor accepts: the
    /// heading, taken into the first full turn, less half the opening angle,
    /// plus a half turn.
    pub open spec fn window_min(self) -> Fixed {
        fx_add(fx_sub(wrap_angle(self.direction), self.spec_half_view()), PI)
    }

    /// The upper end of the window of bearings that the sensor accepts.
    pub open spec fn window_max(self) -> Fixed {
        fx_add(fx_add(wrap_angle(self.direction), self.spec_half_view()), PI)
    }

    /// How far the bearing `radiant`, lowered by a half turn and raised by
    /// `k` full turns, lies off the heading.
    pub open spec fn off_heading(self, radiant: Fixed, k: int) -> int {
        radiant - PI - self.direction + k * 6_283_185_307
    }

    /// Whether the bearing `radiant`, or the same bearing one turn lower or
    /// higher, lies in the window.
    pub open spec fn bearing_in_window(self, radiant: Fixed) -> bool {
        let lo = self.window_min();
        let hi = self.window_max();
        let lower = fx_sub(radiant, TWO_PI);
        let upper = fx_add(radiant, TWO_PI);
        (lo <= radiant && radiant <= hi) || (lo <= lower && lower <= hi) || (lo <= upper && upper
            <= hi)
    }

    /// Whether a marker in the direction `(-x_diff, -y_diff)` lies within the
    /// opening angle.
    pub open spec fn spec_is_cone_in_angle(self, y_diff: Fixed, x_diff: Fixed) -> bool {
        self.bearing_in_window(fx_add(fx_atan2(y_diff, x_diff), TWO_PI))
    }

    /// Whether the sensor sees a marker: it is at most `view_range` away and
    /// within the opening angle.
    pub open spec fn spec_is_cone_in_range(self, cone: Point) -> bool {
        within(self.position(), cone, self.view_range) && self.spec_is_cone_in_angle(
            fx_sub(self.pos_y, cone.1),
            fx_sub(self.pos_x, cone.0),
        )
    }

    /// The markers of `cones` that the sensor sees, in their order.
    pub open spec fn visible(self, cones: Seq<Point>) -> Seq<Point> {
        cones.filter(|c: Point| self.spec_is_cone_in_range(c))
    }

    /// Point `j` of the outline of the field of view. In step `i = j / 3`
    /// it is, by `j % 3`: the point `i` twentieths of the range along the
    /// lower edge; the same along the upper edge; the point on the far arc
    /// `i` twentieths of the opening angle from the lower edge. The
    /// twentieths are exact fractions, rounded once.
    pub open spec fn view_edge_point(self, j: int) -> Point {
        let i = (j / 3) as i64;
        let min_rad = fx_sub(self.direction, self.spec_half_view());
        let max_rad = fx_add(self.direction, self.spec_half_view());
        let d = fx_mul_ratio(self.view_range, i, 20);
        let g = fx_mul_ratio(fx_div_int(fx_mul(self.view_angle, PI), 180), i, 20);
        if j % 3 == 0 {
            offset(self.position(), min_rad, d)
        } else if j % 3 == 1 {
            offset(self.position(), max_rad, d)
        } else {
            offset(self.position(), fx_add(min_rad, g), self.view_range)
        }
    }

    /// A vehicle at rest at the given pose: a sensor of 160 degrees and range
    /// 20, a largest wheel deflection of an eighth of a half turn, and axle
    /// and track widths of 2.
    pub fn new(x: Fixed, y: Fixed, direction: Fixed) -> (car: Car)
        ensures
            car == (Car {
                pos_x: x,
                pos_y: y,
                direction: direction,
                view_angle: 160_000_000_000,
                view_range: 20_000_000_000,
                velocity: 0,
                steering_angle: 0,
                max_angle: 392_699_082,
                b: 2_000_000_000,
                a: 2_000_000_000,
                traveled_distance: 0,
            }),
    {
        Car {
            pos_x: x,
            pos_y: y,
            direction: direction,
            view_angle: 160_000_000_000,
            view_range: 20_000_000_000,
            velocity: 0,
            steering_angle: 0,
            max_angle: 392_699_082,
            b: 2_000_000_000,
            a: 2_000_000_000,
            traveled_distance: 0,
        }
    }

    /// The turning radius for a steering input.
    #[verifier::when_used_as_spec(spec_turn_radius)]
    pub fn turn_radius(self, steering: Fixed) -> (r: Fixed)
        ensures
            r == self.spec_turn_radius(steering),
    {
        fx_mul(fx_tan(fx_add(fx_mul(steering, self.max_angle), HALF_PI)), self.a)
    }

    /// The angle turned in one tick.
    #[verifier::when_used_as_spec(spec_turn_angle)]
    pub fn turn_angle(self, velocity: Fixed, steering: Fixed) -> (alpha: Fixed)
        ensures
            alpha == self.spec_turn_angle(velocity, steering),
    {
        let arm: Fixed = fx_add(self.turn_radius(steering), fx_div_int(self.b, 2));
        fx_div(velocity, arm)
    }

    /// The chord travelled in one tick.
    #[verifier::when_used_as_spec(spec_chord_length)]
    pub fn chord_length(self, velocity: Fixed, steering: Fixed) -> (len: Fixed)
        ensures
            len == self.spec_chord_length(velocity, steering),
    {
        let arm: Fixed = fx_add(self.turn_radius(steering), fx_div_int(self.b, 2));
        let alpha: Fixed = fx_div(velocity, arm);
        fx_mul_int(fx_mul(fx_tan(fx_div_int(alpha, 2)), arm), 2)
    }

    /// The pose one tick after `pose` at the given velocity and steering
    /// input: a straight step where the steering input is at most
    /// `STEERING_EPSILON` in size, else a step along a circle.
    #[verifier::when_used_as_spec(spec_integrate)]
    pub fn integrate(self, pose: Pose, velocity: Fixed, steering: Fixed) -> (next: Pose)
        ensures
            next == self.spec_integrate(pose, velocity, steering),
            fx_abs(steering) <= STEERING_EPSILON ==> next == straight_step(pose, velocity),
            fx_abs(steering) > STEERING_EPSILON ==> next == self.turn_step(pose, velocity, steering),
    {
        if fx_abs(steering) > STEERING_EPSILON {
            let alpha: Fixed = self.turn_angle(velocity, steering);
            let len: Fixed = self.chord_length(velocity, steering);
            let beta: Fixed = fx_add(pose.heading, alpha);
            Pose {
                x: fx_add(pose.x, fx_mul(fx_cos(beta), len)),
                y: fx_add(pose.y, fx_mul(fx_sin(beta), len)),
                heading: beta,
            }
        } else {
            Pose {
                x: fx_add(pose.x, fx_mul(fx_cos(pose.heading), velocity)),
                y: fx_add(pose.y, fx_mul(fx_sin(pose.heading), velocity)),
                heading: pose.heading,
            }
        }
    }

    /// Moves the vehicle by one tick and adds the length of the step to the
    /// distance travelled.
    pub fn update_car_position(&mut self)
        ensures
            final(self).pose() == old(self).spec_integrate(
                old(self).pose(),
                old(self).velocity,
                old(self).steering_angle,
            ),
            final(self).traveled_distance == fx_add(
                old(self).traveled_distance,
                hypot(
                    fx_sub(old(self).pos_x, final(self).pos_x),
                    fx_sub(old(self).pos_y, final(self).pos_y),
                ),
            ),
            final(self).traveled_distance >= old(self).traveled_distance,
            final(self).view_angle == old(self).view_angle,
            final(self).view_range == old(self).view_range,
            final(self).velocity == old(self).velocity,
            final(self).steering_angle == old(self).steering_angle,
            final(self).max_angle == old(self).max_angle,
            final(self).a == old(self).a,
            final(self).b == old(self).b,
    {
        let old_x: Fixed = self.pos_x;
        let old_y: Fixed = self.pos_y;
        let start = Pose { x: self.pos_x, y: self.pos_y, heading: self.direction };
        let next: Pose = self.integrate(start, self.velocity, self.steering_angle);
        self.pos_x = next.x;
        self.pos_y = next.y;
        self.direction = next.heading;
        let step: Fixed = get_eukled_distance((old_x, old_y), (self.pos_x, self.pos_y));
        self.traveled_distance = fx_add(self.traveled_distance, step);
    }

    pub fn get_position(self) -> (p: (Fixed, Fixed, Fixed))
        ensures
            p == (self.pos_x, self.pos_y, self.direction),
    {
        (self.pos_x, self.pos_y, self.direction)
    }

    /// Half the opening angle of the sensor, in radians.
    #[verifier::when_used_as_spec(spec_half_view)]
    pub fn half_view(self) -> (h: Fixed)
        ensures
            h == self.spec_half_view(),
    {
        fx_div_int(fx_div_int(fx_mul(self.view_angle, PI), 180), 2)
    }

    /// Whether a marker in the direction `(-x_diff, -y_diff)` lies within the
    /// opening angle of the sensor.
    #[verifier::when_used_as_spec(spec_is_cone_in_angle)]
    pub fn is_cone_in_angle(self, y_diff: Fixed, x_diff: Fixed) -> (seen: bool)
        ensures
            seen == self.spec_is_cone_in_angle(y_diff, x_diff),
    {
        let radiant: Fixed = fx_add(fx_atan2(y_diff, x_diff), TWO_PI);
        let car_direction: Fixed = wrap_angle(self.direction);
        let min_rad: Fixed = fx_add(fx_sub(car_direction, self.half_view()), PI);
        let max_rad: Fixed = fx_add(fx_add(car_direction, self.half_view()), PI);
        let lower: Fixed = fx_sub(radiant, TWO_PI);
        let upper: Fixed = fx_add(radiant, TWO_PI);
        (min_rad <= radiant && radiant <= max_rad) || (min_rad <= lower && lower <= max_rad) || (
        min_rad <= upper && upper <= max_rad)
    }

    /// Whether the sensor sees a marker. A marker at exactly `view_range` is
    /// in range; the distance test is exact.
    #[verifier::when_used_as_spec(spec_is_cone_in_range)]
    pub fn is_cone_in_range(self, cone: Point) -> (seen: bool)
        ensures
            seen == self.spec_is_cone_in_range(cone),
            seen ==> within(self.position(), cone, self.view_range),
    {
        if within((self.pos_x, self.pos_y), cone, self.view_range) {
            self.is_cone_in_angle(fx_sub(self.pos_y, cone.1), fx_sub(self.pos_x, cone.0))
        } else {
            false
        }
    }

    /// The markers of `cones` that the sensor sees, in their order.
    pub fn visible_cones(self, cones: &Vec<Point>) -> (detected: Vec<Point>)
        ensures
            detected@ == self.visible(cones@),
    {
        let mut detected: Vec<Point> = Vec::new();
        let ghost pred = |c: Point| self.spec_is_cone_in_range(c);
        let mut i: usize = 0;
        proof {
            reveal(Seq::filter);
            assert(cones@.take(0) =~= Seq::<Point>::empty());
        }
        while i < cones.len()
            invariant
                i <= cones.len(),
                pred == (|c: Point| self.spec_is_cone_in_range(c)),
                detected@ == cones@.take(i as int).filter(pred),
            decreases cones.len() - i,
        {
            let cone: Point = cones[i];
            proof {
                reveal(Seq::filter);
                assert(cones@.take(i + 1).drop_last() =~= cones@.take(i as int));
                assert(cones@.take(i + 1).last() == cone);
            }
            if self.is_cone_in_range(cone) {
                detected.push(cone);
            }
            i = i + 1;
        }
        assert(cones@.take(cones.len() as int) =~= cones@);
        detected
    }

    /// The blue and the yellow markers that the sensor sees, each in its
    /// order and with its coordinates unchanged.
    pub fn scan_cones(self, blue_cones: &Vec<Point>, yellow_cones: &Vec<Point>) -> (out: (
        Vec<Point>,
        Vec<Point>,
    ))
        ensures
            out.0@ == self.visible(blue_cones@),
            out.1@ == self.visible(yellow_cones@),
    {
        let detected_blue: Vec<Point> = self.visible_cones(blue_cones);
        let detected_yellow: Vec<Point> = self.visible_cones(yellow_cones);
        (detected_blue, detected_yellow)
    }

    /// The outline of the field of view as sixty points: for each of twenty
    /// steps one point on the lower edge, one on the upper edge and one on
    /// the far arc.
    pub fn get_view_edge(self) -> (points: Vec<Point>)
        ensures
            points@ == Seq::new(60, |j: int| self.view_edge_point(j)),
    {
        let mut points: Vec<Point> = Vec::new();
        let pos: Point = (self.pos_x, self.pos_y);
        let min_rad: Fixed = fx_sub(self.direction, self.half_view());
        let max_rad: Fixed = fx_add(self.direction, self.half_view());
        let opening: Fixed = fx_div_int(fx_mul(self.view_angle, PI), 180);
        let mut i: u32 = 0;
        while i < VIEW_EDGE_STEPS
            invariant
                i <= VIEW_EDGE_STEPS,
                VIEW_EDGE_STEPS == 20,
                points.len() == 3 * i,
                pos == self.position(),
                min_rad == fx_sub(self.direction, self.spec_half_view()),
                max_rad == fx_add(self.direction, self.spec_half_view()),
                opening == fx_div_int(fx_mul(self.view_angle, PI), 180),
                forall|j: int| 0 <= j < 3 * i ==> points@[j] == self.view_edge_point(j),
            decreases VIEW_EDGE_STEPS - i,
        {
            let d: Fixed = fx_mul_ratio(self.view_range, i as i64, 20);
            let g: Fixed = fx_mul_ratio(opening, i as i64, 20);
            points.push(offset(pos, min_rad, d));
            points.push(offset(pos, max_rad, d));
            points.push(offset(pos, fx_add(min_rad, g), self.view_range));
            i = i + 1;
        }
        assert(points@ =~= Seq::new(60, |j: int| self.view_edge_point(j)));
        points
    }

    pub fn get_traveled_distance(self) -> (d: Fixed)
        ensures
            d == self.traveled_distance,
    {
        self.traveled_distance
    }
}

/// The range of the sensor is inclusive and exact: a marker whose squared
/// distance is at most the squared range is in range, and is seen if it lies
/// within the opening angle; a marker any farther is not seen.
pub proof fn lemma_range_is_inclusive(car: Car, cone: Point)
    ensures
        dist_sq(car.position(), cone) > car.view_range * car.view_range
            ==> !car.spec_is_cone_in_range(cone),
        car.view_range >= 0 && dist_sq(car.position(), cone) <= car.view_range * car.view_range
            ==> car.spec_is_cone_in_range(cone) == car.spec_is_cone_in_angle(
            fx_sub(car.pos_y, cone.1),
            fx_sub(car.pos_x, cone.0),
        ),
{
}

/// Half the opening angle of a sensor of at most 360 degrees is at most a
/// half turn.
proof fn lemma_half_view_bounds(car: Car)
    requires
        0 <= car.view_angle <= 360_000_000_000,
    ensures
        0 <= car.spec_half_view() <= 3_141_592_654,
{
    let raw = car.view_angle * PI;
    assert(0 <= raw <= 1_130_973_355_440_000_000_000) by (nonlinear_arith)
        requires
            raw == car.view_angle * PI,
            0 <= car.view_angle <= 360_000_000_000,
            PI == 3_141_592_654,
    ;
    let product = trunc_div(raw, 1_000_000_000);
    assert(0 <= product <= 1_130_973_355_440);
    assert(fx_mul(car.view_angle, PI) == product);
}

/// The sensor accepts a bearing exactly when the bearing lies within half
/// the opening angle of the heading, whole turns apart: the three bearings
/// that the sensor tries cover every window. The bearing is taken as the
/// sensor computes it, between a half turn and three half turns. This holds
/// for every heading and an opening angle of at most 360 degrees.
pub proof fn lemma_window_is_angular(car: Car, radiant: Fixed)
    requires
        0 <= car.view_angle <= 360_000_000_000,
        TWO_PI - PI <= radiant <= TWO_PI + PI,
    ensures
        car.bearing_in_window(radiant) <==> exists|k: int|
            -car.spec_half_view() <= #[trigger] car.off_heading(radiant, k) <= car.spec_half_view(),
{
    lemma_half_view_bounds(car);
    let half = car.spec_half_view();
    assert(TWO_PI == 6_283_185_307 && PI == 3_141_592_654);
    let whole = car.direction as int / 6_283_185_307;
    let rest = car.direction as int % 6_283_185_307;
    assert(wrap_angle(car.direction) == rest);
    let lo = car.window_min();
    let hi = car.window_max();
    assert(lo == rest - half + PI);
    assert(hi == rest + half + PI);
    if car.bearing_in_window(radiant) {
        let j: int = if lo <= radiant && radiant <= hi {
            0
        } else if lo <= radiant - 6_283_185_307 && radiant - 6_283_185_307 <= hi {
            -1
        } else {
            1
        };
        assert(lo <= radiant + j * 6_283_185_307 <= hi);
        assert(-half <= car.off_heading(radiant, j + whole) <= half);
    }
    if exists|k: int| -half <= #[trigger] car.off_heading(radiant, k) <= half {
        let k = choose|k: int| -half <= #[trigger] car.off_heading(radiant, k) <= half;
        let j = k - whole;
        assert(lo <= radiant + j * 6_283_185_307 <= hi);
        assert(-1 <= j <= 1);
    }
}

/// What the sensor sees does not change when the heading and the bearing of
/// a marker turn by the same angle: the turned vehicle accepts the turned
/// bearing exactly when the vehicle accepts the bearing. The bearings are
/// taken as the sensor computes them, between a half turn and three half
/// turns, so the turned bearing may differ from the sum by whole turns. This
/// holds for every heading and an opening angle of at most 360 degrees.
pub proof fn lemma_window_rotation(
    car: Car,
    turned: Car,
    rotation: int,
    radiant: Fixed,
    turned_radiant: Fixed,
    turns: int,
)
    requires
        0 <= car.view_angle <= 360_000_000_000,
        turned.direction == car.direction + rotation,
        turned == (Car { direction: turned.direction, ..car }),
        TWO_PI - PI <= radiant <= TWO_PI + PI,
        TWO_PI - PI <= turned_radiant <= TWO_PI + PI,
        turned_radiant == radiant + rotation + turns * TWO_PI,
    ensures
        turned.bearing_in_window(turned_radiant) == car.bearing_in_window(radiant),
{
    lemma_window_is_angular(car, radiant);
    lemma_window_is_angular(turned, turned_radiant);
    assert(TWO_PI == 6_283_185_307);
    let half = car.spec_half_view();
    assert(turned.spec_half_view() == half);
    if car.bearing_in_window(radiant) {
        let k = choose|k: int| -half <= #[trigger] car.off_heading(radiant, k) <= half;
        assert(turned.off_heading(turned_radiant, k - turns) == car.off_heading(radiant, k));
    }
    if turned.bearing_in_window(turned_radiant) {
        let k = choose|k: int| -half <= #[trigger] turned.off_heading(turned_radiant, k) <= half;
        assert(car.off_heading(radiant, k + turns) == turned.off_heading(turned_radiant, k));
    }
}

/// What the sensor sees does not change when the vehicle and the world turn
/// together: where the bearing of a marker from the turned vehicle is the
/// bearing from the vehicle plus the rotation, up to whole turns, the
/// turned vehicle has the marker within its opening angle exactly when the
/// vehicle has. In particular a heading that is whole turns higher or lower
/// sees the same of unmoved markers. This holds for every heading and an
/// opening angle of at most 360 degrees.
pub proof fn lemma_view_rotation(
    car: Car,
    turned: Car,
    rotation: int,
    diff: Point,
    turned_diff: Point,
    turns: int,
)
    requires
        0 <= car.view_angle <= 360_000_000_000,
        turned.direction == car.direction + rotation,
        turned == (Car { direction: turned.direction, ..car }),
        fx_atan2(turned_diff.1, turned_diff.0) == fx_atan2(diff.1, diff.0) + rotation + turns
            * TWO_PI,
    ensures
        turned.spec_is_cone_in_angle(turned_diff.1, turned_diff.0) == car.spec_is_cone_in_angle(
            diff.1,
            diff.0,
        ),
{
    lemma_atan2_range(diff.1, diff.0);
    lemma_atan2_range(turned_diff.1, turned_diff.0);
    lemma_window_rotation(
        car,
        turned,
        rotation,
        fx_add(fx_atan2(diff.1, diff.0), TWO_PI),
        fx_add(fx_atan2(turned_diff.1, turned_diff.0), TWO_PI),
        turns,
    );
}

/// The sensor sees a marker exactly when the marker is at most `view_range`
/// away and its bearing lies within half the opening angle of the heading,
/// whole turns apart. This holds for every heading and an opening angle of
/// at most 360 degrees.
pub proof fn lemma_sight_is_range_and_angle(car: Car, cone: Point)
    requires
        0 <= car.view_angle <= 360_000_000_000,
    ensures
        car.spec_is_cone_in_range(cone) <==> (car.view_range >= 0 && dist_sq(car.position(), cone)
            <= car.view_range * car.view_range && exists|k: int|
            -car.spec_half_view() <= #[trigger] car.off_heading(
                fx_add(fx_atan2(fx_sub(car.pos_y, cone.1), fx_sub(car.pos_x, cone.0)), TWO_PI),
                k,
            ) <= car.spec_half_view()),
{
    lemma_atan2_range(fx_sub(car.pos_y, cone.1), fx_sub(car.pos_x, cone.0));
    lemma_window_is_angular(
        car,
        fx_add(fx_atan2(fx_sub(car.pos_y, cone.1), fx_sub(car.pos_x, cone.0)), TWO_PI),
    );
}

/// The length of the step of one tick as the formulas give it: the chord on
/// a curve, the velocity on a straight line.
pub open spec fn step_size(car: Car, velocity: Fixed, steering: Fixed) -> Fixed {
    if fx_abs(steering) > STEERING_EPSILON {
        car.spec_chord_length(velocity, steering)
    } else {
        velocity
    }
}

/// The heading along which the step of one tick goes.
pub open spec fn step_heading(car: Car, pose: Pose, velocity: Fixed, steering: Fixed) -> Fixed {
    if fx_abs(steering) > STEERING_EPSILON {
        fx_add(pose.heading, car.spec_turn_angle(velocity, steering))
    } else {
        pose.heading
    }
}

/// The distance from a point to the point moved by `(dx, dy)` is the length
/// of `(dx, dy)`, unless the move leaves the range of the numbers.
proof fn lemma_moved_distance(x: Fixed, y: Fixed, dx: Fixed, dy: Fixed)
    requires
        i64::MIN <= x + dx <= i64::MAX,
        i64::MIN <= y + dy <= i64::MAX,
        dx > i64::MIN,
        dy > i64::MIN,
    ensures
        hypot(fx_sub(x, fx_add(x, dx)), fx_sub(y, fx_add(y, dy))) == hypot(dx, dy),
{
    assert((-dx) * (-dx) == dx * dx && (-dy) * (-dy) == dy * dy) by (nonlinear_arith);
}

/// The Euclidean length of the step of one tick is the length that the
/// formulas give, the chord on a curve, up to rounding: it lies between
/// `|len| * (1 - 3e-9) - 3e-9` and `|len| * (1 + 2e-9)`. This holds where
/// the step stays within the range of the numbers.
pub proof fn lemma_step_length(car: Car, pose: Pose, velocity: Fixed, steering: Fixed)
    requires
        -4_000_000_000_000_000_000 <= step_size(car, velocity, steering)
            <= 4_000_000_000_000_000_000,
        i64::MIN <= pose.x + fx_mul(
            fx_cos(step_heading(car, pose, velocity, steering)),
            step_size(car, velocity, steering),
        ) <= i64::MAX,
        i64::MIN <= pose.y + fx_mul(
            fx_sin(step_heading(car, pose, velocity, steering)),
            step_size(car, velocity, steering),
        ) <= i64::MAX,
    ensures
        get_eukled_distance((pose.x, pose.y), (
            car.spec_integrate(pose, velocity, steering).x,
            car.spec_integrate(pose, velocity, steering).y,
        )) * 1_000_000_000 <= 1_000_000_002 * magnitude(step_size(car, velocity, steering) as int),
        999_999_997 * magnitude(step_size(car, velocity, steering) as int) < (get_eukled_distance(
            (pose.x, pose.y),
            (
                car.spec_integrate(pose, velocity, steering).x,
                car.spec_integrate(pose, velocity, steering).y,
            ),
        ) + 3) * 1_000_000_000,
{
    let len = step_size(car, velocity, steering);
    let beta = step_heading(car, pose, velocity, steering);
    let dx = fx_mul(fx_cos(beta), len);
    let dy = fx_mul(fx_sin(beta), len);
    lemma_offset_length(beta, len);
    lemma_unit_circle(beta);
    lemma_part_within(fx_cos(beta), len);
    lemma_part_within(fx_sin(beta), len);
    lemma_moved_distance(pose.x, pose.y, dx, dy);
}

/// A product with a factor of at most 1 in size is at most as large as the
/// other factor.
proof fn lemma_part_within(c: Fixed, d: Fixed)
    requires
        -SCALE <= c <= SCALE,
    ensures
        -magnitude(d as int) <= fx_mul(c, d) <= magnitude(d as int),
{
    let n = c * d;
    let m = magnitude(d as int);
    assert(-(m * 1_000_000_000) <= n <= m * 1_000_000_000) by (nonlinear_arith)
        requires
            n == c * d,
            -1_000_000_000 <= c <= 1_000_000_000,
            m == d || m == -d,
            m >= 0,
    ;
}

/// Every point of the outline of the field of view lies within the range of
/// the sensor, up to rounding: no farther from the vehicle than
/// `view_range * (1 + 2e-9)`. This holds where the outline stays within the
/// range of the numbers.
pub proof fn lemma_view_edge_in_range(car: Car, j: int)
    requires
        0 <= j < 60,
        0 <= car.view_range <= 4_000_000_000_000_000_000,
        -4_000_000_000_000_000_000 <= car.pos_x <= 4_000_000_000_000_000_000,
        -4_000_000_000_000_000_000 <= car.pos_y <= 4_000_000_000_000_000_000,
    ensures
        get_eukled_distance(car.position(), car.view_edge_point(j)) * 1_000_000_000
            <= 1_000_000_002 * car.view_range,
{
    let i = (j / 3) as i64;
    let min_rad = fx_sub(car.direction, car.spec_half_view());
    let max_rad = fx_add(car.direction, car.spec_half_view());
    let d = fx_mul_ratio(car.view_range, i, 20);
    let g = fx_mul_ratio(fx_div_int(fx_mul(car.view_angle, PI), 180), i, 20);
    let whole = car.view_range * i;
    assert(0 <= whole <= car.view_range * 19) by (nonlinear_arith)
        requires
            whole == car.view_range * i,
            0 <= i <= 19,
            car.view_range >= 0,
    ;
    assert(0 <= d <= car.view_range);
    let angle = if j % 3 == 0 {
        min_rad
    } else if j % 3 == 1 {
        max_rad
    } else {
        fx_add(min_rad, g)
    };
    let dist = if j % 3 == 2 {
        car.view_range
    } else {
        d
    };
    assert(car.view_edge_point(j) == offset(car.position(), angle, dist));
    lemma_offset_length(angle, dist);
    lemma_unit_circle(angle);
    lemma_part_within(fx_cos(angle), dist);
    lemma_part_within(fx_sin(angle), dist);
    lemma_moved_distance(
        car.pos_x,
        car.pos_y,
        fx_mul(fx_cos(angle), dist),
        fx_mul(fx_sin(angle), dist),
    );
}

} // verus!
