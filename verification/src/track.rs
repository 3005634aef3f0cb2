//! The circuit generator: control points on a perturbed ellipse, a closed
//! cubic spline through them, and paired boundary markers along the spline.

use crate::fixed::{fx_add, fx_div_int, fx_mul, fx_mul_int, fx_mul_ratio, fx_sub, Fixed};
use crate::geometry::{farther_than, offset, Point};
use crate::random::{draw_between, seeded_rng};
use crate::trig::{fx_atan2, fx_cos, fx_sin, HALF_PI, TWO_PI};
use rand::rngs::StdRng;
use vstd::prelude::*;

verus! {

/// The least distance between the centerline positions of two marker pairs.
pub const MIN_SPACING: Fixed = 4_000_000_000;

/// How far a marker stands to the side of the centerline.
pub const LATERAL_OFFSET: Fixed = 1_500_000_000;

/// How far a spline support point lies from its control point.
pub const SUPPORT_DISTANCE: Fixed = 10_000_000_000;

/// A closed circuit: the blue markers on one side and the yellow markers on
/// the other, pair by pair, the two orange markers of the start gate, and the
/// centerline they were placed along.
pub struct Circuit {
    pub blue_cones: Vec<Point>,
    pub yellow_cones: Vec<Point>,
    pub orange_cones: Vec<Point>,
    pub centerline: Vec<Point>,
}

/// The largest perturbation of a control point along an axis of radius `r`:
/// a fifth of the radius.
pub open spec fn spec_jitter_bound(r: Fixed) -> Fixed {
    fx_div_int(r, 5)
}

#[verifier::when_used_as_spec(spec_jitter_bound)]
pub fn jitter_bound(r: Fixed) -> (b: Fixed)
    ensures
        b == spec_jitter_bound(r),
{
    fx_div_int(r, 5)
}

/// `v` is a perturbation within `bound`: from `-bound` up to, but not
/// including, `bound`. Where the bound is not positive there is no
/// perturbation.
pub open spec fn within_jitter(v: Fixed, bound: Fixed) -> bool {
    if bound > 0 {
        -bound <= v < bound
    } else {
        v == 0
    }
}

/// `jitter` holds one perturbation for each of `n` control points, each
/// within a fifth of the radius of its axis.
pub open spec fn valid_jitter(jitter: Seq<Point>, r1: Fixed, r2: Fixed, n: nat) -> bool {
    &&& jitter.len() == n
    &&& forall|i: int|
        0 <= i < n ==> within_jitter((#[trigger] jitter[i]).0, jitter_bound(r1)) && within_jitter(
            jitter[i].1,
            jitter_bound(r2),
        )
}

/// The angle of control point `i` of `n`, evenly spaced round the full turn.
pub open spec fn spec_control_angle(i: u32, n: u32) -> Fixed {
    fx_div_int(fx_mul_int(TWO_PI, i as i64), n as i64)
}

#[verifier::when_used_as_spec(spec_control_angle)]
pub fn control_angle(i: u32, n: u32) -> (a: Fixed)
    ensures
        a == spec_control_angle(i, n),
{
    fx_div_int(fx_mul_int(TWO_PI, i as i64), n as i64)
}

/// Control point `i` of `n` on the ellipse of radii `r1` and `r2` round
/// `center`, moved by `jit`.
pub open spec fn spec_control_point(
    center: Point,
    r1: Fixed,
    r2: Fixed,
    n: u32,
    i: u32,
    jit: Point,
) -> Point {
    (
        fx_add(fx_add(fx_mul(r1, fx_cos(control_angle(i, n))), center.0), jit.0),
        fx_add(fx_add(fx_mul(r2, fx_sin(control_angle(i, n))), center.1), jit.1),
    )
}

/// The tangent direction at control point `i` of `n`: its angle plus a
/// quarter turn.
pub open spec fn spec_pitch(i: u32, n: u32) -> Fixed {
    fx_add(control_angle(i, n), HALF_PI)
}

pub open spec fn control_points(
    center: Point,
    r1: Fixed,
    r2: Fixed,
    n: u32,
    jitter: Seq<Point>,
) -> Seq<Point> {
    Seq::new(n as nat, |i: int| spec_control_point(center, r1, r2, n, i as u32, jitter[i]))
}

pub open spec fn pitches(n: u32) -> Seq<Fixed> {
    Seq::new(n as nat, |i: int| spec_pitch(i as u32, n))
}

/// The `n` control points for the given perturbations, with their tangent
/// directions.
pub fn circle_samples(center: Point, r1: Fixed, r2: Fixed, n: u32, jitter: &Vec<Point>) -> (out: (
    Vec<Point>,
    Vec<Fixed>,
))
    requires
        jitter.len() == n,
    ensures
        out.0@ == control_points(center, r1, r2, n, jitter@),
        out.1@ == pitches(n),
{
    let mut points: Vec<Point> = Vec::new();
    let mut pitch: Vec<Fixed> = Vec::new();
    let mut i: u32 = 0;
    while i < n
        invariant
            i <= n,
            jitter.len() == n,
            points.len() == i,
            pitch.len() == i,
            forall|k: int|
                0 <= k < i ==> points@[k] == spec_control_point(
                    center,
                    r1,
                    r2,
                    n,
                    k as u32,
                    jitter@[k],
                ),
            forall|k: int| 0 <= k < i ==> pitch@[k] == spec_pitch(k as u32, n),
        decreases n - i,
    {
        let rad: Fixed = control_angle(i, n);
        let jit: Point = jitter[i as usize];
        let x: Fixed = fx_add(fx_add(fx_mul(r1, fx_cos(rad)), center.0), jit.0);
        let y: Fixed = fx_add(fx_add(fx_mul(r2, fx_sin(rad)), center.1), jit.1);
        points.push((x, y));
        pitch.push(fx_add(rad, HALF_PI));
        i = i + 1;
    }
    assert(points@ =~= control_points(center, r1, r2, n, jitter@));
    assert(pitch@ =~= pitches(n));
    (points, pitch)
}

/// Draws one perturbation within `bound`; none where the bound is not
/// positive.
fn draw_within(rng: &mut StdRng, bound: Fixed) -> (v: Fixed)
    ensures
        within_jitter(v, bound),
{
    if bound > 0 {
        draw_between(rng, -bound, bound)
    } else {
        0
    }
}

/// Draws one perturbation for each of `n` control points.
pub fn draw_jitter(rng: &mut StdRng, r1: Fixed, r2: Fixed, n: u32) -> (jitter: Vec<Point>)
    ensures
        valid_jitter(jitter@, r1, r2, n as nat),
{
    let b1: Fixed = jitter_bound(r1);
    let b2: Fixed = jitter_bound(r2);
    let mut jitter: Vec<Point> = Vec::new();
    let mut i: u32 = 0;
    while i < n
        invariant
            i <= n,
            b1 == jitter_bound(r1),
            b2 == jitter_bound(r2),
            jitter.len() == i,
            forall|k: int|
                0 <= k < i ==> within_jitter((#[trigger] jitter@[k]).0, b1) && within_jitter(
                    jitter@[k].1,
                    b2,
                ),
        decreases n - i,
    {
        let jx: Fixed = draw_within(rng, b1);
        let jy: Fixed = draw_within(rng, b2);
        jitter.push((jx, jy));
        i = i + 1;
    }
    jitter
}

/// `n` control points evenly spaced in angle round an ellipse, each moved
/// along either axis by a random amount of up to a fifth of the radius, with
/// their tangent directions.
pub fn get_circle_samples(rng: &mut StdRng, center: Point, r1: Fixed, r2: Fixed, n: u32) -> (out: (
    Vec<Point>,
    Vec<Fixed>,
))
    ensures
        out.1@ == pitches(n),
        exists|jitter: Seq<Point>| #[trigger]
            valid_jitter(jitter, r1, r2, n as nat) && out.0@ == control_points(
                center,
                r1,
                r2,
                n,
                jitter,
            ),
{
    let jitter = draw_jitter(rng, r1, r2, n);
    let out = circle_samples(center, r1, r2, n, &jitter);
    assert(valid_jitter(jitter@, r1, r2, n as nat));
    out
}

/// One coordinate of the cubic Bezier curve from `s` to `e` with the support
/// coordinates `s1` and `e1`, at the parameter `t = i / n`:
/// `s + t (3 s1 - 3 s) + t^2 (3 s - 6 s1 + 3 e1) + t^3 (e - s + 3 s1 - 3 e1)`,
/// in nested form. The parameter is never rounded: each level is multiplied
/// by `i` and then divided by `n`.
pub open spec fn spec_cubic(s: Fixed, s1: Fixed, e1: Fixed, e: Fixed, i: i64, n: i64) -> Fixed {
    let c1 = fx_mul_int(fx_sub(s1, s), 3);
    let c2 = fx_mul_int(fx_add(fx_sub(s, fx_mul_int(s1, 2)), e1), 3);
    let c3 = fx_add(fx_sub(e, s), fx_mul_int(fx_sub(s1, e1), 3));
    fx_add(
        s,
        fx_mul_ratio(fx_add(c1, fx_mul_ratio(fx_add(c2, fx_mul_ratio(c3, i, n)), i, n)), i, n),
    )
}

#[verifier::when_used_as_spec(spec_cubic)]
pub fn cubic(s: Fixed, s1: Fixed, e1: Fixed, e: Fixed, i: i64, n: i64) -> (r: Fixed)
    ensures
        r == spec_cubic(s, s1, e1, e, i, n),
{
    let c1: Fixed = fx_mul_int(fx_sub(s1, s), 3);
    let c2: Fixed = fx_mul_int(fx_add(fx_sub(s, fx_mul_int(s1, 2)), e1), 3);
    let c3: Fixed = fx_add(fx_sub(e, s), fx_mul_int(fx_sub(s1, e1), 3));
    fx_add(
        s,
        fx_mul_ratio(fx_add(c1, fx_mul_ratio(fx_add(c2, fx_mul_ratio(c3, i, n)), i, n)), i, n),
    )
}

/// Sample `i` of `n` of the curve that leaves `s` in the direction `s_rad`
/// and arrives at `e` in the direction `e_rad`. The support points lie
/// `SUPPORT_DISTANCE` from `s` along its direction, and from `e` against
/// its direction.
pub open spec fn bezier_point(
    s: Point,
    s_rad: Fixed,
    e: Point,
    e_rad: Fixed,
    n: u32,
    i: int,
) -> Point {
    let s1 = offset(s, s_rad, SUPPORT_DISTANCE);
    let e1 = offset(e, e_rad, -10_000_000_000i64);
    (
        cubic(s.0, s1.0, e1.0, e.0, i as i64, n as i64),
        cubic(s.1, s1.1, e1.1, e.1, i as i64, n as i64),
    )
}

pub open spec fn bezier_seq(s: Point, s_rad: Fixed, e: Point, e_rad: Fixed, n: u32) -> Seq<Point> {
    Seq::new(n as nat, |i: int| bezier_point(s, s_rad, e, e_rad, n, i))
}

/// The `n` samples of one spline segment, at the parameters `0, 1/n, ..`;
/// the end point itself is not among them.
pub fn bezier_curve(s_point: &Point, s_rad: Fixed, e_point: &Point, e_rad: Fixed, n: u32) -> (points:
    Vec<Point>)
    ensures
        points@ == bezier_seq(*s_point, s_rad, *e_point, e_rad, n),
{
    let mut points: Vec<Point> = Vec::new();
    let s_support: Point = offset(*s_point, s_rad, SUPPORT_DISTANCE);
    let e_support: Point = offset(*e_point, e_rad, -SUPPORT_DISTANCE);
    let mut i: u32 = 0;
    while i < n
        invariant
            i <= n,
            points.len() == i,
            s_support == offset(*s_point, s_rad, SUPPORT_DISTANCE),
            e_support == offset(*e_point, e_rad, -10_000_000_000i64),
            forall|k: int|
                0 <= k < i ==> points@[k] == bezier_point(*s_point, s_rad, *e_point, e_rad, n, k),
        decreases n - i,
    {
        let x: Fixed = cubic(s_point.0, s_support.0, e_support.0, e_point.0, i as i64, n as i64);
        let y: Fixed = cubic(s_point.1, s_support.1, e_support.1, e_point.1, i as i64, n as i64);
        points.push((x, y));
        i = i + 1;
    }
    assert(points@ =~= bezier_seq(*s_point, s_rad, *e_point, e_rad, n));
    points
}

/// The control point after `k` on a closed loop of `n`.
pub open spec fn next_index(k: int, n: int) -> int {
    if k + 1 == n {
        0
    } else {
        k + 1
    }
}

/// The first `k` segments of the closed spline, one after the other.
pub open spec fn spline_upto(points: Seq<Point>, pitch: Seq<Fixed>, res: u32, k: int) -> Seq<Point>
    decreases k,
{
    if k <= 0 {
        Seq::empty()
    } else {
        spline_upto(points, pitch, res, k - 1) + bezier_seq(
            points[k - 1],
            pitch[k - 1],
            points[next_index(k - 1, points.len() as int)],
            pitch[next_index(k - 1, points.len() as int)],
            res,
        )
    }
}

/// The closed spline through all control points: one segment from each point
/// to the next, and one from the last back to the first.
pub open spec fn spec_closed_spline(points: Seq<Point>, pitch: Seq<Fixed>, res: u32) -> Seq<Point> {
    spline_upto(points, pitch, res, points.len() as int)
}

pub proof fn lemma_spline_len(points: Seq<Point>, pitch: Seq<Fixed>, res: u32, k: int)
    requires
        0 <= k,
    ensures
        spline_upto(points, pitch, res, k).len() == k * res,
    decreases k,
{
    if k > 0 {
        lemma_spline_len(points, pitch, res, k - 1);
        assert((k - 1) * res + res == k * res) by (nonlinear_arith);
    } else {
        assert(0 * res == 0) by (nonlinear_arith);
    }
}

/// The closed spline through the control points, `res` samples to a segment.
pub fn closed_spline(points: &Vec<Point>, pitch: &Vec<Fixed>, res: u32) -> (line: Vec<Point>)
    requires
        points.len() == pitch.len(),
    ensures
        line@ == spec_closed_spline(points@, pitch@, res),
        line.len() == points.len() * res,
{
    let n: usize = points.len();
    let mut line: Vec<Point> = Vec::new();
    let mut k: usize = 0;
    while k < n
        invariant
            k <= n,
            n == points.len(),
            n == pitch.len(),
            line@ == spline_upto(points@, pitch@, res, k as int),
        decreases n - k,
    {
        let next: usize = if k + 1 == n { 0 } else { k + 1 };
        let mut segment: Vec<Point> = bezier_curve(&points[k], pitch[k], &points[next], pitch[next], res);
        line.append(&mut segment);
        k = k + 1;
    }
    proof {
        lemma_spline_len(points@, pitch@, res, n as int);
    }
    line
}

/// The centerline positions of the marker pairs from sample `i` on, as
/// indices into `line`. `reference` is the last sample that was more than
/// `MIN_SPACING` from the one before it; a pair is placed at the next such
/// sample only when `armed`, which the first of them is not.
pub open spec fn walk_anchors(line: Seq<Point>, i: int, reference: Point, armed: bool) -> Seq<int>
    decreases line.len() - i,
{
    if i < 0 || i >= line.len() {
        Seq::empty()
    } else if farther_than(reference, line[i], MIN_SPACING) {
        if armed {
            seq![i] + walk_anchors(line, i + 1, line[i], true)
        } else {
            walk_anchors(line, i + 1, line[i], true)
        }
    } else {
        walk_anchors(line, i + 1, reference, armed)
    }
}

/// The centerline positions of all marker pairs. The walk starts with the
/// origin as its reference, and places nothing at the first sample that is
/// far enough from it.
pub open spec fn anchors(line: Seq<Point>) -> Seq<int> {
    walk_anchors(line, 0, (0i64, 0i64), false)
}

/// The direction from sample `i` to its yellow marker: a quarter turn from
/// the direction back to the sample before it.
pub open spec fn marker_heading(line: Seq<Point>, i: int) -> Fixed {
    let prev = if i > 0 {
        line[i - 1]
    } else {
        (0i64, 0i64)
    };
    fx_add(fx_atan2(fx_sub(prev.1, line[i].1), fx_sub(prev.0, line[i].0)), HALF_PI)
}

/// The yellow marker at sample `i`: `LATERAL_OFFSET` to the side.
pub open spec fn yellow_at(line: Seq<Point>, i: int) -> Point {
    offset(line[i], marker_heading(line, i), LATERAL_OFFSET)
}

/// The blue marker at sample `i`: straight across from the yellow one.
pub open spec fn blue_at(line: Seq<Point>, i: int) -> Point {
    offset(line[i], marker_heading(line, i), -1_500_000_000i64)
}

pub open spec fn blue_markers(line: Seq<Point>) -> Seq<Point> {
    anchors(line).map_values(|i: int| blue_at(line, i))
}

pub open spec fn yellow_markers(line: Seq<Point>) -> Seq<Point> {
    anchors(line).map_values(|i: int| yellow_at(line, i))
}

/// The blue and the yellow markers along a centerline: at every sample that
/// is more than `MIN_SPACING` from the last such sample, but for the first,
/// one marker `LATERAL_OFFSET` to either side of the direction of travel.
pub fn place_markers(line: &Vec<Point>) -> (out: (Vec<Point>, Vec<Point>))
    ensures
        out.0@ == blue_markers(line@),
        out.1@ == yellow_markers(line@),
        out.0.len() == out.1.len(),
{
    let mut blue: Vec<Point> = Vec::new();
    let mut yellow: Vec<Point> = Vec::new();
    let mut reference: Point = (0, 0);
    let mut armed: bool = false;
    let mut last_point: Point = (0, 0);
    let ghost mut placed: Seq<int> = Seq::empty();
    let mut i: usize = 0;
    assert(placed + walk_anchors(line@, 0, reference, armed) =~= anchors(line@));
    while i < line.len()
        invariant
            i <= line.len(),
            anchors(line@) == placed + walk_anchors(line@, i as int, reference, armed),
            blue@.len() == placed.len(),
            yellow@.len() == placed.len(),
            forall|k: int|
                0 <= k < placed.len() ==> blue@[k] == blue_at(line@, #[trigger] placed[k])
                    && yellow@[k] == yellow_at(line@, placed[k]),
            last_point == (if i > 0 {
                line@[i - 1]
            } else {
                (0i64, 0i64)
            }),
        decreases line.len() - i,
    {
        let point: Point = line[i];
        let ghost rest = walk_anchors(line@, i + 1, point, true);
        if farther_than(reference, point, MIN_SPACING) {
            if armed {
                let heading: Fixed = fx_add(
                    fx_atan2(fx_sub(last_point.1, point.1), fx_sub(last_point.0, point.0)),
                    HALF_PI,
                );
                yellow.push(offset(point, heading, LATERAL_OFFSET));
                blue.push(offset(point, heading, -LATERAL_OFFSET));
                proof {
                    assert(placed + (seq![i as int] + rest) =~= placed.push(i as int) + rest);
                    placed = placed.push(i as int);
                }
            }
            reference = point;
            armed = true;
        }
        last_point = point;
        i = i + 1;
    }
    assert(placed =~= anchors(line@));
    assert(blue@ =~= blue_markers(line@));
    assert(yellow@ =~= yellow_markers(line@));
    (blue, yellow)
}

/// The two markers of the start gate: `LATERAL_OFFSET` to either side of the
/// first centerline sample, along the x axis.
pub open spec fn start_gate(first: Point) -> Seq<Point> {
    seq![(fx_sub(first.0, LATERAL_OFFSET), first.1), (fx_add(first.0, LATERAL_OFFSET), first.1)]
}

/// `c` is the circuit through the given control points.
pub open spec fn is_circuit_of(c: Circuit, points: Seq<Point>, pitch: Seq<Fixed>, res: u32) -> bool {
    &&& c.centerline@ == spec_closed_spline(points, pitch, res)
    &&& c.centerline@.len() > 0
    &&& c.orange_cones@ == start_gate(c.centerline@[0])
    &&& c.blue_cones@ == blue_markers(c.centerline@)
    &&& c.yellow_cones@ == yellow_markers(c.centerline@)
}

/// The circuit through the given control points, each with its tangent
/// direction, with `res` centerline samples to a segment.
pub fn build_circuit(points: &Vec<Point>, pitch: &Vec<Fixed>, res: u32) -> (c: Circuit)
    requires
        points.len() == pitch.len(),
        points.len() >= 2,
        res >= 1,
    ensures
        is_circuit_of(c, points@, pitch@, res),
        c.blue_cones.len() == c.yellow_cones.len(),
        c.orange_cones.len() == 2,
        c.centerline.len() == points.len() * res,
{
    let centerline: Vec<Point> = closed_spline(points, pitch, res);
    assert(points.len() * res >= 1) by (nonlinear_arith)
        requires
            points.len() >= 2,
            res >= 1,
    ;
    let first: Point = centerline[0];
    let mut orange: Vec<Point> = Vec::new();
    orange.push((fx_sub(first.0, LATERAL_OFFSET), first.1));
    orange.push((fx_add(first.0, LATERAL_OFFSET), first.1));
    assert(orange@ =~= start_gate(first));
    let (blue, yellow) = place_markers(&centerline);
    Circuit { blue_cones: blue, yellow_cones: yellow, orange_cones: orange, centerline }
}

/// `c` is the circuit of `n` control points round the ellipse, moved by
/// `jitter`.
pub open spec fn generated_from(
    c: Circuit,
    center: Point,
    r1: Fixed,
    r2: Fixed,
    n: u32,
    res: u32,
    jitter: Seq<Point>,
) -> bool {
    &&& valid_jitter(jitter, r1, r2, n as nat)
    &&& is_circuit_of(c, control_points(center, r1, r2, n, jitter), pitches(n), res)
}

/// A circuit of `n` perturbed control points round the ellipse of radii `r1`
/// and `r2`. The perturbations are drawn from `rng`; the circuit is a
/// function of them.
pub fn generate_circuit(rng: &mut StdRng, center: Point, r1: Fixed, r2: Fixed, n: u32, res: u32) -> (c:
    Circuit)
    requires
        n >= 2,
        res >= 1,
    ensures
        exists|jitter: Seq<Point>| #[trigger] generated_from(c, center, r1, r2, n, res, jitter),
        c.blue_cones.len() == c.yellow_cones.len(),
        c.orange_cones.len() == 2,
        c.centerline.len() == n * res,
{
    let jitter = draw_jitter(rng, r1, r2, n);
    let (points, pitch) = circle_samples(center, r1, r2, n, &jitter);
    let c = build_circuit(&points, &pitch, res);
    assert(generated_from(c, center, r1, r2, n, res, jitter@));
    c
}

/// The circuit for `seed`: eight control points round a circle of radius 40
/// at the origin, a hundred centerline samples to a segment.
pub fn generate_cone_lists(seed: u64) -> (c: Circuit)
    ensures
        exists|jitter: Seq<Point>| #[trigger]
            generated_from(c, (0i64, 0i64), 40_000_000_000i64, 40_000_000_000i64, 8, 100, jitter),
        c.blue_cones.len() == c.yellow_cones.len(),
        c.orange_cones.len() == 2,
        c.centerline.len() == 800,
{
    let mut rng = seeded_rng(seed);
    generate_circuit(&mut rng, (0, 0), 40_000_000_000, 40_000_000_000, 8, 100)
}

/// Sample `a` of the centerline comes before sample `b` and is more than
/// `MIN_SPACING` from it.
pub open spec fn spaced(line: Seq<Point>, a: int, b: int) -> bool {
    a < b && farther_than(line[a], line[b], MIN_SPACING)
}

proof fn lemma_walk_spacing(line: Seq<Point>, i: int, reference: Point, armed: bool)
    requires
        0 <= i <= line.len(),
    ensures
        forall|k: int|
            0 <= k < walk_anchors(line, i, reference, armed).len() ==> i <= #[trigger] walk_anchors(
                line,
                i,
                reference,
                armed,
            )[k] < line.len(),
        forall|k: int|
            0 <= k < walk_anchors(line, i, reference, armed).len() - 1 ==> #[trigger] spaced(
                line,
                walk_anchors(line, i, reference, armed)[k],
                walk_anchors(line, i, reference, armed)[k + 1],
            ),
        armed && walk_anchors(line, i, reference, armed).len() > 0 ==> farther_than(
            reference,
            line[walk_anchors(line, i, reference, armed)[0]],
            MIN_SPACING,
        ),
    decreases line.len() - i,
{
    let w = walk_anchors(line, i, reference, armed);
    if i < line.len() {
        if farther_than(reference, line[i], MIN_SPACING) {
            let rest = walk_anchors(line, i + 1, line[i], true);
            lemma_walk_spacing(line, i + 1, line[i], true);
            if armed {
                assert(w =~= seq![i] + rest);
                assert forall|k: int| 0 <= k < w.len() - 1 implies #[trigger] spaced(
                    line,
                    w[k],
                    w[k + 1],
                ) by {
                    if k == 0 {
                        assert(w[0] == i);
                        assert(w[1] == rest[0]);
                        assert(i + 1 <= rest[0]);
                    } else {
                        assert(w[k] == rest[k - 1] && w[k + 1] == rest[k]);
                        assert(spaced(line, rest[k - 1], rest[k - 1 + 1]));
                    }
                }
                assert forall|k: int| 0 <= k < w.len() implies i <= #[trigger] w[k] < line.len() by {
                    if k > 0 {
                        assert(w[k] == rest[k - 1]);
                        assert(i + 1 <= rest[k - 1] < line.len());
                    }
                }
            } else {
                assert(w =~= rest);
                assert forall|k: int| 0 <= k < w.len() implies i <= #[trigger] w[k] < line.len() by {
                    assert(i + 1 <= rest[k] < line.len());
                }
                assert forall|k: int| 0 <= k < w.len() - 1 implies #[trigger] spaced(
                    line,
                    w[k],
                    w[k + 1],
                ) by {
                    assert(spaced(line, rest[k], rest[k + 1]));
                }
            }
        } else {
            let rest = walk_anchors(line, i + 1, reference, armed);
            lemma_walk_spacing(line, i + 1, reference, armed);
            assert(w =~= rest);
            assert forall|k: int| 0 <= k < w.len() implies i <= #[trigger] w[k] < line.len() by {
                assert(i + 1 <= rest[k] < line.len());
            }
            assert forall|k: int| 0 <= k < w.len() - 1 implies #[trigger] spaced(
                line,
                w[k],
                w[k + 1],
            ) by {
                assert(spaced(line, rest[k], rest[k + 1]));
            }
        }
    } else {
        assert(w =~= Seq::<int>::empty());
    }
}

/// The centerline positions of two consecutive marker pairs are more than
/// `MIN_SPACING` apart, and the later pair stands at the later sample.
pub proof fn lemma_marker_spacing(line: Seq<Point>, k: int)
    requires
        0 <= k < anchors(line).len() - 1,
    ensures
        0 <= anchors(line)[k] < anchors(line)[k + 1] < line.len(),
        farther_than(line[anchors(line)[k]], line[anchors(line)[k + 1]], MIN_SPACING),
{
    lemma_walk_spacing(line, 0, (0i64, 0i64), false);
    assert(spaced(line, anchors(line)[k], anchors(line)[k + 1]));
}

/// The blue and the yellow markers pair up: there are as many of one as of
/// the other, and the markers of a pair stand at the same centerline sample.
pub proof fn lemma_markers_pair_up(line: Seq<Point>, k: int)
    requires
        0 <= k < anchors(line).len(),
    ensures
        blue_markers(line).len() == yellow_markers(line).len(),
        blue_markers(line)[k] == blue_at(line, anchors(line)[k]),
        yellow_markers(line)[k] == yellow_at(line, anchors(line)[k]),
{
}

/// The circuit is a function of the perturbations: two circuits through the
/// same control points have the same centerline and the same markers, in
/// the same order.
pub proof fn lemma_circuit_is_determined(
    first: Circuit,
    second: Circuit,
    points: Seq<Point>,
    pitch: Seq<Fixed>,
    res: u32,
)
    requires
        is_circuit_of(first, points, pitch, res),
        is_circuit_of(second, points, pitch, res),
    ensures
        first.centerline@ == second.centerline@,
        first.blue_cones@ == second.blue_cones@,
        first.yellow_cones@ == second.yellow_cones@,
        first.orange_cones@ == second.orange_cones@,
{
}

} // verus!
