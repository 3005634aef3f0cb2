//! Points in the plane, exact distance tests and polar offsets.

use crate::fixed::{
    floor_sqrt, fx_add, fx_mul, fx_sub, hypot, lemma_floor_sqrt_exists, lemma_hypot_nonnegative,
    lemma_square_order, magnitude, Fixed,
};
use crate::trig::{fx_cos, fx_sin, lemma_unit_circle};
use vstd::prelude::*;

verus! {

/// A position `(x, y)`.
pub type Point = (Fixed, Fixed);

/// The squared distance of two points, in squared grid steps. It is exact.
pub open spec fn dist_sq(p: Point, q: Point) -> int {
    (p.0 - q.0) * (p.0 - q.0) + (p.1 - q.1) * (p.1 - q.1)
}

/// `p` and `q` are at most `d` apart.
pub open spec fn spec_within(p: Point, q: Point, d: Fixed) -> bool {
    d >= 0 && dist_sq(p, q) <= d * d
}

/// `p` and `q` are less than `d` apart.
pub open spec fn spec_closer_than(p: Point, q: Point, d: Fixed) -> bool {
    d > 0 && dist_sq(p, q) < d * d
}

/// `p` and `q` are more than `d` apart.
pub open spec fn spec_farther_than(p: Point, q: Point, d: Fixed) -> bool {
    !spec_within(p, q, d)
}

/// The point at distance `dist` from `p` in the direction `angle`.
pub open spec fn spec_offset(p: Point, angle: Fixed, dist: Fixed) -> Point {
    (fx_add(p.0, fx_mul(fx_cos(angle), dist)), fx_add(p.1, fx_mul(fx_sin(angle), dist)))
}

/// The squared distance of `p` and `q` where neither coordinate differs by
/// more than `bound`; `None` only where the points are more than `bound` apart.
fn dist_sq_up_to(p: Point, q: Point, bound: u64) -> (r: Option<u128>)
    requires
        bound <= i64::MAX,
    ensures
        r matches Some(s) ==> s == dist_sq(p, q),
        r is None ==> dist_sq(p, q) > bound * bound,
{
    let dx: i128 = p.0 as i128 - q.0 as i128;
    let dy: i128 = p.1 as i128 - q.1 as i128;
    let ax: u128 = if dx < 0 { (-dx) as u128 } else { dx as u128 };
    let ay: u128 = if dy < 0 { (-dy) as u128 } else { dy as u128 };
    let b: u128 = bound as u128;
    if ax > b || ay > b {
        assert(dx * dx + dy * dy > b * b) by (nonlinear_arith)
            requires
                0 <= b,
                ax == dx || ax == -dx,
                ay == dy || ay == -dy,
                ax > b || ay > b,
        ;
        None
    } else {
        assert(ax * ax == dx * dx && ay * ay == dy * dy && ax * ax
            <= 0x3fff_ffff_ffff_ffff_ffff_ffff_ffff_ffff && ay * ay
            <= 0x3fff_ffff_ffff_ffff_ffff_ffff_ffff_ffff) by (nonlinear_arith)
            requires
                ax == dx || ax == -dx,
                ay == dy || ay == -dy,
                0 <= ax <= 0x7fff_ffff_ffff_ffff,
                0 <= ay <= 0x7fff_ffff_ffff_ffff,
        ;
        Some(ax * ax + ay * ay)
    }
}

fn square(d: u64) -> (r: u128)
    ensures
        r == d * d,
{
    assert(d * d <= 0xffff_ffff_ffff_ffff_ffff_ffff_ffff_ffff) by (nonlinear_arith)
        requires
            0 <= d <= 0xffff_ffff_ffff_ffff,
    ;
    (d as u128) * (d as u128)
}

/// Whether `p` and `q` are at most `d` apart. The test is exact.
#[verifier::when_used_as_spec(spec_within)]
pub fn within(p: Point, q: Point, d: Fixed) -> (b: bool)
    ensures
        b == spec_within(p, q, d),
{
    if d < 0 {
        return false;
    }
    match dist_sq_up_to(p, q, d as u64) {
        Some(s) => s <= square(d as u64),
        None => false,
    }
}

/// Whether `p` and `q` are less than `d` apart. The test is exact.
#[verifier::when_used_as_spec(spec_closer_than)]
pub fn closer_than(p: Point, q: Point, d: Fixed) -> (b: bool)
    ensures
        b == spec_closer_than(p, q, d),
{
    if d <= 0 {
        return false;
    }
    match dist_sq_up_to(p, q, d as u64) {
        Some(s) => s < square(d as u64),
        None => false,
    }
}

/// Whether `p` and `q` are more than `d` apart. The test is exact.
#[verifier::when_used_as_spec(spec_farther_than)]
pub fn farther_than(p: Point, q: Point, d: Fixed) -> (b: bool)
    ensures
        b == spec_farther_than(p, q, d),
{
    !within(p, q, d)
}

/// The distance of two points, rounded down to the grid.
pub open spec fn spec_distance(from: Point, to: Point) -> Fixed {
    hypot(fx_sub(from.0, to.0), fx_sub(from.1, to.1))
}

/// The distance of two points, rounded down to the grid.
#[verifier::when_used_as_spec(spec_distance)]
pub fn get_eukled_distance(from: Point, to: Point) -> (d: Fixed)
    ensures
        d == spec_distance(from, to),
        d >= 0,
{
    proof {
        lemma_hypot_nonnegative(fx_sub(from.0, to.0), fx_sub(from.1, to.1));
    }
    hypot(fx_sub(from.0, to.0), fx_sub(from.1, to.1))
}

/// The point at distance `dist` from `p` in the direction `angle`.
#[verifier::when_used_as_spec(spec_offset)]
pub fn offset(p: Point, angle: Fixed, dist: Fixed) -> (r: Point)
    ensures
        r == spec_offset(p, angle, dist),
{
    (fx_add(p.0, fx_mul(fx_cos(angle), dist)), fx_add(p.1, fx_mul(fx_sin(angle), dist)))
}

/// Rounding a quotient toward zero leaves less than the divisor behind.
proof fn lemma_scaled_part(c: int, d: int, a: int)
    requires
        0 <= c <= 1_000_000_000,
        0 <= d,
        a == (c * d) / 1_000_000_000,
    ensures
        0 <= a <= d,
        a * 1_000_000_000 <= c * d < (a + 1) * 1_000_000_000,
{
    assert(0 <= c * d <= 1_000_000_000 * d) by (nonlinear_arith)
        requires
            0 <= c <= 1_000_000_000,
            0 <= d,
    ;
}

/// The length of a vector whose parts are `c * d` and `s * d`, each
/// rounded toward zero, where `c` and `s` make a vector of length 1 up to
/// rounding.
proof fn lemma_scaled_length(c: int, s: int, d: int, a: int, b: int, r: int)
    requires
        0 <= c <= 1_000_000_000,
        0 <= s <= 1_000_000_000,
        999_999_997 * 999_999_997 <= c * c + s * s <= 1_000_000_002 * 1_000_000_002,
        0 <= d,
        a == (c * d) / 1_000_000_000,
        b == (s * d) / 1_000_000_000,
        r >= 0,
        r * r <= a * a + b * b < (r + 1) * (r + 1),
    ensures
        r * 1_000_000_000 <= 1_000_000_002 * d,
        999_999_997 * d < (r + 3) * 1_000_000_000,
{
    let k: int = 1_000_000_000;
    lemma_scaled_part(c, d, a);
    lemma_scaled_part(s, d, b);
    lemma_square_order(a * k, c * d);
    lemma_square_order(b * k, s * d);
    lemma_square_order(c * d + 1, (a + 1) * k);
    lemma_square_order(s * d + 1, (b + 1) * k);
    let unit = c * c + s * s;
    let big = unit * (d * d);
    assert((c * d) * (c * d) + (s * d) * (s * d) == big) by (nonlinear_arith)
        requires
            big == (c * c + s * s) * (d * d),
    ;
    assert((a * k) * (a * k) + (b * k) * (b * k) == (a * a + b * b) * (k * k)) by (nonlinear_arith);
    assert((r * k) * (r * k) <= (a * a + b * b) * (k * k)) by (nonlinear_arith)
        requires
            r * r <= a * a + b * b,
            k == 1_000_000_000,
    ;
    assert(big <= (1_000_000_002 * d) * (1_000_000_002 * d)) by (nonlinear_arith)
        requires
            big == unit * (d * d),
            unit <= 1_000_000_002 * 1_000_000_002,
    ;
    if r * k > 1_000_000_002 * d {
        lemma_square_order(1_000_000_002 * d + 1, r * k);
        assert((1_000_000_002 * d + 1) * (1_000_000_002 * d + 1) > (1_000_000_002 * d) * (
        1_000_000_002 * d)) by (nonlinear_arith)
            requires
                d >= 0,
        ;
    }
    assert(big >= (999_999_997 * d) * (999_999_997 * d)) by (nonlinear_arith)
        requires
            big == unit * (d * d),
            unit >= 999_999_997 * 999_999_997,
    ;
    assert(a <= r) by {
        if a > r {
            lemma_square_order(r + 1, a);
            assert(b * b >= 0) by (nonlinear_arith);
        }
    }
    assert(b <= r) by {
        if b > r {
            lemma_square_order(r + 1, b);
            assert(a * a >= 0) by (nonlinear_arith);
        }
    }
    assert((c * d + 1) * (c * d + 1) + (s * d + 1) * (s * d + 1) > big) by (nonlinear_arith)
        requires
            (c * d) * (c * d) + (s * d) * (s * d) == big,
            c * d >= 0,
            s * d >= 0,
    ;
    assert(((a + 1) * k) * ((a + 1) * k) + ((b + 1) * k) * ((b + 1) * k) == ((a + 1) * (a + 1) + (b
        + 1) * (b + 1)) * (k * k)) by (nonlinear_arith);
    assert((a + 1) * (a + 1) + (b + 1) * (b + 1) <= (r + 3) * (r + 3)) by (nonlinear_arith)
        requires
            a * a + b * b < (r + 1) * (r + 1),
            0 <= a <= r,
            0 <= b <= r,
    ;
    assert(((r + 3) * k) * ((r + 3) * k) > (999_999_997 * d) * (999_999_997 * d)) by (nonlinear_arith)
        requires
            ((a + 1) * (a + 1) + (b + 1) * (b + 1)) * (k * k) > (999_999_997 * d) * (999_999_997
                * d),
            (a + 1) * (a + 1) + (b + 1) * (b + 1) <= (r + 3) * (r + 3),
            k == 1_000_000_000,
    ;
    if 999_999_997 * d >= (r + 3) * k {
        lemma_square_order((r + 3) * k, 999_999_997 * d);
    }
}

/// The step from a point to its offset is as long as the offset asks, up to
/// rounding: the parts of the step, `cos(angle) * dist` and
/// `sin(angle) * dist`, make a vector whose length lies between
/// `|dist| * (1 - 3e-9) - 3e-9` and `|dist| * (1 + 2e-9)`.
pub proof fn lemma_offset_length(angle: Fixed, dist: Fixed)
    requires
        -4_000_000_000_000_000_000 <= dist <= 4_000_000_000_000_000_000,
    ensures
        hypot(fx_mul(fx_cos(angle), dist), fx_mul(fx_sin(angle), dist)) * 1_000_000_000
            <= 1_000_000_002 * magnitude(dist as int),
        999_999_997 * magnitude(dist as int) < (hypot(
            fx_mul(fx_cos(angle), dist),
            fx_mul(fx_sin(angle), dist),
        ) + 3) * 1_000_000_000,
{
    lemma_unit_circle(angle);
    let c0 = fx_cos(angle);
    let s0 = fx_sin(angle);
    let c = magnitude(c0 as int);
    let s = magnitude(s0 as int);
    let d = magnitude(dist as int);
    assert(c * c == c0 * c0 && s * s == s0 * s0) by (nonlinear_arith)
        requires
            c == c0 || c == -c0,
            s == s0 || s == -s0,
    ;
    let a = (c * d) / 1_000_000_000;
    let b = (s * d) / 1_000_000_000;
    lemma_scaled_part(c, d, a);
    lemma_scaled_part(s, d, b);
    let dx = fx_mul(c0, dist);
    let dy = fx_mul(s0, dist);
    assert(c0 * dist == c * d || c0 * dist == -(c * d)) by (nonlinear_arith)
        requires
            c == c0 || c == -c0,
            d == dist || d == -dist,
    ;
    assert(s0 * dist == s * d || s0 * dist == -(s * d)) by (nonlinear_arith)
        requires
            s == s0 || s == -s0,
            d == dist || d == -dist,
    ;
    assert(dx == a || dx == -a);
    assert(dy == b || dy == -b);
    assert(dx * dx == a * a && dy * dy == b * b) by (nonlinear_arith)
        requires
            dx == a || dx == -a,
            dy == b || dy == -b,
    ;
    let total = dx * dx + dy * dy;
    assert(0 <= a * a <= d * d && 0 <= b * b <= d * d) by {
        lemma_square_order(a, d);
        lemma_square_order(b, d);
        lemma_square_order(0, a);
        lemma_square_order(0, b);
    }
    lemma_floor_sqrt_exists(total);
    let r = floor_sqrt(total);
    lemma_scaled_length(c, s, d, a, b, r);
    assert(r <= i64::MAX);
}

} // verus!
