//! Sine, cosine, tangent, arctangent and the exponential on the fixed-point
//! grid, each as a truncated power series after a range reduction.

use crate::fixed::{
    floor_sqrt, fx_abs, fx_add, fx_div, fx_div_int, fx_mul, fx_mul_ratio, fx_neg, fx_sub, hypot,
    lemma_floor_sqrt_exists, lemma_square_order, magnitude, ratio, spec_abs, spec_add, spec_div, spec_mul,
    spec_mul_ratio, spec_neg, spec_ratio, spec_sub, trunc_div, Fixed, SCALE,
};
use vstd::prelude::*;

verus! {

pub const PI: Fixed = 3_141_592_654;

pub const HALF_PI: Fixed = 1_570_796_327;

pub const QUARTER_PI: Fixed = 785_398_163;

pub const TWO_PI: Fixed = 6_283_185_307;

/// The natural logarithm of 2.
pub const LN_2: Fixed = 693_147_181;

/// The tangent of an eighth of a half turn.
pub const TAN_EIGHTH: Fixed = 414_213_562;

/// One step of a power series in nested form: `1 - (z * u) / k`.
pub open spec fn spec_series_step(z: Fixed, u: Fixed, k: i64) -> Fixed {
    fx_sub(SCALE, fx_div_int(fx_mul(z, u), k))
}

#[verifier::when_used_as_spec(spec_series_step)]
pub fn series_step(z: Fixed, u: Fixed, k: i64) -> (r: Fixed)
    ensures
        r == spec_series_step(z, u, k),
{
    fx_sub(SCALE, fx_div_int(fx_mul(z, u), k))
}

/// The angle in `[0, TWO_PI)` that differs from `x` by whole turns.
pub open spec fn spec_wrap_angle(x: Fixed) -> Fixed {
    ((x as int) % (TWO_PI as int)) as i64
}

#[verifier::when_used_as_spec(spec_wrap_angle)]
pub fn wrap_angle(x: Fixed) -> (r: Fixed)
    ensures
        r == spec_wrap_angle(x),
        0 <= r < TWO_PI,
{
    if x >= 0 {
        ((x as u64) % 6_283_185_307) as i64
    } else {
        let xm: u64 = (-(x as i128)) as u64;
        let m: u64 = xm % 6_283_185_307;
        if m == 0 {
            0
        } else {
            (6_283_185_307 - m) as i64
        }
    }
}

/// The sine series up to the fifteenth power, for an angle in the first quadrant.
pub open spec fn spec_sin_series(t: Fixed) -> Fixed {
    let z = fx_mul(t, t);
    fx_mul(
        t,
        series_step(
            z,
            series_step(
                z,
                series_step(
                    z,
                    series_step(z, series_step(z, series_step(z, series_step(z, SCALE, 210), 156), 110), 72),
                    42,
                ),
                20,
            ),
            6,
        ),
    )
}

#[verifier::when_used_as_spec(spec_sin_series)]
pub fn sin_series(t: Fixed) -> (r: Fixed)
    ensures
        r == spec_sin_series(t),
{
    let z: Fixed = fx_mul(t, t);
    let u7: Fixed = series_step(z, SCALE, 210);
    let u6: Fixed = series_step(z, u7, 156);
    let u5: Fixed = series_step(z, u6, 110);
    let u4: Fixed = series_step(z, u5, 72);
    let u3: Fixed = series_step(z, u4, 42);
    let u2: Fixed = series_step(z, u3, 20);
    let u1: Fixed = series_step(z, u2, 6);
    fx_mul(t, u1)
}

/// The cosine series up to the sixteenth power, for an angle in the first quadrant.
pub open spec fn spec_cos_series(t: Fixed) -> Fixed {
    let z = fx_mul(t, t);
    series_step(
        z,
        series_step(
            z,
            series_step(
                z,
                series_step(
                    z,
                    series_step(z, series_step(z, series_step(z, series_step(z, SCALE, 240), 182), 132), 90),
                    56,
                ),
                30,
            ),
            12,
        ),
        2,
    )
}

#[verifier::when_used_as_spec(spec_cos_series)]
pub fn cos_series(t: Fixed) -> (r: Fixed)
    ensures
        r == spec_cos_series(t),
{
    let z: Fixed = fx_mul(t, t);
    let u8: Fixed = series_step(z, SCALE, 240);
    let u7: Fixed = series_step(z, u8, 182);
    let u6: Fixed = series_step(z, u7, 132);
    let u5: Fixed = series_step(z, u6, 90);
    let u4: Fixed = series_step(z, u5, 56);
    let u3: Fixed = series_step(z, u4, 30);
    let u2: Fixed = series_step(z, u3, 12);
    series_step(z, u2, 2)
}

/// The quadrant (0 to 3) of a wrapped angle.
pub open spec fn quadrant(r: Fixed) -> int {
    r as int / HALF_PI as int
}

/// How far a wrapped angle lies into its quadrant.
pub open spec fn quadrant_offset(r: Fixed) -> Fixed {
    (r as int % HALF_PI as int) as i64
}

/// The length of the pair of series values at `t`, rounded down.
pub open spec fn series_norm(t: Fixed) -> Fixed {
    hypot(cos_series(t), sin_series(t))
}

/// The cosine of an angle in the first quadrant: the cosine series over the
/// length of the pair of series, so that sine and cosine make a vector of
/// length 1.
pub open spec fn spec_unit_cos(t: Fixed) -> Fixed {
    fx_mul_ratio(cos_series(t), SCALE, series_norm(t))
}

/// The sine of an angle in the first quadrant: the sine series over the
/// length of the pair of series.
pub open spec fn spec_unit_sin(t: Fixed) -> Fixed {
    fx_mul_ratio(sin_series(t), SCALE, series_norm(t))
}

/// The sine of `x` radians.
pub open spec fn spec_sin(x: Fixed) -> Fixed {
    let r = wrap_angle(x);
    let t = quadrant_offset(r);
    if quadrant(r) == 0 {
        spec_unit_sin(t)
    } else if quadrant(r) == 1 {
        spec_unit_cos(t)
    } else if quadrant(r) == 2 {
        fx_neg(spec_unit_sin(t))
    } else {
        fx_neg(spec_unit_cos(t))
    }
}

/// The cosine of `x` radians.
pub open spec fn spec_cos(x: Fixed) -> Fixed {
    let r = wrap_angle(x);
    let t = quadrant_offset(r);
    if quadrant(r) == 0 {
        spec_unit_cos(t)
    } else if quadrant(r) == 1 {
        fx_neg(spec_unit_sin(t))
    } else if quadrant(r) == 2 {
        fx_neg(spec_unit_cos(t))
    } else {
        spec_unit_sin(t)
    }
}

/// The tangent of `x` radians: sine over cosine, zero where the cosine is zero.
pub open spec fn spec_tan(x: Fixed) -> Fixed {
    fx_div(fx_sin(x), fx_cos(x))
}

/// Cosine and sine of an angle in the first quadrant.
fn unit_pair(t: Fixed) -> (pair: (Fixed, Fixed))
    ensures
        pair.0 == spec_unit_cos(t),
        pair.1 == spec_unit_sin(t),
{
    let c: Fixed = cos_series(t);
    let s: Fixed = sin_series(t);
    let norm: Fixed = hypot(c, s);
    (fx_mul_ratio(c, SCALE, norm), fx_mul_ratio(s, SCALE, norm))
}

/// The sine of `x` radians.
#[verifier::when_used_as_spec(spec_sin)]
pub fn fx_sin(x: Fixed) -> (r: Fixed)
    ensures
        r == spec_sin(x),
        -SCALE <= r <= SCALE,
{
    proof {
        lemma_unit_circle(x);
    }
    let w: u64 = wrap_angle(x) as u64;
    let q: u64 = w / 1_570_796_327;
    let (c, s) = unit_pair((w % 1_570_796_327) as i64);
    if q == 0 {
        s
    } else if q == 1 {
        c
    } else if q == 2 {
        fx_neg(s)
    } else {
        fx_neg(c)
    }
}

/// The cosine of `x` radians.
#[verifier::when_used_as_spec(spec_cos)]
pub fn fx_cos(x: Fixed) -> (r: Fixed)
    ensures
        r == spec_cos(x),
        -SCALE <= r <= SCALE,
{
    proof {
        lemma_unit_circle(x);
    }
    let w: u64 = wrap_angle(x) as u64;
    let q: u64 = w / 1_570_796_327;
    let (c, s) = unit_pair((w % 1_570_796_327) as i64);
    if q == 0 {
        c
    } else if q == 1 {
        fx_neg(s)
    } else if q == 2 {
        fx_neg(c)
    } else {
        s
    }
}

/// One step of a series for the square of an angle of up to a quarter turn:
/// it lies between `1 - z / k` and 1.
proof fn lemma_series_step_range(z: Fixed, u: Fixed, k: i64)
    requires
        0 <= z <= 2_467_500_000,
        0 <= u <= SCALE,
        k >= 1,
    ensures
        1_000_000_000 - (z as int) / (k as int) <= spec_series_step(z, u, k) <= SCALE,
        (z as int) / (k as int) >= 0,
{
    let n = z * u;
    assert(0 <= n <= z * 1_000_000_000) by (nonlinear_arith)
        requires
            n == z * u,
            0 <= z,
            0 <= u <= 1_000_000_000,
    ;
    let m = n / 1_000_000_000;
    assert(spec_mul(z, u) == m);
    assert(0 <= m / (k as int) <= (z as int) / (k as int)) by (nonlinear_arith)
        requires
            0 <= m <= z,
            k >= 1,
    ;
    assert((z as int) / (k as int) <= z) by (nonlinear_arith)
        requires
            0 <= z,
            k >= 1,
    ;
}

/// The square of an angle in the first quadrant.
proof fn lemma_quadrant_square(t: Fixed)
    requires
        0 <= t < HALF_PI,
    ensures
        0 <= spec_mul(t, t) <= 2_467_500_000,
        t <= SCALE ==> spec_mul(t, t) <= SCALE,
{
    let n = t * t;
    assert(0 <= n <= 1_570_796_327 * 1_570_796_327) by (nonlinear_arith)
        requires
            n == t * t,
            0 <= t <= 1_570_796_327,
    ;
    if t <= SCALE {
        assert(n <= 1_000_000_000 * 1_000_000_000) by (nonlinear_arith)
            requires
                n == t * t,
                0 <= t <= 1_000_000_000,
        ;
    }
}

/// The sine series in the first quadrant lies between 0 and the angle, and
/// is at least a half from an angle of 1 on.
proof fn lemma_sin_series_bounds(t: Fixed)
    requires
        0 <= t < HALF_PI,
    ensures
        0 <= spec_sin_series(t) <= t,
        t >= SCALE ==> spec_sin_series(t) >= 500_000_000,
{
    lemma_quadrant_square(t);
    let z = spec_mul(t, t);
    let u7 = spec_series_step(z, SCALE, 210);
    lemma_series_step_range(z, SCALE, 210);
    let u6 = spec_series_step(z, u7, 156);
    lemma_series_step_range(z, u7, 156);
    let u5 = spec_series_step(z, u6, 110);
    lemma_series_step_range(z, u6, 110);
    let u4 = spec_series_step(z, u5, 72);
    lemma_series_step_range(z, u5, 72);
    let u3 = spec_series_step(z, u4, 42);
    lemma_series_step_range(z, u4, 42);
    let u2 = spec_series_step(z, u3, 20);
    lemma_series_step_range(z, u3, 20);
    let u1 = spec_series_step(z, u2, 6);
    lemma_series_step_range(z, u2, 6);
    assert(588_000_000 <= u1 <= 1_000_000_000);
    let n = t * u1;
    assert(0 <= n <= t * 1_000_000_000) by (nonlinear_arith)
        requires
            n == t * u1,
            0 <= t,
            0 <= u1 <= 1_000_000_000,
    ;
    if t >= SCALE {
        assert(n >= 1_000_000_000 * u1) by (nonlinear_arith)
            requires
                n == t * u1,
                t >= 1_000_000_000,
                0 <= u1,
        ;
    }
    assert(spec_sin_series(t) == n / 1_000_000_000);
}

/// The cosine series in the first quadrant is at most 1, and at least a
/// half up to an angle of 1.
proof fn lemma_cos_series_bounds(t: Fixed)
    requires
        0 <= t < HALF_PI,
    ensures
        -234_000_000 <= spec_cos_series(t) <= SCALE,
        t <= SCALE ==> spec_cos_series(t) >= 500_000_000,
{
    lemma_quadrant_square(t);
    let z = spec_mul(t, t);
    let u8 = spec_series_step(z, SCALE, 240);
    lemma_series_step_range(z, SCALE, 240);
    let u7 = spec_series_step(z, u8, 182);
    lemma_series_step_range(z, u8, 182);
    let u6 = spec_series_step(z, u7, 132);
    lemma_series_step_range(z, u7, 132);
    let u5 = spec_series_step(z, u6, 90);
    lemma_series_step_range(z, u6, 90);
    let u4 = spec_series_step(z, u5, 56);
    lemma_series_step_range(z, u5, 56);
    let u3 = spec_series_step(z, u4, 30);
    lemma_series_step_range(z, u4, 30);
    let u2 = spec_series_step(z, u3, 12);
    lemma_series_step_range(z, u3, 12);
    lemma_series_step_range(z, u2, 2);
}

/// The part of `v` in a vector of length `norm`, rounded toward zero, is at
/// most 1 in size; `part * norm` and `v * SCALE` differ by less than `norm`.
proof fn lemma_unit_part(v: Fixed, norm: Fixed)
    requires
        norm > 0,
        -norm <= v <= norm,
    ensures
        -SCALE <= spec_mul_ratio(v, SCALE, norm) <= SCALE,
        magnitude(spec_mul_ratio(v, SCALE, norm) as int) * norm <= magnitude(v as int)
            * 1_000_000_000,
        magnitude(v as int) * 1_000_000_000 < (magnitude(spec_mul_ratio(v, SCALE, norm) as int) + 1)
            * norm,
{
    let a = magnitude(v as int);
    let n = a * 1_000_000_000;
    let q = n / (norm as int);
    assert(0 <= q <= 1_000_000_000 && q * norm <= n < (q + 1) * norm) by (nonlinear_arith)
        requires
            q == n / (norm as int),
            n == a * 1_000_000_000,
            0 <= a <= norm,
            norm > 0,
    ;
    assert(v * SCALE == v * 1_000_000_000);
    if v >= 0 {
        assert(trunc_div(v * 1_000_000_000, norm as int) == q);
    } else {
        assert(trunc_div(v * 1_000_000_000, norm as int) == -q);
    }
}

/// Two parts of a vector make a vector of length 1, up to rounding.
proof fn lemma_unit_squares(a: int, b: int, x: int, y: int, h: int)
    requires
        0 <= a <= 1_000_000_000,
        0 <= b <= 1_000_000_000,
        0 <= x,
        0 <= y,
        h >= 500_000_000,
        a * h <= x * 1_000_000_000 < (a + 1) * h,
        b * h <= y * 1_000_000_000 < (b + 1) * h,
        h * h <= x * x + y * y < (h + 1) * (h + 1),
    ensures
        999_999_997 * 999_999_997 <= a * a + b * b <= 1_000_000_002 * 1_000_000_002,
{
    let s: int = 1_000_000_000;
    lemma_square_order(a * h, x * s);
    lemma_square_order(b * h, y * s);
    lemma_square_order(x * s + 1, (a + 1) * h);
    lemma_square_order(y * s + 1, (b + 1) * h);
    let big = (x * x + y * y) * (s * s);
    assert((a * h) * (a * h) + (b * h) * (b * h) == (a * a + b * b) * (h * h)) by (nonlinear_arith);
    assert((x * s) * (x * s) + (y * s) * (y * s) == big) by (nonlinear_arith)
        requires
            big == (x * x + y * y) * (s * s),
    ;
    assert((a * a + b * b) * (h * h) <= big);
    assert(big < ((h + 1) * (h + 1)) * (s * s)) by (nonlinear_arith)
        requires
            big == (x * x + y * y) * (s * s),
            x * x + y * y < (h + 1) * (h + 1),
            s == 1_000_000_000,
    ;
    assert(((h + 1) * (h + 1)) * (s * s) <= ((s + 2) * (s + 2)) * (h * h)) by (nonlinear_arith)
        requires
            s == 1_000_000_000,
            h >= 500_000_000,
    ;
    assert(a * a + b * b < (s + 2) * (s + 2)) by (nonlinear_arith)
        requires
            (a * a + b * b) * (h * h) < ((s + 2) * (s + 2)) * (h * h),
            h > 0,
    ;
    assert(big >= (h * h) * (s * s)) by (nonlinear_arith)
        requires
            big == (x * x + y * y) * (s * s),
            x * x + y * y >= h * h,
            s == 1_000_000_000,
    ;
    assert(((a + 1) * h) * ((a + 1) * h) + ((b + 1) * h) * ((b + 1) * h) == ((a + 1) * (a + 1) + (b
        + 1) * (b + 1)) * (h * h)) by (nonlinear_arith);
    assert((x * s + 1) * (x * s + 1) + (y * s + 1) * (y * s + 1) > big) by (nonlinear_arith)
        requires
            big == (x * x + y * y) * (s * s),
            x >= 0,
            y >= 0,
            s == 1_000_000_000,
    ;
    assert(((a + 1) * (a + 1) + (b + 1) * (b + 1)) * (h * h) > (s * s) * (h * h));
    assert((a + 1) * (a + 1) + (b + 1) * (b + 1) > s * s) by (nonlinear_arith)
        requires
            ((a + 1) * (a + 1) + (b + 1) * (b + 1)) * (h * h) > (s * s) * (h * h),
            h > 0,
    ;
    assert((a + 1) * (a + 1) + (b + 1) * (b + 1) == a * a + b * b + 2 * a + 2 * b + 2)
        by (nonlinear_arith);
}

/// Cosine and sine of an angle in the first quadrant are at most 1 in size
/// and make a vector of length 1, up to rounding.
proof fn lemma_unit_pair(t: Fixed)
    requires
        0 <= t < HALF_PI,
    ensures
        -SCALE <= spec_unit_cos(t) <= SCALE,
        0 <= spec_unit_sin(t) <= SCALE,
        999_999_997 * 999_999_997 <= spec_unit_cos(t) * spec_unit_cos(t) + spec_unit_sin(t)
            * spec_unit_sin(t) <= 1_000_000_002 * 1_000_000_002,
{
    lemma_sin_series_bounds(t);
    lemma_cos_series_bounds(t);
    let c0 = spec_cos_series(t);
    let s0 = spec_sin_series(t);
    let x = magnitude(c0 as int);
    let y = s0 as int;
    let total = c0 * c0 + s0 * s0;
    assert(c0 * c0 == x * x) by (nonlinear_arith)
        requires
            x == c0 || x == -c0,
    ;
    assert(0 <= x * x <= 1_000_000_000 * 1_000_000_000) by (nonlinear_arith)
        requires
            0 <= x <= 1_000_000_000,
    ;
    assert(0 <= y * y <= 1_570_796_327 * 1_570_796_327) by (nonlinear_arith)
        requires
            0 <= y <= 1_570_796_327,
    ;
    assert(total >= 500_000_000 * 500_000_000) by {
        if t <= SCALE {
            lemma_square_order(500_000_000, x);
        } else {
            lemma_square_order(500_000_000, y);
        }
    }
    lemma_floor_sqrt_exists(total);
    let h = floor_sqrt(total);
    assert(h >= 500_000_000) by {
        if h < 500_000_000 {
            lemma_square_order(h + 1, 500_000_000);
        }
    }
    assert(h < 2_000_000_000) by {
        if h >= 2_000_000_000 {
            lemma_square_order(2_000_000_000, h);
        }
    }
    assert(x <= h) by {
        if x > h {
            lemma_square_order(h + 1, x);
        }
    }
    assert(y <= h) by {
        if y > h {
            lemma_square_order(h + 1, y);
        }
    }
    assert(series_norm(t) == h);
    lemma_unit_part(c0, h as i64);
    lemma_unit_part(s0, h as i64);
    let a = magnitude(spec_unit_cos(t) as int);
    let b = spec_unit_sin(t) as int;
    assert(b >= 0);
    lemma_unit_squares(a, b, x, y, h);
    assert(spec_unit_cos(t) * spec_unit_cos(t) == a * a) by (nonlinear_arith)
        requires
            a == spec_unit_cos(t) || a == -spec_unit_cos(t),
    ;
}

/// Sine and cosine are at most 1 in size, and together make a vector of
/// length 1 up to rounding: the sum of their squares lies between the
/// squares of `1 - 3e-9` and `1 + 2e-9`.
pub proof fn lemma_unit_circle(x: Fixed)
    ensures
        -SCALE <= spec_sin(x) <= SCALE,
        -SCALE <= spec_cos(x) <= SCALE,
        999_999_997 * 999_999_997 <= spec_sin(x) * spec_sin(x) + spec_cos(x) * spec_cos(x)
            <= 1_000_000_002 * 1_000_000_002,
{
    let r = wrap_angle(x);
    let t = quadrant_offset(r);
    assert(0 <= r < TWO_PI);
    assert(0 <= t < HALF_PI);
    lemma_unit_pair(t);
    let c = spec_unit_cos(t);
    let s = spec_unit_sin(t);
    assert((-c) * (-c) == c * c && (-s) * (-s) == s * s) by (nonlinear_arith);
    assert(s * s + c * c == c * c + s * s);
}

/// The tangent of `x` radians.
#[verifier::when_used_as_spec(spec_tan)]
pub fn fx_tan(x: Fixed) -> (r: Fixed)
    ensures
        r == spec_tan(x),
{
    fx_div(fx_sin(x), fx_cos(x))
}

/// One step of the arctangent series in nested form: `1/k - z * p`.
pub open spec fn spec_atan_step(z: Fixed, p: Fixed, k: i64) -> Fixed {
    fx_sub(ratio(1, k), fx_mul(z, p))
}

#[verifier::when_used_as_spec(spec_atan_step)]
pub fn atan_step(z: Fixed, p: Fixed, k: i64) -> (r: Fixed)
    ensures
        r == spec_atan_step(z, p, k),
{
    fx_sub(ratio(1, k), fx_mul(z, p))
}

/// The arctangent series up to the twenty-third power, for a small argument.
pub open spec fn spec_atan_series(w: Fixed) -> Fixed {
    let z = fx_mul(w, w);
    fx_mul(
        w,
        atan_step(
            z,
            atan_step(
                z,
                atan_step(
                    z,
                    atan_step(
                        z,
                        atan_step(
                            z,
                            atan_step(
                                z,
                                atan_step(
                                    z,
                                    atan_step(
                                        z,
                                        atan_step(z, atan_step(z, atan_step(z, ratio(1, 23), 21), 19), 17),
                                        15,
                                    ),
                                    13,
                                ),
                                11,
                            ),
                            9,
                        ),
                        7,
                    ),
                    5,
                ),
                3,
            ),
            1,
        ),
    )
}

#[verifier::when_used_as_spec(spec_atan_series)]
pub fn atan_series(w: Fixed) -> (r: Fixed)
    ensures
        r == spec_atan_series(w),
{
    let z: Fixed = fx_mul(w, w);
    let q11: Fixed = ratio(1, 23);
    let q10: Fixed = atan_step(z, q11, 21);
    let q9: Fixed = atan_step(z, q10, 19);
    let q8: Fixed = atan_step(z, q9, 17);
    let q7: Fixed = atan_step(z, q8, 15);
    let q6: Fixed = atan_step(z, q7, 13);
    let q5: Fixed = atan_step(z, q6, 11);
    let q4: Fixed = atan_step(z, q5, 9);
    let q3: Fixed = atan_step(z, q4, 7);
    let q2: Fixed = atan_step(z, q3, 5);
    let q1: Fixed = atan_step(z, q2, 3);
    let q0: Fixed = atan_step(z, q1, 1);
    fx_mul(w, q0)
}

/// The arctangent of a slope between 0 and 1. Above the tangent of an eighth
/// of a half turn the argument is folded by `atan(z) = pi/4 + atan((z - 1) / (z + 1))`.
pub open spec fn spec_atan_unit(z: Fixed) -> Fixed {
    if z > TAN_EIGHTH {
        fx_add(QUARTER_PI, atan_series(fx_div(fx_sub(z, SCALE), fx_add(z, SCALE))))
    } else {
        atan_series(z)
    }
}

#[verifier::when_used_as_spec(spec_atan_unit)]
pub fn atan_unit(z: Fixed) -> (r: Fixed)
    ensures
        r == spec_atan_unit(z),
{
    if z > TAN_EIGHTH {
        fx_add(QUARTER_PI, atan_series(fx_div(fx_sub(z, SCALE), fx_add(z, SCALE))))
    } else {
        atan_series(z)
    }
}

/// The angle between 0 and a quarter turn of the vector `(|x|, |y|)`.
pub open spec fn spec_atan2_first(y: Fixed, x: Fixed) -> Fixed {
    let a = fx_abs(y);
    let b = fx_abs(x);
    if a <= b {
        atan_unit(fx_div(a, b))
    } else {
        fx_sub(HALF_PI, atan_unit(fx_div(b, a)))
    }
}

/// The angle of the vector `(x, y)` in radians, in `(-pi, pi]`; zero for the
/// zero vector.
pub open spec fn spec_atan2(y: Fixed, x: Fixed) -> Fixed {
    if x == 0 && y == 0 {
        0
    } else if x >= 0 {
        if y >= 0 {
            spec_atan2_first(y, x)
        } else {
            fx_neg(spec_atan2_first(y, x))
        }
    } else {
        if y >= 0 {
            fx_sub(PI, spec_atan2_first(y, x))
        } else {
            fx_sub(spec_atan2_first(y, x), PI)
        }
    }
}

/// The angle of the vector `(x, y)` in radians.
#[verifier::when_used_as_spec(spec_atan2)]
pub fn fx_atan2(y: Fixed, x: Fixed) -> (r: Fixed)
    ensures
        r == spec_atan2(y, x),
{
    if x == 0 && y == 0 {
        return 0;
    }
    let a: Fixed = fx_abs(y);
    let b: Fixed = fx_abs(x);
    let first: Fixed = if a <= b {
        atan_unit(fx_div(a, b))
    } else {
        fx_sub(HALF_PI, atan_unit(fx_div(b, a)))
    };
    if x >= 0 {
        if y >= 0 {
            first
        } else {
            fx_neg(first)
        }
    } else {
        if y >= 0 {
            fx_sub(PI, first)
        } else {
            fx_sub(first, PI)
        }
    }
}

/// A quotient of a smaller by a larger positive number lies between 0 and 1.
proof fn lemma_unit_quotient(a: Fixed, b: Fixed)
    requires
        0 <= a <= b,
    ensures
        0 <= spec_div(a, b) <= SCALE,
{
    if b > 0 {
        let n = a * 1_000_000_000;
        assert(0 <= n / (b as int) <= 1_000_000_000) by (nonlinear_arith)
            requires
                n == a * 1_000_000_000,
                0 <= a <= b,
                b > 0,
        ;
    }
}

/// A product with a factor between 0 and 1 lies between 0 and the other
/// factor.
proof fn lemma_scaled_down(w: Fixed, q: Fixed)
    requires
        0 <= q <= SCALE,
    ensures
        w >= 0 ==> 0 <= spec_mul(w, q) <= w,
        w <= 0 ==> w <= spec_mul(w, q) <= 0,
{
    let n = w * q;
    if w >= 0 {
        assert(0 <= n / 1_000_000_000 <= w) by (nonlinear_arith)
            requires
                n == w * q,
                0 <= w,
                0 <= q <= 1_000_000_000,
        ;
    } else {
        assert(0 <= (-n) / 1_000_000_000 <= -w) by (nonlinear_arith)
            requires
                n == w * q,
                w < 0,
                0 <= q <= 1_000_000_000,
        ;
        assert(n <= 0) by (nonlinear_arith)
            requires
                n == w * q,
                w < 0,
                0 <= q,
        ;
    }
}

/// One step of the arctangent series stays between 0 and its coefficient,
/// for the square of an argument of a size up to 0.4143.
proof fn lemma_atan_step_bounds(z: Fixed, q: Fixed, k: i64, q_bound: Fixed)
    requires
        0 <= z <= 171_700_000,
        0 <= q <= q_bound <= SCALE,
        1 <= k <= 23,
        171_700_000 * q_bound <= (1_000_000_000int / (k as int)) * 1_000_000_000,
    ensures
        0 <= spec_atan_step(z, q, k) <= 1_000_000_000int / (k as int),
{
    let n = z * q;
    assert(0 <= n <= 171_700_000 * q_bound) by (nonlinear_arith)
        requires
            n == z * q,
            0 <= z <= 171_700_000,
            0 <= q <= q_bound,
    ;
    assert(spec_ratio(1, k) == 1_000_000_000int / (k as int));
}

/// The arctangent series of an argument of a size up to 0.4143 lies between
/// 0 and the argument.
proof fn lemma_atan_series_bounds(w: Fixed)
    requires
        -414_300_000 <= w <= 414_300_000,
    ensures
        w >= 0 ==> 0 <= spec_atan_series(w) <= w,
        w <= 0 ==> w <= spec_atan_series(w) <= 0,
{
    let z = spec_mul(w, w);
    let n = w * w;
    assert(0 <= n <= 414_300_000 * 414_300_000) by (nonlinear_arith)
        requires
            n == w * w,
            -414_300_000 <= w <= 414_300_000,
    ;
    assert(0 <= z <= 171_700_000);
    let q11 = spec_ratio(1, 23);
    assert(q11 == 43_478_260);
    let q10 = spec_atan_step(z, q11, 21);
    lemma_atan_step_bounds(z, q11, 21, 43_478_260);
    let q9 = spec_atan_step(z, q10, 19);
    lemma_atan_step_bounds(z, q10, 19, 47_619_047);
    let q8 = spec_atan_step(z, q9, 17);
    lemma_atan_step_bounds(z, q9, 17, 52_631_578);
    let q7 = spec_atan_step(z, q8, 15);
    lemma_atan_step_bounds(z, q8, 15, 58_823_529);
    let q6 = spec_atan_step(z, q7, 13);
    lemma_atan_step_bounds(z, q7, 13, 66_666_666);
    let q5 = spec_atan_step(z, q6, 11);
    lemma_atan_step_bounds(z, q6, 11, 76_923_076);
    let q4 = spec_atan_step(z, q5, 9);
    lemma_atan_step_bounds(z, q5, 9, 90_909_090);
    let q3 = spec_atan_step(z, q4, 7);
    lemma_atan_step_bounds(z, q4, 7, 111_111_111);
    let q2 = spec_atan_step(z, q3, 5);
    lemma_atan_step_bounds(z, q3, 5, 142_857_142);
    let q1 = spec_atan_step(z, q2, 3);
    lemma_atan_step_bounds(z, q2, 3, 200_000_000);
    let q0 = spec_atan_step(z, q1, 1);
    lemma_atan_step_bounds(z, q1, 1, 333_333_333);
    lemma_scaled_down(w, q0);
}

/// The arctangent of a slope between 0 and 1 lies between 0 and an eighth
/// of a turn.
proof fn lemma_atan_unit_bounds(z: Fixed)
    requires
        0 <= z <= SCALE,
    ensures
        0 <= spec_atan_unit(z) <= QUARTER_PI,
{
    if z > TAN_EIGHTH {
        let up = 1_000_000_000 - z;
        let down = z + 1_000_000_000;
        let n = up * 1_000_000_000;
        assert(0 <= n / down <= 414_300_000) by (nonlinear_arith)
            requires
                n == up * 1_000_000_000,
                0 <= up,
                down > 0,
                up * 1_000_000_000 < 414_300_001 * down,
        ;
        assert(spec_sub(z, SCALE) == -up);
        assert(spec_add(z, SCALE) == down);
        assert((-up) * 1_000_000_000 == -n) by (nonlinear_arith)
            requires
                n == up * 1_000_000_000,
        ;
        let w = spec_div(spec_sub(z, SCALE), spec_add(z, SCALE));
        assert(w == -(n / down));
        lemma_atan_series_bounds(w);
    } else {
        lemma_atan_series_bounds(z);
    }
}

/// The angle of a vector lies within half a turn of zero.
pub proof fn lemma_atan2_range(y: Fixed, x: Fixed)
    ensures
        -PI <= spec_atan2(y, x) <= PI,
        y >= 0 ==> spec_atan2(y, x) >= 0,
        y < 0 ==> spec_atan2(y, x) <= 0,
{
    let a = spec_abs(y);
    let b = spec_abs(x);
    if a <= b {
        lemma_unit_quotient(a, b);
        lemma_atan_unit_bounds(spec_div(a, b));
    } else {
        lemma_unit_quotient(b, a);
        lemma_atan_unit_bounds(spec_div(b, a));
    }
    assert(0 <= spec_atan2_first(y, x) <= HALF_PI);
}

/// `e` halved `k` times, each time rounded down.
pub open spec fn halved(e: int, k: nat) -> int
    decreases k,
{
    if k == 0 {
        e
    } else {
        halved(e / 2, (k - 1) as nat)
    }
}

pub proof fn lemma_halved_zero(k: nat)
    ensures
        halved(0, k) == 0,
    decreases k,
{
    if k > 0 {
        lemma_halved_zero((k - 1) as nat);
    }
}

/// The series of `exp(-r)` up to the twelfth power, for `r` below `LN_2`.
pub open spec fn spec_exp_series(r: Fixed) -> Fixed {
    series_step(
        r,
        series_step(
            r,
            series_step(
                r,
                series_step(
                    r,
                    series_step(
                        r,
                        series_step(
                            r,
                            series_step(
                                r,
                                series_step(
                                    r,
                                    series_step(r, series_step(r, series_step(r, series_step(r, SCALE, 12), 11), 10), 9),
                                    8,
                                ),
                                7,
                            ),
                            6,
                        ),
                        5,
                    ),
                    4,
                ),
                3,
            ),
            2,
        ),
        1,
    )
}

#[verifier::when_used_as_spec(spec_exp_series)]
pub fn exp_series(r: Fixed) -> (e: Fixed)
    ensures
        e == spec_exp_series(r),
{
    let u12: Fixed = series_step(r, SCALE, 12);
    let u11: Fixed = series_step(r, u12, 11);
    let u10: Fixed = series_step(r, u11, 10);
    let u9: Fixed = series_step(r, u10, 9);
    let u8: Fixed = series_step(r, u9, 8);
    let u7: Fixed = series_step(r, u8, 7);
    let u6: Fixed = series_step(r, u7, 6);
    let u5: Fixed = series_step(r, u6, 5);
    let u4: Fixed = series_step(r, u5, 4);
    let u3: Fixed = series_step(r, u4, 3);
    let u2: Fixed = series_step(r, u3, 2);
    series_step(r, u2, 1)
}

/// `exp(-t)` for `t >= 0`: with `t = k * ln 2 + r`, the series of `exp(-r)`
/// halved `k` times. Zero where the series is not positive.
pub open spec fn spec_exp_neg(t: Fixed) -> Fixed {
    let e = exp_series((t as int % LN_2 as int) as i64);
    if e <= 0 {
        0
    } else {
        halved(e as int, (t as int / LN_2 as int) as nat) as i64
    }
}

/// One step of a series stays between 0 and 1 for an argument and a
/// running value between 0 and 1.
proof fn lemma_series_step_unit(z: Fixed, u: Fixed, k: i64)
    requires
        0 <= z <= SCALE,
        0 <= u <= SCALE,
        k >= 1,
    ensures
        0 <= spec_series_step(z, u, k) <= SCALE,
{
    let n = z * u;
    assert(0 <= n <= 1_000_000_000 * 1_000_000_000) by (nonlinear_arith)
        requires
            n == z * u,
            0 <= z <= 1_000_000_000,
            0 <= u <= 1_000_000_000,
    ;
    let m = n / 1_000_000_000;
    assert(spec_mul(z, u) == m);
    assert(0 <= m / (k as int) <= m) by (nonlinear_arith)
        requires
            0 <= m,
            k >= 1,
    ;
}

/// The series of `exp(-r)` lies between 0 and 1 for `r` between 0 and 1.
proof fn lemma_exp_series_unit(r: Fixed)
    requires
        0 <= r <= SCALE,
    ensures
        0 <= spec_exp_series(r) <= SCALE,
{
    let u12 = spec_series_step(r, SCALE, 12);
    lemma_series_step_unit(r, SCALE, 12);
    let u11 = spec_series_step(r, u12, 11);
    lemma_series_step_unit(r, u12, 11);
    let u10 = spec_series_step(r, u11, 10);
    lemma_series_step_unit(r, u11, 10);
    let u9 = spec_series_step(r, u10, 9);
    lemma_series_step_unit(r, u10, 9);
    let u8 = spec_series_step(r, u9, 8);
    lemma_series_step_unit(r, u9, 8);
    let u7 = spec_series_step(r, u8, 7);
    lemma_series_step_unit(r, u8, 7);
    let u6 = spec_series_step(r, u7, 6);
    lemma_series_step_unit(r, u7, 6);
    let u5 = spec_series_step(r, u6, 5);
    lemma_series_step_unit(r, u6, 5);
    let u4 = spec_series_step(r, u5, 4);
    lemma_series_step_unit(r, u5, 4);
    let u3 = spec_series_step(r, u4, 3);
    lemma_series_step_unit(r, u4, 3);
    let u2 = spec_series_step(r, u3, 2);
    lemma_series_step_unit(r, u3, 2);
    lemma_series_step_unit(r, u2, 1);
}

/// Halving a number that is not negative leaves it between 0 and itself.
proof fn lemma_halved_bounds(e: int, k: nat)
    requires
        e >= 0,
    ensures
        0 <= halved(e, k) <= e,
    decreases k,
{
    if k > 0 {
        lemma_halved_bounds(e / 2, (k - 1) as nat);
    }
}

/// The exponential of a number that is not positive lies between 0 and 1.
pub proof fn lemma_exp_unit(x: Fixed)
    requires
        x <= 0,
    ensures
        0 <= spec_exp(x) <= SCALE,
{
    let t = spec_neg(x);
    let r = (t as int % LN_2 as int) as i64;
    lemma_exp_series_unit(r);
    let e = spec_exp_series(r);
    if e > 0 {
        lemma_halved_bounds(e as int, (t as int / LN_2 as int) as nat);
    }
}

#[verifier::when_used_as_spec(spec_exp_neg)]
fn exp_neg(t: Fixed) -> (r: Fixed)
    requires
        t >= 0,
    ensures
        r == spec_exp_neg(t),
        0 <= r,
{
    let tm: u64 = t as u64;
    let mut k: u64 = tm / 693_147_181;
    let mut e: Fixed = exp_series((tm % 693_147_181) as i64);
    if e <= 0 {
        return 0;
    }
    let ghost e0 = e;
    let ghost k0 = k;
    while k > 0 && e > 0
        invariant
            0 <= e,
            halved(e0 as int, k0 as nat) == halved(e as int, k as nat),
        decreases k,
    {
        e = e / 2;
        k = k - 1;
    }
    proof {
        if e == 0 {
            lemma_halved_zero(k as nat);
        }
    }
    e
}

/// The exponential of `x`: for a positive `x`, one over `exp(-x)`, and the
/// largest number where that is zero.
pub open spec fn spec_exp(x: Fixed) -> Fixed {
    if x <= 0 {
        spec_exp_neg(fx_neg(x))
    } else if spec_exp_neg(x) == 0 {
        i64::MAX
    } else {
        fx_div(SCALE, spec_exp_neg(x))
    }
}

/// The exponential of `x`.
#[verifier::when_used_as_spec(spec_exp)]
pub fn fx_exp(x: Fixed) -> (r: Fixed)
    ensures
        r == spec_exp(x),
{
    if x <= 0 {
        exp_neg(fx_neg(x))
    } else {
        let e: Fixed = exp_neg(x);
        if e == 0 {
            i64::MAX
        } else {
            fx_div(SCALE, e)
        }
    }
}

} // verus!
