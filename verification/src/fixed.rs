//! Saturating fixed-point arithmetic on a grid of one billionth.

use vstd::prelude::*;

verus! {

/// A real number on a grid of 10^-9: the integer `v` stands for `v / SCALE`.
pub type Fixed = i64;

/// A number on the same grid with more room, for results that may lie
/// outside the range of a `Fixed`.
pub type Wide = i128;

/// The representation of 1.
pub const SCALE: i64 = 1_000_000_000;

/// The nearest representable value to `v`.
pub open spec fn sat(v: int) -> i64 {
    if v > i64::MAX {
        i64::MAX
    } else if v < i64::MIN {
        i64::MIN
    } else {
        v as i64
    }
}

/// The size of `v` without its sign.
pub open spec fn magnitude(v: int) -> int {
    if v < 0 {
        -v
    } else {
        v
    }
}

/// The quotient `n / d` rounded toward zero. A zero divisor gives zero.
pub open spec fn trunc_div(n: int, d: int) -> int {
    if d == 0 {
        0
    } else if d > 0 {
        if n >= 0 {
            n / d
        } else {
            -((-n) / d)
        }
    } else {
        if n >= 0 {
            -(n / (-d))
        } else {
            (-n) / (-d)
        }
    }
}

/// `r` is the largest number that is not negative and whose square is at
/// most `n`.
pub open spec fn is_floor_sqrt(n: int, r: int) -> bool {
    r >= 0 && r * r <= n < (r + 1) * (r + 1)
}

/// The square root of `n`, rounded down.
pub open spec fn floor_sqrt(n: int) -> int {
    choose|r: int| is_floor_sqrt(n, r)
}

pub open spec fn spec_add(a: Fixed, b: Fixed) -> Fixed {
    sat(a + b)
}

pub open spec fn spec_sub(a: Fixed, b: Fixed) -> Fixed {
    sat(a - b)
}

pub open spec fn spec_neg(a: Fixed) -> Fixed {
    sat(-a)
}

pub open spec fn spec_abs(a: Fixed) -> Fixed {
    sat(magnitude(a as int))
}

pub open spec fn spec_mul(a: Fixed, b: Fixed) -> Fixed {
    sat(trunc_div(a * b, 1_000_000_000))
}

pub open spec fn spec_div(a: Fixed, b: Fixed) -> Fixed {
    sat(trunc_div(a * 1_000_000_000, b as int))
}

/// The quotient of two fixed-point numbers by a plain integer.
pub open spec fn spec_div_int(a: Fixed, k: i64) -> Fixed {
    sat(trunc_div(a as int, k as int))
}

/// The product of a fixed-point number and a plain integer.
pub open spec fn spec_mul_int(a: Fixed, k: i64) -> Fixed {
    sat(a * k)
}

/// The fraction `i / n` of a fixed-point number: the product with `i` over
/// `n`, rounded once.
pub open spec fn spec_mul_ratio(a: Fixed, i: i64, n: i64) -> Fixed {
    sat(trunc_div(a * i, n as int))
}

/// The product of a fixed-point number and a wide one, rounded toward zero.
/// It is exact: nothing saturates.
pub open spec fn spec_wide_mul(a: Fixed, b: int) -> int {
    trunc_div(a * b, 1_000_000_000)
}

pub open spec fn spec_from_int(n: i64) -> Fixed {
    sat(n * 1_000_000_000)
}

/// The fixed-point value of the fraction `n / d` of two plain integers.
pub open spec fn spec_ratio(n: i64, d: i64) -> Fixed {
    sat(trunc_div(n * 1_000_000_000, d as int))
}

/// The length of the vector `(dx, dy)`, rounded down to the grid.
pub open spec fn spec_hypot(dx: Fixed, dy: Fixed) -> Fixed {
    sat(floor_sqrt(dx * dx + dy * dy))
}

/// Squares keep the order of numbers that are not negative.
pub proof fn lemma_square_order(a: int, b: int)
    requires
        0 <= a <= b,
    ensures
        a * a <= b * b,
{
    assert(a * a <= b * b) by (nonlinear_arith)
        requires
            0 <= a <= b,
    ;
}

/// A number has at most one floor square root.
pub proof fn lemma_floor_sqrt_unique(n: int, r: int, s: int)
    requires
        is_floor_sqrt(n, r),
        is_floor_sqrt(n, s),
    ensures
        r == s,
{
    if r < s {
        assert((r + 1) * (r + 1) <= s * s) by (nonlinear_arith)
            requires
                0 <= r + 1 <= s,
        ;
    } else if s < r {
        assert((s + 1) * (s + 1) <= r * r) by (nonlinear_arith)
            requires
                0 <= s + 1 <= r,
        ;
    }
}

/// A number that passes for the floor square root is it.
pub proof fn lemma_floor_sqrt_is(n: int, r: int)
    requires
        is_floor_sqrt(n, r),
    ensures
        floor_sqrt(n) == r,
{
    lemma_floor_sqrt_unique(n, r, floor_sqrt(n));
}

/// A length is never negative.
pub proof fn lemma_hypot_nonnegative(dx: Fixed, dy: Fixed)
    ensures
        spec_hypot(dx, dy) >= 0,
{
    let n = dx * dx + dy * dy;
    assert(dx * dx >= 0 && dy * dy >= 0) by (nonlinear_arith);
    lemma_floor_sqrt_exists(n);
}

/// Every non-negative number has a floor square root.
pub proof fn lemma_floor_sqrt_exists(n: int)
    requires
        n >= 0,
    ensures
        is_floor_sqrt(n, floor_sqrt(n)),
    decreases n,
{
    if n == 0 {
        assert(is_floor_sqrt(0, 0));
    } else {
        lemma_floor_sqrt_exists(n - 1);
        let r = floor_sqrt(n - 1);
        if (r + 1) * (r + 1) <= n {
            assert((r + 1) * (r + 1) == n);
            assert(n < (r + 2) * (r + 2)) by (nonlinear_arith)
                requires
                    (r + 1) * (r + 1) == n,
                    r >= 0,
            ;
            assert(is_floor_sqrt(n, r + 1));
        } else {
            assert(is_floor_sqrt(n, r));
        }
    }
}

pub(crate) fn saturate(v: i128) -> (r: i64)
    ensures
        r == sat(v as int),
{
    if v > i64::MAX as i128 {
        i64::MAX
    } else if v < i64::MIN as i128 {
        i64::MIN
    } else {
        v as i64
    }
}

pub(crate) fn div_toward_zero(n: i128, d: i128) -> (q: i128)
    requires
        n > i128::MIN,
        d > i128::MIN,
    ensures
        q == trunc_div(n as int, d as int),
        magnitude(q as int) <= magnitude(n as int),
{
    if d == 0 {
        return 0;
    }
    let nm: u128 = if n < 0 { (-n) as u128 } else { n as u128 };
    let dm: u128 = if d < 0 { (-d) as u128 } else { d as u128 };
    let qm: u128 = nm / dm;
    assert(qm <= nm) by (nonlinear_arith)
        requires
            qm == nm / dm,
            dm >= 1,
    ;
    if (n < 0) == (d < 0) {
        qm as i128
    } else {
        -(qm as i128)
    }
}

fn scaled(a: i64) -> (r: i128)
    ensures
        r == a * 1_000_000_000,
        -0x4000_0000_0000_0000_0000_0000_0000_0000 <= r <= 0x4000_0000_0000_0000_0000_0000_0000_0000,
{
    (a as i128) * 1_000_000_000
}

/// The sum, saturated.
#[verifier::when_used_as_spec(spec_add)]
pub fn fx_add(a: Fixed, b: Fixed) -> (r: Fixed)
    ensures
        r == spec_add(a, b),
{
    saturate(a as i128 + b as i128)
}

/// The difference, saturated.
#[verifier::when_used_as_spec(spec_sub)]
pub fn fx_sub(a: Fixed, b: Fixed) -> (r: Fixed)
    ensures
        r == spec_sub(a, b),
{
    saturate(a as i128 - b as i128)
}

/// The negation, saturated.
#[verifier::when_used_as_spec(spec_neg)]
pub fn fx_neg(a: Fixed) -> (r: Fixed)
    ensures
        r == spec_neg(a),
{
    saturate(-(a as i128))
}

/// The absolute value, saturated.
#[verifier::when_used_as_spec(spec_abs)]
pub fn fx_abs(a: Fixed) -> (r: Fixed)
    ensures
        r == spec_abs(a),
{
    if a < 0 {
        saturate(-(a as i128))
    } else {
        a
    }
}

/// The product, rounded toward zero and saturated.
#[verifier::when_used_as_spec(spec_mul)]
pub fn fx_mul(a: Fixed, b: Fixed) -> (r: Fixed)
    ensures
        r == spec_mul(a, b),
{
    assert(-0x4000_0000_0000_0000_0000_0000_0000_0000 <= a * b
        <= 0x4000_0000_0000_0000_0000_0000_0000_0000) by (nonlinear_arith)
        requires
            -0x8000_0000_0000_0000 <= a <= 0x8000_0000_0000_0000,
            -0x8000_0000_0000_0000 <= b <= 0x8000_0000_0000_0000,
    ;
    saturate(div_toward_zero((a as i128) * (b as i128), 1_000_000_000))
}

/// The quotient, rounded toward zero and saturated; zero for a zero divisor.
#[verifier::when_used_as_spec(spec_div)]
pub fn fx_div(a: Fixed, b: Fixed) -> (r: Fixed)
    ensures
        r == spec_div(a, b),
{
    saturate(div_toward_zero(scaled(a), b as i128))
}

/// The quotient by a plain integer, rounded toward zero; zero for a zero divisor.
#[verifier::when_used_as_spec(spec_div_int)]
pub fn fx_div_int(a: Fixed, k: i64) -> (r: Fixed)
    ensures
        r == spec_div_int(a, k),
{
    saturate(div_toward_zero(a as i128, k as i128))
}

/// The product with a plain integer, saturated.
#[verifier::when_used_as_spec(spec_mul_int)]
pub fn fx_mul_int(a: Fixed, k: i64) -> (r: Fixed)
    ensures
        r == spec_mul_int(a, k),
{
    assert(-0x4000_0000_0000_0000_0000_0000_0000_0000 <= a * k
        <= 0x4000_0000_0000_0000_0000_0000_0000_0000) by (nonlinear_arith)
        requires
            -0x8000_0000_0000_0000 <= a <= 0x8000_0000_0000_0000,
            -0x8000_0000_0000_0000 <= k <= 0x8000_0000_0000_0000,
    ;
    saturate((a as i128) * (k as i128))
}

/// The fraction `i / n` of a number, rounded toward zero once and saturated;
/// zero for `n == 0`.
#[verifier::when_used_as_spec(spec_mul_ratio)]
pub fn fx_mul_ratio(a: Fixed, i: i64, n: i64) -> (r: Fixed)
    ensures
        r == spec_mul_ratio(a, i, n),
{
    assert(-0x4000_0000_0000_0000_0000_0000_0000_0000 <= a * i
        <= 0x4000_0000_0000_0000_0000_0000_0000_0000) by (nonlinear_arith)
        requires
            -0x8000_0000_0000_0000 <= a <= 0x8000_0000_0000_0000,
            -0x8000_0000_0000_0000 <= i <= 0x8000_0000_0000_0000,
    ;
    saturate(div_toward_zero((a as i128) * (i as i128), n as i128))
}

/// The product of a fixed-point number and a wide one of less than twice
/// the width of a `Fixed`, rounded toward zero.
pub(crate) fn wide_mul(a: Fixed, b: Wide) -> (r: Wide)
    requires
        -0x2_0000_0000_0000_0000 < b < 0x2_0000_0000_0000_0000,
    ensures
        r == spec_wide_mul(a, b as int),
        -0x10_0000_0000_0000_0000_0000_0000 <= r <= 0x10_0000_0000_0000_0000_0000_0000,
{
    let am: u128 = if a < 0 { (-(a as i128)) as u128 } else { a as u128 };
    let bm: u128 = if b < 0 { (-b) as u128 } else { b as u128 };
    assert(0 <= am * bm <= 0xffff_ffff_ffff_ffff_8000_0000_0000_0000) by (nonlinear_arith)
        requires
            0 <= am <= 0x8000_0000_0000_0000,
            0 <= bm <= 0x1_ffff_ffff_ffff_ffff,
    ;
    proof {
        if (a < 0) == (b < 0) {
            assert(a * b == am * bm) by (nonlinear_arith)
                requires
                    (am == a && bm == b) || (am == -a && bm == -b),
            ;
        } else {
            assert(a * b == -(am * bm)) by (nonlinear_arith)
                requires
                    (am == a && bm == -b) || (am == -a && bm == b),
            ;
        }
    }
    let qm: u128 = (am * bm) / 1_000_000_000;
    if (a < 0) == (b < 0) {
        qm as i128
    } else {
        -(qm as i128)
    }
}

/// The fixed-point value of a plain integer, saturated.
#[verifier::when_used_as_spec(spec_from_int)]
pub fn from_int(n: i64) -> (r: Fixed)
    ensures
        r == spec_from_int(n),
{
    saturate(scaled(n))
}

/// The fixed-point value of `n / d`, rounded toward zero; zero for `d == 0`.
#[verifier::when_used_as_spec(spec_ratio)]
pub fn ratio(n: i64, d: i64) -> (r: Fixed)
    ensures
        r == spec_ratio(n, d),
{
    saturate(div_toward_zero(scaled(n), d as i128))
}

/// The largest `r` with `r * r <= n`.
pub fn isqrt(n: u128) -> (r: u64)
    ensures
        is_floor_sqrt(n as int, r as int),
        r == floor_sqrt(n as int),
{
    let mut lo: u128 = 0;
    let mut hi: u128 = 0x1_0000_0000_0000_0000;
    assert(0x1_0000_0000_0000_0000int * 0x1_0000_0000_0000_0000int > n) by (nonlinear_arith)
        requires
            n <= 0xffff_ffff_ffff_ffff_ffff_ffff_ffff_ffff,
    ;
    while hi - lo > 1
        invariant
            lo < hi <= 0x1_0000_0000_0000_0000,
            lo * lo <= n < hi * hi,
        decreases hi - lo,
    {
        let mid: u128 = lo + (hi - lo) / 2;
        assert(mid * mid <= 0xffff_ffff_ffff_ffff_ffff_ffff_ffff_ffff) by (nonlinear_arith)
            requires
                0 <= mid <= 0xffff_ffff_ffff_ffff,
        ;
        if mid * mid <= n {
            lo = mid;
        } else {
            hi = mid;
        }
    }
    proof {
        lemma_floor_sqrt_is(n as int, lo as int);
    }
    lo as u64
}

/// The length of the vector `(dx, dy)`, rounded down to the grid.
#[verifier::when_used_as_spec(spec_hypot)]
pub fn hypot(dx: Fixed, dy: Fixed) -> (r: Fixed)
    ensures
        r == spec_hypot(dx, dy),
{
    let xm: u128 = if dx < 0 { (-(dx as i128)) as u128 } else { dx as u128 };
    let ym: u128 = if dy < 0 { (-(dy as i128)) as u128 } else { dy as u128 };
    assert(xm * xm <= 0x4000_0000_0000_0000_0000_0000_0000_0000 && xm * xm == dx * dx)
        by (nonlinear_arith)
        requires
            xm <= 0x8000_0000_0000_0000,
            xm == dx || xm == -dx,
    ;
    assert(ym * ym <= 0x4000_0000_0000_0000_0000_0000_0000_0000 && ym * ym == dy * dy)
        by (nonlinear_arith)
        requires
            ym <= 0x8000_0000_0000_0000,
            ym == dy || ym == -dy,
    ;
    let root: u64 = isqrt(xm * xm + ym * ym);
    saturate(root as i128)
}

} // verus!
