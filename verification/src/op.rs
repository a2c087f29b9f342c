//! Boolean and smooth operators on signed distances.
//!
//! The smooth operators blend two distances over a band of width `k`.
//! Each comes with the weight `h` in `[0, ONE]` that it blends by, so that
//! an appearance can be blended by the same weight.
use vstd::prelude::*;
use vstd::arithmetic::div_mod::lemma_fundamental_div_mod;
use vstd::arithmetic::div_mod::lemma_mod_bound;
use crate::fixed::{
    clamp, clamp_spec, floor_div_wide, max, max_spec, min, min_spec, mix, mix_spec, narrow,
    negate, negate_spec, sat, Fixed, ONE,
};

verus! {

/// The error of an operator that was given a parameter outside its domain.
#[derive(Clone, Copy, Debug, PartialEq, Eq, Structural)]
pub struct InvalidParameter;

/// The union of two shapes: the smaller distance.
pub open spec fn union_spec(d1: Fixed, d2: Fixed) -> Fixed {
    min_spec(d1, d2)
}

/// The negated larger distance.
pub open spec fn subtraction_spec(d1: Fixed, d2: Fixed) -> Fixed {
    negate_spec(max_spec(d1, d2))
}

/// The intersection of two shapes: the larger distance.
pub open spec fn intersection_spec(d1: Fixed, d2: Fixed) -> Fixed {
    max_spec(d1, d2)
}

/// The blend weight `clamp(1/2 + x / (2 k), 0, 1)` of a smooth operator,
/// for a difference `x` of distances and a band `k > 0`.
pub open spec fn weight_spec(x: int, k: Fixed) -> Fixed {
    clamp_spec(sat(ONE / 2 + x * ONE / (2 * k)), 0, ONE)
}

/// The term `k * h * (1 - h)` by which a smooth operator rounds the seam.
pub open spec fn bump_spec(k: Fixed, h: Fixed) -> int {
    k * h * (ONE - h) / (ONE * ONE)
}

/// The weight of the smooth union: `clamp(1/2 + (d2 - d1) / (2 k), 0, 1)`.
pub open spec fn smooth_union_weight(d1: Fixed, d2: Fixed, k: Fixed) -> Fixed {
    weight_spec(d2 - d1, k)
}

/// The weight of the smooth subtraction:
/// `clamp(1/2 - (d2 + d1) / (2 k), 0, 1)`.
pub open spec fn smooth_subtraction_weight(d1: Fixed, d2: Fixed, k: Fixed) -> Fixed {
    weight_spec(-(d2 + d1), k)
}

/// The weight of the smooth intersection:
/// `clamp(1/2 - (d2 - d1) / (2 k), 0, 1)`.
pub open spec fn smooth_intersection_weight(d1: Fixed, d2: Fixed, k: Fixed) -> Fixed {
    weight_spec(-(d2 - d1), k)
}

/// `mix(d2, d1, h) - k h (1 - h)` at the weight of the smooth union.
pub open spec fn smooth_union_spec(d1: Fixed, d2: Fixed, k: Fixed) -> Fixed {
    let h = smooth_union_weight(d1, d2, k);
    sat(mix_spec(d2, d1, h) - bump_spec(k, h))
}

/// `mix(d2, -d1, h) + k h (1 - h)` at the weight of the smooth subtraction.
pub open spec fn smooth_subtraction_spec(d1: Fixed, d2: Fixed, k: Fixed) -> Fixed {
    let h = smooth_subtraction_weight(d1, d2, k);
    sat(mix_spec(d2, negate_spec(d1), h) + bump_spec(k, h))
}

/// `mix(d2, d1, h) + k h (1 - h)` at the weight of the smooth intersection.
pub open spec fn smooth_intersection_spec(d1: Fixed, d2: Fixed, k: Fixed) -> Fixed {
    let h = smooth_intersection_weight(d1, d2, k);
    sat(mix_spec(d2, d1, h) + bump_spec(k, h))
}

/// The union of two distances is their minimum: it is one of the two and
/// exceeds neither.
pub proof fn lemma_union_is_min(d1: Fixed, d2: Fixed)
    ensures
        union_spec(d1, d2) <= d1,
        union_spec(d1, d2) <= d2,
        union_spec(d1, d2) == d1 || union_spec(d1, d2) == d2,
{
}

/// A blend with a weight in `[0, ONE]` lies between its two ends.
pub proof fn lemma_mix_between(x: Fixed, y: Fixed, t: Fixed)
    requires
        0 <= t <= ONE,
    ensures
        min_spec(x, y) <= mix_spec(x, y, t) <= max_spec(x, y),
        mix_spec(x, y, t) == x + (y - x) * t / (ONE as int),
{
    let d = y - x;
    if d >= 0 {
        assert(0 <= d * t <= d * ONE) by (nonlinear_arith)
            requires
                d >= 0,
                0 <= t <= ONE,
        ;
    } else {
        assert(d * ONE <= d * t <= 0) by (nonlinear_arith)
            requires
                d < 0,
                0 <= t <= ONE,
        ;
    }
}

/// Where two distances are a band or more apart, the weight of a smooth
/// operator is at one of its ends.
pub proof fn lemma_weight_outside_band(x: int, k: Fixed)
    requires
        k > 0,
    ensures
        x >= k ==> weight_spec(x, k) == ONE,
        x <= -k ==> weight_spec(x, k) == 0,
{
    let n = x * 1_000_000;
    let f = n / (2 * k);
    lemma_fundamental_div_mod(n, 2 * k);
    lemma_mod_bound(n, 2 * k);
    assert(ONE == 1_000_000);
    if x >= k {
        assert(f >= 500_000) by (nonlinear_arith)
            requires
                n == 2 * k * f + n % (2 * k),
                0 <= n % (2 * k) < 2 * k,
                n >= k * 1_000_000,
                k > 0,
        ;
    }
    if x <= -k {
        assert(f <= -500_000) by (nonlinear_arith)
            requires
                n == 2 * k * f + n % (2 * k),
                0 <= n % (2 * k) < 2 * k,
                n <= -k * 1_000_000,
                k > 0,
        ;
    }
}

/// The rounding term of a smooth operator is at most a quarter of the band.
pub proof fn lemma_bump_bound(k: Fixed, h: Fixed)
    requires
        k > 0,
        0 <= h <= ONE,
    ensures
        0 <= bump_spec(k, h),
        4 * bump_spec(k, h) <= k,
{
    let g = h * (1_000_000 - h);
    assert(0 <= g <= 250_000_000_000) by (nonlinear_arith)
        requires
            g == h * (1_000_000 - h),
            0 <= h <= 1_000_000,
    ;
    assert(0 <= k * g <= k * 250_000_000_000) by (nonlinear_arith)
        requires
            k > 0,
            0 <= g <= 250_000_000_000,
    ;
    assert(k * h * (1_000_000 - h) == k * g) by (nonlinear_arith)
        requires
            g == h * (1_000_000 - h),
    ;
    assert(ONE * ONE == 1_000_000_000_000);
    assert(bump_spec(k, h) == (k * g) / 1_000_000_000_000);
}

/// Where the second distance is the larger one, the smooth union exceeds
/// the first by at most a quarter of the band.
proof fn lemma_smooth_union_left(e: int, k: int, h: int, f: int, l: int, b: int)
    requires
        k > 0,
        e > 0,
        2 * k * f <= e * 1_000_000 < 2 * k * (f + 1),
        h == 500_000 + f,
        500_000 <= h < 1_000_000,
        l * 1_000_000 <= e * (1_000_000 - h),
        b * 1_000_000_000_000 > k * h * (1_000_000 - h) - 1_000_000_000_000,
        b >= 0,
    ensures
        4 * (l - b) <= k,
{
    let g = 1_000_000 - h;
    let eg = e * g;
    let khg = k * h * g;
    assert(e * 1_000_000 * g == 1_000_000 * eg) by (nonlinear_arith)
        requires
            eg == e * g,
    ;
    assert(e * 1_000_000 * g <= (2 * k * (f + 1) - 1) * g) by (nonlinear_arith)
        requires
            e * 1_000_000 <= 2 * k * (f + 1) - 1,
            g >= 1,
    ;
    assert((2 * k * (f + 1) - 1) * g - khg == k * g * (2 - g) - g) by (nonlinear_arith)
        requires
            h == 500_000 + f,
            g == 1_000_000 - h,
            khg == k * h * g,
    ;
    // So far: (l - b) * 10^12 < k * g * (2 - g) - g + 10^12.
    if g >= 2 {
        assert(k * g * (2 - g) <= 0) by (nonlinear_arith)
            requires
                k > 0,
                g >= 2,
        ;
    } else {
        assert(k * g * (2 - g) == k) by (nonlinear_arith)
            requires
                g == 1,
        ;
        if k <= 1_000_000 {
            assert(2 * k * (f + 1) == k * 1_000_000) by (nonlinear_arith)
                requires
                    f == 499_999,
            ;
            assert(e * 1_000_000 < k * 1_000_000);
            assert(eg == e) by (nonlinear_arith)
                requires
                    eg == e * g,
                    g == 1,
            ;
        }
    }
}

/// Where the first distance is the larger one, the smooth union does not
/// exceed the second.
proof fn lemma_smooth_union_right(d: int, k: int, h: int, f: int, l: int, b: int)
    requires
        k > 0,
        d > 0,
        2 * k * f <= -d * 1_000_000,
        h == 500_000 + f,
        0 < h <= 500_000,
        l * 1_000_000 <= d * h,
        b * 1_000_000_000_000 > k * h * (1_000_000 - h) - 1_000_000_000_000,
    ensures
        l - b <= 0,
{
    let dh = d * h;
    let kh = k * h;
    assert(2 * k * f == 2 * kh - k * 1_000_000) by (nonlinear_arith)
        requires
            h == 500_000 + f,
            kh == k * h,
    ;
    assert(d * 1_000_000 * h == 1_000_000 * dh) by (nonlinear_arith)
        requires
            dh == d * h,
    ;
    assert(d * 1_000_000 * h <= (k * 1_000_000 - 2 * kh) * h) by (nonlinear_arith)
        requires
            d * 1_000_000 <= k * 1_000_000 - 2 * kh,
            h > 0,
    ;
    assert((k * 1_000_000 - 2 * kh) * h - k * h * (1_000_000 - h) == -(kh * h))
        by (nonlinear_arith)
        requires
            kh == k * h,
    ;
    assert(kh * h >= 0) by (nonlinear_arith)
        requires
            kh == k * h,
            k > 0,
    ;
}

/// The smooth union differs from the plain union by at most a quarter of
/// the band `k`, so it tends to the plain union as the band shrinks.
pub proof fn lemma_smooth_union_near_union(d1: Fixed, d2: Fixed, k: Fixed)
    requires
        k > 0,
    ensures
        4 * (union_spec(d1, d2) - smooth_union_spec(d1, d2, k)) <= k,
        4 * (smooth_union_spec(d1, d2, k) - union_spec(d1, d2)) <= k,
{
    let h = smooth_union_weight(d1, d2, k);
    let x = d2 - d1;
    let n = x * 1_000_000;
    let f = n / (2 * k);
    let b = bump_spec(k, h);
    let m = mix_spec(d2, d1, h);
    let p = (d1 - d2) * h;
    assert(ONE == 1_000_000 && ONE * ONE == 1_000_000_000_000);
    lemma_mix_between(d2, d1, h);
    lemma_bump_bound(k, h);
    lemma_fundamental_div_mod(n, 2 * k);
    lemma_mod_bound(n, 2 * k);
    assert(2 * k * (f + 1) == 2 * k * f + 2 * k) by (nonlinear_arith);
    assert(p == -(x * h)) by (nonlinear_arith)
        requires
            p == (d1 - d2) * h,
            x == d2 - d1,
    ;
    assert(x * (1_000_000 - h) == n - x * h) by (nonlinear_arith)
        requires
            n == x * 1_000_000,
    ;
    assert(m == d2 + p / 1_000_000);
    assert(b == (k * h * (1_000_000 - h)) / 1_000_000_000_000);
    if x > 0 {
        assert(f >= 0) by (nonlinear_arith)
            requires
                n == 2 * k * f + n % (2 * k),
                0 <= n % (2 * k) < 2 * k,
                n > 0,
                k > 0,
        ;
        if h < ONE {
            lemma_smooth_union_left(x, k as int, h as int, f, m - d1, b);
        } else {
            assert(p == (d1 - d2) * 1_000_000);
            assert(k * h * (1_000_000 - h) == 0) by (nonlinear_arith)
                requires
                    h == 1_000_000,
            ;
        }
    } else if x < 0 {
        assert(f < 0) by (nonlinear_arith)
            requires
                n == 2 * k * f + n % (2 * k),
                0 <= n % (2 * k) < 2 * k,
                n < 0,
                k > 0,
        ;
        if h > 0 {
            lemma_smooth_union_right(-x, k as int, h as int, f, m - d2, b);
        } else {
            assert(p == 0);
            assert(k * h * (1_000_000 - h) == 0) by (nonlinear_arith)
                requires
                    h == 0,
            ;
        }
    } else {
        assert(p == 0) by (nonlinear_arith)
            requires
                p == (d1 - d2) * h,
                d1 - d2 == 0,
        ;
    }
}

/// Where the first distance is the larger one, the smooth intersection
/// falls short of it by two millionths at most, and by a millionth of a
/// millionth of the band.
proof fn lemma_smooth_intersection_left(d: int, k: int, h: int, f: int, c: int, b: int)
    requires
        k > 0,
        d > 0,
        2 * k * f <= d * 1_000_000 < 2 * k * (f + 1),
        h == 500_000 + f,
        500_000 <= h < 1_000_000,
        (c - 1) * 1_000_000 < d * (1_000_000 - h),
        b * 1_000_000_000_000 > k * h * (1_000_000 - h) - 1_000_000_000_000,
        b >= 0,
    ensures
        (c - b - 2) * 1_000_000_000_000 < k,
{
    let g = 1_000_000 - h;
    let dg = d * g;
    let khg = k * h * g;
    assert(d * 1_000_000 * g == 1_000_000 * dg) by (nonlinear_arith)
        requires
            dg == d * g,
    ;
    assert(d * 1_000_000 * g <= (2 * k * (f + 1) - 1) * g) by (nonlinear_arith)
        requires
            d * 1_000_000 <= 2 * k * (f + 1) - 1,
            g >= 1,
    ;
    assert((2 * k * (f + 1) - 1) * g - khg == k * g * (2 - g) - g) by (nonlinear_arith)
        requires
            h == 500_000 + f,
            g == 1_000_000 - h,
            khg == k * h * g,
    ;
    // So far: (c - 1 - b) * 10^12 < k * g * (2 - g) - g + 10^12.
    if g >= 2 {
        assert(k * g * (2 - g) <= 0) by (nonlinear_arith)
            requires
                k > 0,
                g >= 2,
        ;
    } else {
        assert(k * g * (2 - g) == k) by (nonlinear_arith)
            requires
                g == 1,
        ;
        if k <= 1_000_000 {
            assert(2 * k * (f + 1) == k * 1_000_000) by (nonlinear_arith)
                requires
                    f == 499_999,
            ;
            assert(dg == d) by (nonlinear_arith)
                requires
                    dg == d * g,
                    g == 1,
            ;
        }
    }
}

/// Where the second distance is the larger one, the smooth intersection
/// falls short of it by a millionth at most.
proof fn lemma_smooth_intersection_right(e: int, k: int, h: int, f: int, c: int, b: int)
    requires
        k > 0,
        e > 0,
        2 * k * f <= -e * 1_000_000,
        h == 500_000 + f,
        0 < h <= 500_000,
        (c - 1) * 1_000_000 < e * h,
        b * 1_000_000_000_000 > k * h * (1_000_000 - h) - 1_000_000_000_000,
    ensures
        c - b <= 1,
{
    let eh = e * h;
    let kh = k * h;
    assert(2 * k * f == 2 * kh - k * 1_000_000) by (nonlinear_arith)
        requires
            h == 500_000 + f,
            kh == k * h,
    ;
    assert(e * 1_000_000 * h == 1_000_000 * eh) by (nonlinear_arith)
        requires
            eh == e * h,
    ;
    assert(e * 1_000_000 * h <= (k * 1_000_000 - 2 * kh) * h) by (nonlinear_arith)
        requires
            e * 1_000_000 <= k * 1_000_000 - 2 * kh,
            h > 0,
    ;
    assert((k * 1_000_000 - 2 * kh) * h - k * h * (1_000_000 - h) == -(kh * h))
        by (nonlinear_arith)
        requires
            kh == k * h,
    ;
    assert(kh * h >= 0) by (nonlinear_arith)
        requires
            kh == k * h,
            k > 0,
    ;
}

/// The smooth intersection exceeds the plain intersection by at most a
/// quarter of the band `k`, and falls short of it by at most two
/// millionths and a millionth of a millionth of the band, so it tends to
/// the plain intersection as the band shrinks.
pub proof fn lemma_smooth_intersection_near_intersection(d1: Fixed, d2: Fixed, k: Fixed)
    requires
        k > 0,
    ensures
        4 * (smooth_intersection_spec(d1, d2, k) - intersection_spec(d1, d2)) <= k,
        intersection_spec(d1, d2) - smooth_intersection_spec(d1, d2, k) <= 2 + (k as int) / (ONE * ONE),
{
    let h = smooth_intersection_weight(d1, d2, k);
    let x = d1 - d2;
    let n = x * 1_000_000;
    let f = n / (2 * k);
    let b = bump_spec(k, h);
    let m = mix_spec(d2, d1, h);
    let p = x * h;
    assert(ONE == 1_000_000 && ONE * ONE == 1_000_000_000_000);
    assert(-(d2 - d1) == x);
    lemma_mix_between(d2, d1, h);
    lemma_bump_bound(k, h);
    lemma_fundamental_div_mod(n, 2 * k);
    lemma_mod_bound(n, 2 * k);
    assert(2 * k * (f + 1) == 2 * k * f + 2 * k) by (nonlinear_arith);
    assert(p == (d1 - d2) * h);
    assert(x * (1_000_000 - h) == n - p) by (nonlinear_arith)
        requires
            n == x * 1_000_000,
            p == x * h,
    ;
    assert(m == d2 + p / 1_000_000);
    assert(b == (k * h * (1_000_000 - h)) / 1_000_000_000_000);
    if x > 0 {
        assert(f >= 0) by (nonlinear_arith)
            requires
                n == 2 * k * f + n % (2 * k),
                0 <= n % (2 * k) < 2 * k,
                n > 0,
                k > 0,
        ;
        if h < ONE {
            lemma_smooth_intersection_left(x, k as int, h as int, f, d1 - m, b);
        } else {
            assert(p == (d1 - d2) * 1_000_000);
        }
    } else if x < 0 {
        assert(f < 0) by (nonlinear_arith)
            requires
                n == 2 * k * f + n % (2 * k),
                0 <= n % (2 * k) < 2 * k,
                n < 0,
                k > 0,
        ;
        if h > 0 {
            assert((-x) * h == -p) by (nonlinear_arith)
                requires
                    p == x * h,
            ;
            assert(-(-x) * 1_000_000 == n) by (nonlinear_arith)
                requires
                    n == x * 1_000_000,
            ;
            lemma_smooth_intersection_right(-x, k as int, h as int, f, d2 - m, b);
        } else {
            assert(p == 0);
        }
    } else {
        assert(p == 0) by (nonlinear_arith)
            requires
                p == x * h,
                x == 0,
        ;
    }
}

/// The smooth subtraction of a shape is the smooth intersection with the
/// shape turned inside out.
pub proof fn lemma_smooth_subtraction_is_intersection(d1: Fixed, d2: Fixed, k: Fixed)
    requires
        d1 > i64::MIN,
    ensures
        smooth_subtraction_spec(d1, d2, k) == smooth_intersection_spec(negate_spec(d1), d2, k),
        smooth_subtraction_weight(d1, d2, k) == smooth_intersection_weight(
            negate_spec(d1),
            d2,
            k,
        ),
{
}

/// The union of two shapes: the smaller distance.
pub fn union(d1: Fixed, d2: Fixed) -> (r: Fixed)
    ensures
        r == union_spec(d1, d2),
{
    min(d1, d2)
}

/// The negated larger distance.
pub fn subtraction(d1: Fixed, d2: Fixed) -> (r: Fixed)
    ensures
        r == subtraction_spec(d1, d2),
{
    negate(max(d1, d2))
}

/// The intersection of two shapes: the larger distance.
pub fn intersection(d1: Fixed, d2: Fixed) -> (r: Fixed)
    ensures
        r == intersection_spec(d1, d2),
{
    max(d1, d2)
}

/// The blend weight for a difference `x` of two distances.
fn weight(x: i128, k: Fixed) -> (h: Fixed)
    requires
        k > 0,
        -0x1_0000_0000_0000_0000 <= x <= 0x1_0000_0000_0000_0000,
    ensures
        h == weight_spec(x as int, k),
        0 <= h <= ONE,
{
    let q: i128 = floor_div_wide(x * 1_000_000, 2 * (k as i128));
    clamp(narrow(500_000 + q), 0, ONE)
}

/// The rounding term of a smooth operator.
fn bump(k: Fixed, h: Fixed) -> (b: i128)
    requires
        k > 0,
        0 <= h <= ONE,
    ensures
        b == bump_spec(k, h),
        0 <= b <= k / 4,
{
    assert(0 <= h * (1_000_000 - h) <= 250_000_000_000) by (nonlinear_arith)
        requires
            0 <= h <= 1_000_000,
    ;
    let g: i128 = h as i128 * (1_000_000 - h as i128);
    assert(0 <= k * g <= k * 250_000_000_000) by (nonlinear_arith)
        requires
            k > 0,
            0 <= g <= 250_000_000_000,
    ;
    assert(k * h * (ONE - h) == k * g) by (nonlinear_arith)
        requires
            g == h * (1_000_000 - h),
    ;
    let p: i128 = k as i128 * g;
    p / 1_000_000_000_000
}

/// The smooth union of two distances, with its blend weight.
pub fn smooth_union_weighted(d1: Fixed, d2: Fixed, k: Fixed) -> (r: Result<
    (Fixed, Fixed),
    InvalidParameter,
>)
    ensures
        k > 0 ==> r == Ok::<(Fixed, Fixed), InvalidParameter>(
            (smooth_union_spec(d1, d2, k), smooth_union_weight(d1, d2, k)),
        ),
        k <= 0 ==> r == Err::<(Fixed, Fixed), InvalidParameter>(InvalidParameter),
{
    if k <= 0 {
        return Err(InvalidParameter);
    }
    let h: Fixed = weight(d2 as i128 - d1 as i128, k);
    let d: Fixed = narrow(mix(d2, d1, h) as i128 - bump(k, h));
    Ok((d, h))
}

/// The smooth subtraction of two distances, with its blend weight.
pub fn smooth_subtraction_weighted(d1: Fixed, d2: Fixed, k: Fixed) -> (r: Result<
    (Fixed, Fixed),
    InvalidParameter,
>)
    ensures
        k > 0 ==> r == Ok::<(Fixed, Fixed), InvalidParameter>(
            (smooth_subtraction_spec(d1, d2, k), smooth_subtraction_weight(d1, d2, k)),
        ),
        k <= 0 ==> r == Err::<(Fixed, Fixed), InvalidParameter>(InvalidParameter),
{
    if k <= 0 {
        return Err(InvalidParameter);
    }
    let h: Fixed = weight(-(d2 as i128 + d1 as i128), k);
    let d: Fixed = narrow(mix(d2, negate(d1), h) as i128 + bump(k, h));
    Ok((d, h))
}

/// The smooth intersection of two distances, with its blend weight.
pub fn smooth_intersection_weighted(d1: Fixed, d2: Fixed, k: Fixed) -> (r: Result<
    (Fixed, Fixed),
    InvalidParameter,
>)
    ensures
        k > 0 ==> r == Ok::<(Fixed, Fixed), InvalidParameter>(
            (smooth_intersection_spec(d1, d2, k), smooth_intersection_weight(d1, d2, k)),
        ),
        k <= 0 ==> r == Err::<(Fixed, Fixed), InvalidParameter>(InvalidParameter),
{
    if k <= 0 {
        return Err(InvalidParameter);
    }
    let h: Fixed = weight(-(d2 as i128 - d1 as i128), k);
    let d: Fixed = narrow(mix(d2, d1, h) as i128 + bump(k, h));
    Ok((d, h))
}

/// The smooth union of two distances over a band `k`, which must be
/// positive.
pub fn smooth_union(d1: Fixed, d2: Fixed, k: Fixed) -> (r: Result<Fixed, InvalidParameter>)
    ensures
        k > 0 ==> r == Ok::<Fixed, InvalidParameter>(smooth_union_spec(d1, d2, k)),
        k <= 0 ==> r == Err::<Fixed, InvalidParameter>(InvalidParameter),
{
    match smooth_union_weighted(d1, d2, k) {
        Ok(dh) => Ok(dh.0),
        Err(e) => Err(e),
    }
}

/// The smooth subtraction of two distances over a band `k`, which must be
/// positive.
pub fn smooth_subtraction(d1: Fixed, d2: Fixed, k: Fixed) -> (r: Result<Fixed, InvalidParameter>)
    ensures
        k > 0 ==> r == Ok::<Fixed, InvalidParameter>(smooth_subtraction_spec(d1, d2, k)),
        k <= 0 ==> r == Err::<Fixed, InvalidParameter>(InvalidParameter),
{
    match smooth_subtraction_weighted(d1, d2, k) {
        Ok(dh) => Ok(dh.0),
        Err(e) => Err(e),
    }
}

/// The smooth intersection of two distances over a band `k`, which must be
/// positive.
pub fn smooth_intersection(d1: Fixed, d2: Fixed, k: Fixed) -> (r: Result<Fixed, InvalidParameter>)
    ensures
        k > 0 ==> r == Ok::<Fixed, InvalidParameter>(smooth_intersection_spec(d1, d2, k)),
        k <= 0 ==> r == Err::<Fixed, InvalidParameter>(InvalidParameter),
{
    match smooth_intersection_weighted(d1, d2, k) {
        Ok(dh) => Ok(dh.0),
        Err(e) => Err(e),
    }
}

} // verus!
