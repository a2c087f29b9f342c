//! The estimated normal of a sphere points along the radius.
use vstd::prelude::*;
use crate::fixed::{is_isqrt, isqrt_spec, lemma_isqrt_is_root, Fixed, ONE};
use crate::math::{abs_spec, Vector3f};
use crate::raymarching::{gradient_spec, normal_spec, nudge_spec, tap_spec};
use crate::scene::Scene;

verus! {

/// The distance found at one corner about a point of a sphere, set
/// against the radius. For the point's offset `q` from the centre, of
/// the squared length `p` and the length `r` rounded down, and for the
/// corner's offset `e k` from the point with `a == k . q`, the root `f`
/// of the corner's squared distance from the centre is `r + e a / r`, to
/// within what the ensures clause states.
proof fn lemma_corner(p: int, r: int, e: int, a: int, f: int)
    requires
        e >= 1,
        r >= 2 * e + 31,
        r * r <= p < (r + 1) * (r + 1),
        a * a <= 3 * p,
        is_isqrt(p + 2 * e * a + 3 * (e * e), f),
    ensures
        -(2 * r + 2 * (e * e) + 4 * e + 1) <= 2 * (r * f - r * r - e * a) - e * e,
        2 * (r * f - r * r - e * a) - e * e <= 2 * r + 2 * (e * e),
{
    let s = p + 2 * e * a + 3 * (e * e);
    let rr = r * r;
    let ee = e * e;
    let ea = e * a;
    assert(2 * e * a == 2 * ea) by (nonlinear_arith)
        requires
            ea == e * a,
    ;
    // The corner's component along the radius is below twice the radius.
    assert((r + 1) * (r + 1) == rr + 2 * r + 1) by (nonlinear_arith)
        requires
            rr == r * r,
    ;
    assert(-(2 * r) <= a <= 2 * r) by (nonlinear_arith)
        requires
            a * a <= 3 * p,
            p <= rr + 2 * r,
            rr == r * r,
            r >= 23,
    ;
    assert(-(2 * r * e) <= ea <= 2 * r * e) by (nonlinear_arith)
        requires
            ea == e * a,
            -(2 * r) <= a <= 2 * r,
            e >= 1,
    ;
    let er = e * r;
    assert(2 * r * e == 2 * er) by (nonlinear_arith)
        requires
            er == e * r,
    ;
    // The root lies within `2 e + 2` of the radius.
    let hi = r + 2 * e + 1;
    assert(hi * hi == rr + 4 * er + 4 * ee + 2 * r + 4 * e + 1) by (nonlinear_arith)
        requires
            hi == r + 2 * e + 1,
            rr == r * r,
            er == e * r,
            ee == e * e,
    ;
    assert(f < hi) by (nonlinear_arith)
        requires
            f * f <= s,
            s < hi * hi,
            f >= 0,
            hi >= 0,
    ;
    let lo = r - 2 * e - 2;
    assert(lo * lo == rr - 4 * er + 4 * ee - 4 * r + 8 * e + 4) by (nonlinear_arith)
        requires
            lo == r - 2 * e - 2,
            rr == r * r,
            er == e * r,
            ee == e * e,
    ;
    assert(ee >= e) by (nonlinear_arith)
        requires
            ee == e * e,
            e >= 1,
    ;
    assert(er >= 2 * ee + 31 * e) by (nonlinear_arith)
        requires
            er == e * r,
            ee == e * e,
            r >= 2 * e + 31,
            e >= 1,
    ;
    assert(-7 * (r + 1) <= 4 * a <= 7 * (r + 1)) by (nonlinear_arith)
        requires
            a * a <= 3 * p,
            p <= rr + 2 * r,
            rr == r * r,
            r >= 23,
    ;
    assert(-7 * (er + e) <= 4 * ea) by (nonlinear_arith)
        requires
            ea == e * a,
            er == e * r,
            -7 * (r + 1) <= 4 * a,
            e >= 1,
    ;
    assert(lo * lo <= s);
    assert(f >= lo) by (nonlinear_arith)
        requires
            lo * lo <= s,
            s < (f + 1) * (f + 1),
            f >= 0,
            lo >= 0,
    ;
    let d = f - r;
    let rd = r * d;
    let dd = d * d;
    assert(f * f == rr + 2 * rd + dd) by (nonlinear_arith)
        requires
            d == f - r,
            rr == r * r,
            rd == r * d,
            dd == d * d,
    ;
    assert((f + 1) * (f + 1) == rr + 2 * rd + dd + 2 * r + 2 * d + 1) by (nonlinear_arith)
        requires
            d == f - r,
            rr == r * r,
            rd == r * d,
            dd == d * d,
    ;
    assert(r * f - r * r - e * a == rd - ea) by (nonlinear_arith)
        requires
            d == f - r,
            rd == r * d,
            ea == e * a,
    ;
    assert(0 <= dd) by (nonlinear_arith)
        requires
            dd == d * d,
    ;
    assert(dd + 2 * d + 1 <= 4 * ee + 4 * e + 1) by (nonlinear_arith)
        requires
            dd == d * d,
            ee == e * e,
            -(2 * e) - 2 <= d <= 2 * e,
            e >= 1,
    ;
}

/// A product is bounded by the bounds of its factors.
proof fn lemma_product_bound(x: int, y: int, bx: int, by: int)
    requires
        -bx <= x <= bx,
        -by <= y <= by,
    ensures
        -(bx * by) <= x * y <= bx * by,
{
    assert(-(bx * by) <= x * y <= bx * by) by (nonlinear_arith)
        requires
            -bx <= x <= bx,
            -by <= y <= by,
    ;
}

/// The square of `a q + e` and its product with `q`.
proof fn lemma_component(a: int, q: int, e: int, v: int)
    requires
        v == a * q + e,
    ensures
        v * v == a * (a * (q * q)) + 2 * (a * (e * q)) + e * e,
        v * q == a * (q * q) + e * q,
{
    assert(v * v == a * (a * (q * q)) + 2 * (a * (e * q)) + e * e) by (nonlinear_arith)
        requires
            v == a * q + e,
    ;
    assert(v * q == a * (q * q) + e * q) by (nonlinear_arith)
        requires
            v == a * q + e,
    ;
}

/// A vector `v` that is a positive multiple `a q` of a vector `q` but for
/// an error of at most `b` in each component, where `b` is at most nine
/// thousandths of `a` times the length of `q`, lies within one degree of
/// `q`: the cosine of the angle between them is not negative, and its
/// square is at least 0.9997.
proof fn lemma_nearly_parallel(
    a: int,
    b: int,
    r: int,
    qx: int,
    qy: int,
    qz: int,
    vx: int,
    vy: int,
    vz: int,
)
    requires
        a > 0,
        r > 0,
        b >= 0,
        -r <= qx <= r,
        -r <= qy <= r,
        -r <= qz <= r,
        qx * qx + qy * qy + qz * qz >= r * r,
        -b <= vx - a * qx <= b,
        -b <= vy - a * qy <= b,
        -b <= vz - a * qz <= b,
        1000 * b <= 9 * (a * r),
    ensures
        vx * qx + vy * qy + vz * qz > 0,
        10000 * ((vx * qx + vy * qy + vz * qz) * (vx * qx + vy * qy + vz * qz)) >= 9997 * ((vx
            * vx + vy * vy + vz * vz) * (qx * qx + qy * qy + qz * qz)),
{
    let p = qx * qx + qy * qy + qz * qz;
    let ex = vx - a * qx;
    let ey = vy - a * qy;
    let ez = vz - a * qz;
    let t = ex * qx + ey * qy + ez * qz;
    let tt = ex * ex + ey * ey + ez * ez;
    let dot = vx * qx + vy * qy + vz * qz;
    let vv = vx * vx + vy * vy + vz * vz;
    let m = a * r;
    let br = b * r;
    let bb = b * b;
    let ap = a * p;
    lemma_product_bound(ex, qx, b, r);
    lemma_product_bound(ey, qy, b, r);
    lemma_product_bound(ez, qz, b, r);
    lemma_product_bound(ex, ex, b, b);
    lemma_product_bound(ey, ey, b, b);
    lemma_product_bound(ez, ez, b, b);
    assert(-3 * br <= t <= 3 * br);
    assert(ex * ex >= 0 && ey * ey >= 0 && ez * ez >= 0) by (nonlinear_arith);
    assert(0 <= tt <= 3 * bb);
    lemma_component(a, qx, ex, vx);
    lemma_component(a, qy, ey, vy);
    lemma_component(a, qz, ez, vz);
    assert(ap == a * (qx * qx) + a * (qy * qy) + a * (qz * qz)) by (nonlinear_arith)
        requires
            ap == a * (qx * qx + qy * qy + qz * qz),
    ;
    assert(a * ap == a * (a * (qx * qx)) + a * (a * (qy * qy)) + a * (a * (qz * qz)))
        by (nonlinear_arith)
        requires
            ap == a * (qx * qx) + a * (qy * qy) + a * (qz * qz),
    ;
    assert(a * t == a * (ex * qx) + a * (ey * qy) + a * (ez * qz)) by (nonlinear_arith)
        requires
            t == ex * qx + ey * qy + ez * qz,
    ;
    assert(dot == ap + t);
    assert(vv == a * ap + 2 * (a * t) + tt);
    // The error is small against the multiple of `q`.
    assert(111 * b <= m);
    assert(m > 0) by (nonlinear_arith)
        requires
            m == a * r,
            a > 0,
            r > 0,
    ;
    assert(ap >= m * r) by (nonlinear_arith)
        requires
            ap == a * p,
            m == a * r,
            p >= r * r,
            a > 0,
    ;
    assert(m * r >= 111 * br) by (nonlinear_arith)
        requires
            111 * b <= m,
            br == b * r,
            r > 0,
    ;
    assert(m * r > 0) by (nonlinear_arith)
        requires
            m > 0,
            r > 0,
    ;
    assert(br >= 0) by (nonlinear_arith)
        requires
            br == b * r,
            b >= 0,
            r > 0,
    ;
    assert(dot > 0);
    assert(p > 0) by (nonlinear_arith)
        requires
            p >= r * r,
            r > 0,
    ;
    let apap = ap * ap;
    let apt = ap * t;
    let t2 = t * t;
    let ttp = tt * p;
    let apbr = ap * br;
    let bbp = bb * p;
    let mmp = m * m * p;
    assert(dot * dot == apap + 2 * apt + t2) by (nonlinear_arith)
        requires
            dot == ap + t,
            apap == ap * ap,
            apt == ap * t,
            t2 == t * t,
    ;
    assert(vv * p == apap + 2 * apt + ttp) by (nonlinear_arith)
        requires
            vv == a * ap + 2 * (a * t) + tt,
            ap == a * p,
            apap == ap * ap,
            apt == ap * t,
            ttp == tt * p,
    ;
    assert(t2 >= 0) by (nonlinear_arith)
        requires
            t2 == t * t,
    ;
    assert(apt >= -3 * apbr) by (nonlinear_arith)
        requires
            apt == ap * t,
            apbr == ap * br,
            -3 * br <= t,
            ap >= 0,
    ;
    assert(ttp <= 3 * bbp) by (nonlinear_arith)
        requires
            ttp == tt * p,
            bbp == bb * p,
            tt <= 3 * bb,
            p > 0,
    ;
    assert(1000 * apbr <= 9 * mmp) by (nonlinear_arith)
        requires
            apbr == ap * br,
            ap == a * p,
            br == b * r,
            m == a * r,
            mmp == m * m * p,
            1000 * b <= 9 * m,
            m > 0,
            p > 0,
    ;
    assert(1_000_000 * bbp <= 81 * mmp) by (nonlinear_arith)
        requires
            bbp == bb * p,
            bb == b * b,
            mmp == m * m * p,
            0 <= 1000 * b <= 9 * m,
            p > 0,
    ;
    assert(mmp <= apap) by (nonlinear_arith)
        requires
            mmp == m * m * p,
            apap == ap * ap,
            m == a * r,
            ap == a * p,
            p >= r * r,
            a > 0,
            r > 0,
    ;
    assert(mmp >= 0) by (nonlinear_arith)
        requires
            mmp == m * m * p,
            p > 0,
    ;
}

/// The gradient that is estimated of the distance to a sphere, set
/// against the radius: for the offset `(x, y, z)` of a point from the
/// centre, of the length `r` rounded down, and the roots `f1 .. f4` of
/// the four corners' squared distances from the centre, `r` times each
/// component of the gradient is `4 e` times the offset's component, to
/// within `2 (2 r + 2 e^2 + 4 e + 1)`.
proof fn lemma_gradient(
    x: int,
    y: int,
    z: int,
    r: int,
    e: int,
    f1: int,
    f2: int,
    f3: int,
    f4: int,
)
    requires
        e >= 1,
        r >= 2 * e + 31,
        r * r <= x * x + y * y + z * z < (r + 1) * (r + 1),
        is_isqrt(x * x + y * y + z * z + 2 * e * (x - y - z) + 3 * (e * e), f1),
        is_isqrt(x * x + y * y + z * z + 2 * e * (-x - y + z) + 3 * (e * e), f2),
        is_isqrt(x * x + y * y + z * z + 2 * e * (-x + y - z) + 3 * (e * e), f3),
        is_isqrt(x * x + y * y + z * z + 2 * e * (x + y + z) + 3 * (e * e), f4),
    ensures
        ({
            let bound = 2 * (2 * r + 2 * (e * e) + 4 * e + 1);
            &&& -bound <= r * (f1 - f2 - f3 + f4) - 4 * e * x <= bound
            &&& -bound <= r * (-f1 - f2 + f3 + f4) - 4 * e * y <= bound
            &&& -bound <= r * (-f1 + f2 - f3 + f4) - 4 * e * z <= bound
        }),
{
    let p = x * x + y * y + z * z;
    let a1 = x - y - z;
    let a2 = -x - y + z;
    let a3 = -x + y - z;
    let a4 = x + y + z;
    assert(a1 * a1 <= 3 * p && a2 * a2 <= 3 * p && a3 * a3 <= 3 * p && a4 * a4 <= 3 * p)
        by (nonlinear_arith)
        requires
            p == x * x + y * y + z * z,
            a1 == x - y - z,
            a2 == -x - y + z,
            a3 == -x + y - z,
            a4 == x + y + z,
    ;
    lemma_corner(p, r, e, a1, f1);
    lemma_corner(p, r, e, a2, f2);
    lemma_corner(p, r, e, a3, f3);
    lemma_corner(p, r, e, a4, f4);
    let ex = e * x;
    let ey = e * y;
    let ez = e * z;
    assert(e * a1 == ex - ey - ez && e * a2 == -ex - ey + ez && e * a3 == -ex + ey - ez && e
        * a4 == ex + ey + ez) by (nonlinear_arith)
        requires
            ex == e * x,
            ey == e * y,
            ez == e * z,
            a1 == x - y - z,
            a2 == -x - y + z,
            a3 == -x + y - z,
            a4 == x + y + z,
    ;
    assert(4 * e * x == 4 * ex && 4 * e * y == 4 * ey && 4 * e * z == 4 * ez) by (nonlinear_arith)
        requires
            ex == e * x,
            ey == e * y,
            ez == e * z,
    ;
    assert(r * (f1 - f2 - f3 + f4) == r * f1 - r * f2 - r * f3 + r * f4) by (nonlinear_arith);
    assert(r * (-f1 - f2 + f3 + f4) == -(r * f1) - r * f2 + r * f3 + r * f4) by (nonlinear_arith);
    assert(r * (-f1 + f2 - f3 + f4) == -(r * f1) + r * f2 - r * f3 + r * f4) by (nonlinear_arith);
}

/// One component of the gradient, scaled to length one and then by
/// `r n`, set against the offset's component `q`: for the gradient's
/// component `g` with `r g` within `bound` of `4 e q`, and the scaled
/// component `u` with `n u` within `n` of `k g` in millionths, `r n u` is
/// within `10^6 k bound + r n` of `4 * 10^6 e k q`.
proof fn lemma_scaled_component(
    q: int,
    r: int,
    e: int,
    g: int,
    k: int,
    n: int,
    u: int,
    bound: int,
)
    requires
        r >= 1,
        k >= 1,
        n >= 1,
        -bound <= r * g - 4 * e * q <= bound,
        n * u <= g * k * 1_000_000 < n * u + n,
    ensures
        -(1_000_000 * k * bound + r * n) <= r * n * u - 4 * e * 1_000_000 * k * q <= 1_000_000
            * k * bound + r * n,
{
    let w = g * k * 1_000_000;
    let nu = n * u;
    let d = r * g - 4 * e * q;
    assert(r * n * u == r * nu) by (nonlinear_arith)
        requires
            nu == n * u,
    ;
    assert(r * w - r * n <= r * nu <= r * w) by (nonlinear_arith)
        requires
            nu <= w < nu + n,
            r >= 1,
    ;
    assert(r * w == 1_000_000 * k * (r * g)) by (nonlinear_arith)
        requires
            w == g * k * 1_000_000,
    ;
    assert(1_000_000 * k * (r * g) == 1_000_000 * k * d + 4 * e * 1_000_000 * k * q)
        by (nonlinear_arith)
        requires
            d == r * g - 4 * e * q,
    ;
    assert(-(1_000_000 * k * bound) <= 1_000_000 * k * d <= 1_000_000 * k * bound)
        by (nonlinear_arith)
        requires
            -bound <= d <= bound,
            k >= 1,
    ;
    assert(r * n >= 0) by (nonlinear_arith)
        requires
            r >= 1,
            n >= 1,
    ;
}

/// Products of a scaled number.
proof fn lemma_scaled_products(c: int, u: int, q: int)
    ensures
        (c * u) * q == c * (u * q),
        (c * u) * (c * u) == c * c * (u * u),
{
    assert((c * u) * q == c * (u * q)) by (nonlinear_arith);
    assert((c * u) * (c * u) == c * c * (u * u)) by (nonlinear_arith);
}

/// The estimated gradient of the distance to a sphere, scaled to length
/// one, lies within one degree of the radius, where the radius is long
/// enough against the edge of the cube that the gradient is sampled at.
proof fn lemma_unit_gradient(
    x: int,
    y: int,
    z: int,
    r: int,
    e: int,
    gx: int,
    gy: int,
    gz: int,
    k: int,
    n: int,
    ux: int,
    uy: int,
    uz: int,
)
    requires
        e >= 1,
        r >= 1,
        r * r <= x * x + y * y + z * z < (r + 1) * (r + 1),
        4000 * (r + e * e + 2 * e + 1) <= 35 * (e * r),
        ({
            let bound = 2 * (2 * r + 2 * (e * e) + 4 * e + 1);
            &&& -bound <= r * gx - 4 * e * x <= bound
            &&& -bound <= r * gy - 4 * e * y <= bound
            &&& -bound <= r * gz - 4 * e * z <= bound
        }),
        k >= 1,
        n >= 1,
        n <= k * (abs_spec(gx) + abs_spec(gy) + abs_spec(gz)),
        n * ux <= gx * k * 1_000_000 < n * ux + n,
        n * uy <= gy * k * 1_000_000 < n * uy + n,
        n * uz <= gz * k * 1_000_000 < n * uz + n,
    ensures
        ux * x + uy * y + uz * z > 0,
        10000 * ((ux * x + uy * y + uz * z) * (ux * x + uy * y + uz * z)) >= 9997 * ((ux * ux
            + uy * uy + uz * uz) * (x * x + y * y + z * z)),
{
    let p = x * x + y * y + z * z;
    let ee = e * e;
    let er = e * r;
    let bound = 2 * (2 * r + 2 * ee + 4 * e + 1);
    let a = 4 * e * 1_000_000 * k;
    let rn = r * n;
    let b = 1_000_000 * k * bound + rn;
    // No component of the offset exceeds the radius.
    assert(-r <= x <= r && -r <= y <= r && -r <= z <= r) by (nonlinear_arith)
        requires
            x * x + y * y + z * z < (r + 1) * (r + 1),
            r >= 1,
    ;
    // The components of the gradient are at most `5 e`.
    assert(1000 * bound <= 35 * er);
    assert(4 * e * x == 4 * (e * x) && 4 * e * y == 4 * (e * y) && 4 * e * z == 4 * (e * z))
        by (nonlinear_arith);
    assert(-er <= e * x <= er && -er <= e * y <= er && -er <= e * z <= er) by (nonlinear_arith)
        requires
            er == e * r,
            -r <= x <= r,
            -r <= y <= r,
            -r <= z <= r,
            e >= 1,
    ;
    assert(abs_spec(gx) <= 5 * e && abs_spec(gy) <= 5 * e && abs_spec(gz) <= 5 * e) by (nonlinear_arith)
        requires
            -(5 * er) <= r * gx <= 5 * er,
            -(5 * er) <= r * gy <= 5 * er,
            -(5 * er) <= r * gz <= 5 * er,
            er == e * r,
            r >= 1,
            abs_spec(gx) == gx || abs_spec(gx) == -gx,
            abs_spec(gy) == gy || abs_spec(gy) == -gy,
            abs_spec(gz) == gz || abs_spec(gz) == -gz,
    ;
    assert(n <= 15 * (k * e)) by (nonlinear_arith)
        requires
            n <= k * (abs_spec(gx) + abs_spec(gy) + abs_spec(gz)),
            abs_spec(gx) + abs_spec(gy) + abs_spec(gz) <= 15 * e,
            k >= 1,
    ;
    lemma_scaled_component(x, r, e, gx, k, n, ux, bound);
    lemma_scaled_component(y, r, e, gy, k, n, uy, bound);
    lemma_scaled_component(z, r, e, gz, k, n, uz, bound);
    let vx = rn * ux;
    let vy = rn * uy;
    let vz = rn * uz;
    assert(a * x == 4 * e * 1_000_000 * k * x && a * y == 4 * e * 1_000_000 * k * y && a * z
        == 4 * e * 1_000_000 * k * z);
    assert(vx == r * n * ux && vy == r * n * uy && vz == r * n * uz);
    // The error is at most nine thousandths of the multiple of the radius.
    let ker = k * er;
    assert(a * r == 4_000_000 * ker) by (nonlinear_arith)
        requires
            a == 4 * e * 1_000_000 * k,
            ker == k * (e * r),
    ;
    assert(1000 * (1_000_000 * k * bound) <= 35_000_000 * ker) by (nonlinear_arith)
        requires
            1000 * bound <= 35 * er,
            ker == k * er,
            k >= 1,
    ;
    assert(rn <= 15 * ker) by (nonlinear_arith)
        requires
            rn == r * n,
            n <= 15 * (k * e),
            ker == k * (e * r),
            r >= 1,
    ;
    assert(ker >= 1) by (nonlinear_arith)
        requires
            ker == k * (e * r),
            k >= 1,
            e >= 1,
            r >= 1,
    ;
    assert(1000 * b <= 9 * (a * r));
    assert(rn >= 1) by (nonlinear_arith)
        requires
            rn == r * n,
            r >= 1,
            n >= 1,
    ;
    assert(b >= 0) by (nonlinear_arith)
        requires
            b == 1_000_000 * k * bound + rn,
            bound >= 0,
            k >= 1,
            rn >= 1,
    ;
    assert(a > 0) by (nonlinear_arith)
        requires
            a == 4 * e * 1_000_000 * k,
            e >= 1,
            k >= 1,
    ;
    lemma_nearly_parallel(a, b, r, x, y, z, vx, vy, vz);
    // What holds of `r n` times the unit vector holds of the unit vector.
    let dot = ux * x + uy * y + uz * z;
    let uu = ux * ux + uy * uy + uz * uz;
    let s = rn * rn;
    lemma_scaled_products(rn, ux, x);
    lemma_scaled_products(rn, uy, y);
    lemma_scaled_products(rn, uz, z);
    assert(rn * dot == rn * (ux * x) + rn * (uy * y) + rn * (uz * z)) by (nonlinear_arith)
        requires
            dot == ux * x + uy * y + uz * z,
    ;
    assert(s * uu == s * (ux * ux) + s * (uy * uy) + s * (uz * uz)) by (nonlinear_arith)
        requires
            uu == ux * ux + uy * uy + uz * uz,
    ;
    assert(vx * x + vy * y + vz * z == rn * dot);
    assert(vx * vx + vy * vy + vz * vz == s * uu);
    assert(s >= 1) by (nonlinear_arith)
        requires
            s == rn * rn,
            rn >= 1,
    ;
    assert(dot > 0) by (nonlinear_arith)
        requires
            rn * dot > 0,
            rn >= 1,
    ;
    assert((rn * dot) * (rn * dot) == s * (dot * dot)) by (nonlinear_arith)
        requires
            s == rn * rn,
    ;
    assert((s * uu) * p == s * (uu * p)) by (nonlinear_arith);
    assert(10000 * (dot * dot) >= 9997 * (uu * p)) by (nonlinear_arith)
        requires
            10000 * (s * (dot * dot)) >= 9997 * (s * (uu * p)),
            s >= 1,
    ;
}

/// Whether the coordinates of a point are small enough for the
/// arithmetic about it to stay exact: below `2^40` millionths.
pub open spec fn in_range(v: Vector3f) -> bool {
    &&& -0x100_0000_0000 <= v.x <= 0x100_0000_0000
    &&& -0x100_0000_0000 <= v.y <= 0x100_0000_0000
    &&& -0x100_0000_0000 <= v.z <= 0x100_0000_0000
}

/// The squared distance of one corner from the centre of a sphere.
spec fn corner_square(q: Vector3f, e: Fixed, x: bool, y: bool, z: bool) -> int {
    let cx = if x { q.x + e } else { q.x - e };
    let cy = if y { q.y + e } else { q.y - e };
    let cz = if z { q.z + e } else { q.z - e };
    cx * cx + cy * cy + cz * cz
}

/// The root of the squared distance of one corner from the centre of a
/// sphere.
spec fn corner_root(q: Vector3f, e: Fixed, x: bool, y: bool, z: bool) -> int {
    isqrt_spec(corner_square(q, e, x, y, z))
}

/// The square of a coordinate that is moved up or down by `e`.
proof fn lemma_moved_square(c: int, e: int)
    ensures
        (c + e) * (c + e) == c * c + 2 * (e * c) + e * e,
        (c - e) * (c - e) == c * c - 2 * (e * c) + e * e,
        (4 * e * c) * (4 * e * c) == 16 * (e * e * (c * c)),
{
    assert((c + e) * (c + e) == c * c + 2 * (e * c) + e * e) by (nonlinear_arith);
    assert((c - e) * (c - e) == c * c - 2 * (e * c) + e * e) by (nonlinear_arith);
    assert((4 * e * c) * (4 * e * c) == 16 * (e * e * (c * c))) by (nonlinear_arith);
}

/// In a scene of one sphere, the distance at a corner about a point is
/// the root of the corner's squared distance from the centre, less the
/// radius.
proof fn lemma_tap_of_sphere(scene: Scene, position: Vector3f, x: bool, y: bool, z: bool)
    requires
        scene.models@.len() == 1,
        scene.models@[0].sdf is Sphere,
        in_range(position),
        in_range(scene.models@[0].position),
        1 <= scene.epsilon <= 0x10_0000,
        -0x4000_0000_0000_0000 <= scene.models@[0].sdf->radius <= 0x4000_0000_0000_0000,
    ensures
        ({
            let q = position.sub_spec(scene.models@[0].position);
            let f = corner_root(q, scene.epsilon, x, y, z);
            &&& tap_spec(scene, position, x, y, z) == f - scene.models@[0].sdf->radius
            &&& is_isqrt(corner_square(q, scene.epsilon, x, y, z), f)
            &&& 0 <= f <= 0x800_0000_0000
            &&& q.x == position.x - scene.models@[0].position.x
            &&& q.y == position.y - scene.models@[0].position.y
            &&& q.z == position.z - scene.models@[0].position.z
        }),
{
    let model = scene.models@[0];
    let e = scene.epsilon;
    let q = position.sub_spec(model.position);
    let corner = Vector3f {
        x: nudge_spec(position.x, e, x),
        y: nudge_spec(position.y, e, y),
        z: nudge_spec(position.z, e, z),
    };
    let seen = corner.sub_spec(model.position);
    let cx = if x { q.x + e } else { q.x - e };
    let cy = if y { q.y + e } else { q.y - e };
    let cz = if z { q.z + e } else { q.z - e };
    assert(seen.x == cx && seen.y == cy && seen.z == cz);
    let s = cx * cx + cy * cy + cz * cz;
    assert(0 <= s <= 3 * (0x200_0010_0000 * 0x200_0010_0000)) by (nonlinear_arith)
        requires
            s == cx * cx + cy * cy + cz * cz,
            -0x200_0010_0000 <= cx <= 0x200_0010_0000,
            -0x200_0010_0000 <= cy <= 0x200_0010_0000,
            -0x200_0010_0000 <= cz <= 0x200_0010_0000,
    ;
    lemma_isqrt_is_root(s);
    let f = isqrt_spec(s);
    assert(f <= 0x800_0000_0000) by (nonlinear_arith)
        requires
            f >= 0,
            f * f <= s,
            s <= 3 * (0x200_0010_0000 * 0x200_0010_0000),
    ;
    assert(seen.norm_spec() == f);
    assert(model.distance_spec(corner) == f - model.sdf->radius);
    // The scene of one model is that model.
    let models = scene.models@;
    assert(models.drop_last().len() == 0);
    assert(models.last() == model);
    assert(Scene::surface_among(models, corner) == crate::surface::Surface::union_spec(
        Scene::surface_among(models.drop_last(), corner),
        model.surface_spec(corner),
    ));
}

/// The normal that is estimated of a sphere lies within one degree of the
/// radius. For a scene of one sphere and a point at the offset `q` from
/// the sphere's centre, whether on the sphere or off it, the cosine of
/// the angle between the normal and `q` is positive, and its square is at
/// least 0.9997, the square of the cosine of one degree. This holds where
/// the length `r` of the offset is long enough against the half-edge `e`
/// of the cube that the normal is sampled at: with the scene's usual
/// `e` of 0.0005, from `r == 0.08` on.
pub proof fn lemma_sphere_normal_is_radial(scene: Scene, position: Vector3f)
    requires
        scene.models@.len() == 1,
        scene.models@[0].sdf is Sphere,
        in_range(position),
        in_range(scene.models@[0].position),
        1 <= scene.epsilon <= 0x10_0000,
        -0x4000_0000_0000_0000 <= scene.models@[0].sdf->radius <= 0x4000_0000_0000_0000,
        ({
            let r = position.sub_spec(scene.models@[0].position).norm_spec();
            let e = scene.epsilon as int;
            4000 * (r + e * e + 2 * e + 1) <= 35 * (e * r)
        }),
    ensures
        ({
            let n = normal_spec(scene, position);
            let q = position.sub_spec(scene.models@[0].position);
            let dot = n.x * q.x + n.y * q.y + n.z * q.z;
            &&& dot > 0
            &&& 10000 * (dot * dot) >= 9997 * ((n.x * n.x + n.y * n.y + n.z * n.z) * (q.x * q.x
                + q.y * q.y + q.z * q.z))
        }),
{
    let model = scene.models@[0];
    let radius = model.sdf->radius;
    let e = scene.epsilon as int;
    let q = position.sub_spec(model.position);
    let x = q.x as int;
    let y = q.y as int;
    let z = q.z as int;
    let p = x * x + y * y + z * z;
    let r = q.norm_spec();
    let ee = e * e;
    let er = e * r;
    lemma_tap_of_sphere(scene, position, true, false, false);
    lemma_tap_of_sphere(scene, position, false, false, true);
    lemma_tap_of_sphere(scene, position, false, true, false);
    lemma_tap_of_sphere(scene, position, true, true, true);
    let f1 = corner_root(q, scene.epsilon, true, false, false);
    let f2 = corner_root(q, scene.epsilon, false, false, true);
    let f3 = corner_root(q, scene.epsilon, false, true, false);
    let f4 = corner_root(q, scene.epsilon, true, true, true);
    assert(p >= 0) by (nonlinear_arith)
        requires
            p == x * x + y * y + z * z,
    ;
    lemma_isqrt_is_root(p);
    assert(is_isqrt(p, r));
    // The radius is long against the edge of the cube.
    assert(ee >= 1 && er >= 0) by (nonlinear_arith)
        requires
            ee == e * e,
            er == e * r,
            e >= 1,
            r >= 0,
    ;
    if r == 0 {
        assert(er == 0) by (nonlinear_arith)
            requires
                er == e * r,
                r == 0,
        ;
    }
    assert(r >= 1);
    assert(e >= 115) by (nonlinear_arith)
        requires
            4000 * r < 35 * er,
            er == e * r,
            r >= 1,
    ;
    assert(r >= 114 * e) by (nonlinear_arith)
        requires
            4000 * ee <= 35 * er,
            er == e * r,
            ee == e * e,
            e >= 1,
    ;
    // The corners' squared distances from the centre.
    lemma_moved_square(x, e);
    lemma_moved_square(y, e);
    lemma_moved_square(z, e);
    let ex = e * x;
    let ey = e * y;
    let ez = e * z;
    assert(2 * e * (x - y - z) == 2 * ex - 2 * ey - 2 * ez && 2 * e * (-x - y + z) == -2 * ex - 2
        * ey + 2 * ez && 2 * e * (-x + y - z) == -2 * ex + 2 * ey - 2 * ez && 2 * e * (x + y + z)
        == 2 * ex + 2 * ey + 2 * ez) by (nonlinear_arith)
        requires
            ex == e * x,
            ey == e * y,
            ez == e * z,
    ;
    assert(corner_square(q, scene.epsilon, true, false, false) == p + 2 * e * (x - y - z) + 3 * (e
        * e));
    assert(corner_square(q, scene.epsilon, false, false, true) == p + 2 * e * (-x - y + z) + 3
        * (e * e));
    assert(corner_square(q, scene.epsilon, false, true, false) == p + 2 * e * (-x + y - z) + 3
        * (e * e));
    assert(corner_square(q, scene.epsilon, true, true, true) == p + 2 * e * (x + y + z) + 3 * (e
        * e));
    lemma_gradient(x, y, z, r, e, f1, f2, f3, f4);
    let g = gradient_spec(scene, position);
    assert(g.x == f1 - f2 - f3 + f4 && g.y == -f1 - f2 + f3 + f4 && g.z == -f1 + f2 - f3 + f4);
    let bound = 2 * (2 * r + 2 * ee + 4 * e + 1);
    // The gradient is not the zero vector.
    assert(g.x != 0 || g.y != 0 || g.z != 0) by {
        if g.x == 0 && g.y == 0 && g.z == 0 {
            let tx = 4 * e * x;
            let ty = 4 * e * y;
            let tz = 4 * e * z;
            assert(r * 0 == 0);
            assert(bound <= er);
            lemma_product_bound(tx, tx, bound, bound);
            lemma_product_bound(ty, ty, bound, bound);
            lemma_product_bound(tz, tz, bound, bound);
            assert(16 * (ee * (x * x)) + 16 * (ee * (y * y)) + 16 * (ee * (z * z)) == 16 * ee
                * p) by (nonlinear_arith)
                requires
                    p == x * x + y * y + z * z,
            ;
            assert(tx * tx + ty * ty + tz * tz == 16 * ee * p);
            assert(bound * bound <= er * er) by (nonlinear_arith)
                requires
                    0 <= bound <= er,
            ;
            assert(er * er == ee * (r * r)) by (nonlinear_arith)
                requires
                    er == e * r,
                    ee == e * e,
            ;
            assert(16 * ee * p >= 16 * (ee * (r * r))) by (nonlinear_arith)
                requires
                    p >= r * r,
                    ee >= 1,
            ;
            assert(ee * (r * r) >= 1) by (nonlinear_arith)
                requires
                    ee >= 1,
                    r >= 1,
            ;
            assert(false);
        }
    }
    g.lemma_normalize_parts();
    let n = normal_spec(scene, position);
    assert(ONE == 1_000_000);
    lemma_unit_gradient(
        x,
        y,
        z,
        r,
        e,
        g.x as int,
        g.y as int,
        g.z as int,
        g.stretch_spec(),
        g.stretched_norm_spec(),
        n.x as int,
        n.y as int,
        n.z as int,
    );
}

} // verus!
