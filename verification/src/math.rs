//! Vectors of two and three fixed-point components.
use vstd::prelude::*;
use vstd::arithmetic::div_mod::lemma_fundamental_div_mod;
use vstd::arithmetic::div_mod::lemma_mod_bound;
use crate::fixed::{
    floor_div_wide, is_isqrt, isqrt, isqrt_spec, lemma_isqrt_is_root, minus, minus_spec, mix,
    mix_spec, narrow, negate, negate_spec, plus, plus_spec, sat, times, times_spec, Fixed, ONE,
};

verus! {

/// A vector of two fixed-point components.
#[derive(Clone, Copy, Debug, PartialEq, Eq, Structural)]
pub struct Vector2f {
    pub x: Fixed,
    pub y: Fixed,
}

/// A vector of three fixed-point components.
#[derive(Clone, Copy, Debug, PartialEq, Eq, Structural)]
pub struct Vector3f {
    pub x: Fixed,
    pub y: Fixed,
    pub z: Fixed,
}

/// The absolute value of a component, which fits no `i64` at `i64::MIN`.
fn unsigned(c: Fixed) -> (r: u128)
    ensures
        r == if c < 0 { -c } else { c as int },
        r <= 0x8000_0000_0000_0000,
{
    if c < 0 {
        (-(c as i128)) as u128
    } else {
        c as u128
    }
}

/// The square of a component.
fn square(c: Fixed) -> (r: u128)
    ensures
        r == c * c,
        r <= 0x4000_0000_0000_0000_0000_0000_0000_0000,
{
    let a: u128 = unsigned(c);
    assert(a * a == c * c) by (nonlinear_arith)
        requires
            a == c || a == -c,
    ;
    assert(a * a <= 0x4000_0000_0000_0000_0000_0000_0000_0000) by (nonlinear_arith)
        requires
            0 <= a <= 0x8000_0000_0000_0000,
    ;
    a * a
}

/// A square root that was taken of an `u128`, as a fixed-point number.
fn narrow_root(r: u64) -> (m: Fixed)
    ensures
        m == sat(r as int),
{
    if r > 0x7fff_ffff_ffff_ffff {
        i64::MAX
    } else {
        r as i64
    }
}

/// The factor by which a short vector is stretched before it is scaled to
/// length one, so that its length is known to one part in `STRETCH`.
pub const STRETCH: i64 = 0x8000_0000;

/// The absolute value of a number.
pub open spec fn abs_spec(c: int) -> int {
    if c < 0 {
        -c
    } else {
        c
    }
}

/// The square of a stretched component.
fn square_wide(c: i128) -> (r: u128)
    requires
        -0x8000_0000_0000_0000 <= c <= 0x8000_0000_0000_0000,
    ensures
        r == c * c,
        r <= 0x4000_0000_0000_0000_0000_0000_0000_0000,
{
    let a: u128 = if c < 0 {
        (-c) as u128
    } else {
        c as u128
    };
    assert(a * a == c * c) by (nonlinear_arith)
        requires
            a == c || a == -c,
    ;
    assert(a * a <= 0x4000_0000_0000_0000_0000_0000_0000_0000) by (nonlinear_arith)
        requires
            0 <= a <= 0x8000_0000_0000_0000,
    ;
    a * a
}

/// `c * ONE / m`, rounded down.
fn unit_component(c: i128, m: u64) -> (r: Fixed)
    requires
        m > 0,
        -0x8000_0000_0000_0000 <= c <= 0x8000_0000_0000_0000,
    ensures
        r == sat(c * ONE / (m as int)),
{
    let n: i128 = c * 1_000_000;
    narrow(floor_div_wide(n, m as i128))
}

/// One component `u` of a vector that was scaled to length one, for the
/// component `a` of the vector and the vector's length `n`: `n u` is what
/// `a` is in millionths, to within `n`.
proof fn lemma_unit_component(a: int, n: int, u: int)
    requires
        n > 0,
        -n <= a <= n,
        n * u <= a * 1_000_000 < n * u + n,
    ensures
        -1_000_000 <= u <= 1_000_000,
        a * a * 1_000_000_000_000 - 2_000_000 * (n * n) <= n * n * (u * u),
        n * n * (u * u) <= a * a * 1_000_000_000_000 + 2_000_001 * (n * n),
{
    let t = a * 1_000_000;
    let r = t - n * u;
    assert(u <= 1_000_000) by (nonlinear_arith)
        requires
            n * u <= a * 1_000_000,
            a <= n,
            n > 0,
    ;
    assert(u >= -1_000_000) by (nonlinear_arith)
        requires
            a * 1_000_000 < n * u + n,
            -n <= a,
            n > 0,
    ;
    assert(n * n * (u * u) == (t - r) * (t - r)) by (nonlinear_arith)
        requires
            r == t - n * u,
    ;
    assert((t - r) * (t - r) == t * t - 2 * (t * r) + r * r) by (nonlinear_arith);
    assert(t * t == a * a * 1_000_000_000_000) by (nonlinear_arith)
        requires
            t == a * 1_000_000,
    ;
    assert(-(1_000_000 * (n * n)) <= t * r <= 1_000_000 * (n * n)) by (nonlinear_arith)
        requires
            t == a * 1_000_000,
            -n <= a <= n,
            0 <= r < n,
    ;
    assert(0 <= r * r <= n * n) by (nonlinear_arith)
        requires
            0 <= r < n,
    ;
}

impl Vector2f {
    /// The Euclidean length of the vector in millionths, before it is
    /// brought into the range of `Fixed`.
    pub open spec fn norm_spec(self) -> int {
        isqrt_spec(self.x * self.x + self.y * self.y)
    }

    /// The vector of the given components.
    pub fn new(x: Fixed, y: Fixed) -> (v: Self)
        ensures
            v == (Vector2f { x, y }),
    {
        Vector2f { x, y }
    }

    /// The Euclidean length in millionths, rounded down.
    pub fn norm(&self) -> (m: u64)
        ensures
            m == self.norm_spec(),
    {
        isqrt(square(self.x) + square(self.y))
    }
}

impl Vector3f {
    /// The sum of two vectors.
    pub open spec fn add_spec(self, other: Self) -> Self {
        Vector3f {
            x: plus_spec(self.x, other.x),
            y: plus_spec(self.y, other.y),
            z: plus_spec(self.z, other.z),
        }
    }

    /// The difference of two vectors.
    pub open spec fn sub_spec(self, other: Self) -> Self {
        Vector3f {
            x: minus_spec(self.x, other.x),
            y: minus_spec(self.y, other.y),
            z: minus_spec(self.z, other.z),
        }
    }

    /// The vector that points the other way.
    pub open spec fn neg_spec(self) -> Self {
        Vector3f { x: negate_spec(self.x), y: negate_spec(self.y), z: negate_spec(self.z) }
    }

    /// The vector times a scalar.
    pub open spec fn scale_spec(self, k: Fixed) -> Self {
        Vector3f { x: times_spec(self.x, k), y: times_spec(self.y, k), z: times_spec(self.z, k) }
    }

    /// The component-wise product.
    pub open spec fn mul_elements_spec(self, other: Self) -> Self {
        Vector3f {
            x: times_spec(self.x, other.x),
            y: times_spec(self.y, other.y),
            z: times_spec(self.z, other.z),
        }
    }

    /// The inner product, rounded down once, after the three products are
    /// summed.
    pub open spec fn dot_spec(self, other: Self) -> Fixed {
        sat((self.x * other.x + self.y * other.y + self.z * other.z) / (ONE as int))
    }

    /// The Euclidean length of the vector in millionths, before it is
    /// brought into the range of `Fixed`.
    pub open spec fn norm_spec(self) -> int {
        isqrt_spec(self.x * self.x + self.y * self.y + self.z * self.z)
    }

    /// The Euclidean length as a fixed-point number.
    pub open spec fn magnitude_spec(self) -> Fixed {
        sat(self.norm_spec())
    }

    /// The greatest absolute value among the components.
    pub open spec fn widest_spec(self) -> int {
        let x = abs_spec(self.x as int);
        let y = abs_spec(self.y as int);
        let z = abs_spec(self.z as int);
        if x >= y && x >= z {
            x
        } else if y >= z {
            y
        } else {
            z
        }
    }

    /// The factor by which the vector is stretched before it is scaled to
    /// length one: `STRETCH` for a vector whose components are all below
    /// `STRETCH`, and one for the others.
    pub open spec fn stretch_spec(self) -> int {
        if self.widest_spec() < STRETCH {
            STRETCH as int
        } else {
            1
        }
    }

    /// The length of the stretched vector, rounded down.
    pub open spec fn stretched_norm_spec(self) -> int {
        let k = self.stretch_spec();
        isqrt_spec(
            (self.x * k) * (self.x * k) + (self.y * k) * (self.y * k) + (self.z * k) * (self.z
                * k),
        )
    }

    /// The vector scaled to length one: each component of the stretched
    /// vector over the stretched vector's length, rounded down to a
    /// millionth. The zero vector stays as it is.
    pub open spec fn normalize_spec(self) -> Self {
        let k = self.stretch_spec();
        let n = self.stretched_norm_spec();
        if n == 0 {
            self
        } else {
            Vector3f {
                x: sat(self.x * k * ONE / n),
                y: sat(self.y * k * ONE / n),
                z: sat(self.z * k * ONE / n),
            }
        }
    }

    /// How a vector that is not the zero vector is scaled to length one:
    /// each component, times the length `n` of the stretched vector, is
    /// the stretched component in millionths, to within `n`; and `n` is at
    /// most the sum of the stretched components' absolute values.
    pub proof fn lemma_normalize_parts(self)
        requires
            self.x != 0 || self.y != 0 || self.z != 0,
        ensures
            ({
                let u = self.normalize_spec();
                let k = self.stretch_spec();
                let n = self.stretched_norm_spec();
                &&& k >= 1
                &&& n >= 1
                &&& n <= k * (abs_spec(self.x as int) + abs_spec(self.y as int) + abs_spec(
                    self.z as int,
                ))
                &&& n * u.x <= self.x * k * ONE < n * u.x + n
                &&& n * u.y <= self.y * k * ONE < n * u.y + n
                &&& n * u.z <= self.z * k * ONE < n * u.z + n
            }),
    {
        let k = self.stretch_spec();
        let a = self.x * k;
        let b = self.y * k;
        let c = self.z * k;
        let s = a * a + b * b + c * c;
        let n = self.stretched_norm_spec();
        self.lemma_normalize_is_unit();
        assert(STRETCH == 0x8000_0000);
        assert(a * a >= 0 && b * b >= 0 && c * c >= 0) by (nonlinear_arith);
        lemma_isqrt_is_root(s);
        assert(is_isqrt(s, n));
        let sum = abs_spec(a) + abs_spec(b) + abs_spec(c);
        assert(s <= sum * sum) by (nonlinear_arith)
            requires
                s == a * a + b * b + c * c,
                sum == abs_spec(a) + abs_spec(b) + abs_spec(c),
                abs_spec(a) == a || abs_spec(a) == -a,
                abs_spec(b) == b || abs_spec(b) == -b,
                abs_spec(c) == c || abs_spec(c) == -c,
                abs_spec(a) >= 0,
                abs_spec(b) >= 0,
                abs_spec(c) >= 0,
        ;
        assert(n <= sum) by (nonlinear_arith)
            requires
                n * n <= s,
                s <= sum * sum,
                n >= 0,
                sum >= 0,
        ;
        let plain = abs_spec(self.x as int) + abs_spec(self.y as int) + abs_spec(self.z as int);
        if k == 1 {
            assert(a == self.x && b == self.y && c == self.z);
            assert(sum == plain);
            assert(k * plain == plain);
        } else {
            assert(k == 0x8000_0000);
            assert(a == self.x * 0x8000_0000 && b == self.y * 0x8000_0000 && c == self.z
                * 0x8000_0000);
            assert(sum == 0x8000_0000 * plain);
            assert(k * plain == 0x8000_0000 * plain);
        }
        assert(sum == k * plain);
        assert(a != 0 || b != 0 || c != 0);
        assert(s >= 1) by (nonlinear_arith)
            requires
                s == a * a + b * b + c * c,
                a != 0 || b != 0 || c != 0,
        ;
        assert(n >= 1) by (nonlinear_arith)
            requires
                n >= 0,
                s < (n + 1) * (n + 1),
                s >= 1,
        ;
        assert(-n <= a <= n && -n <= b <= n && -n <= c <= n) by (nonlinear_arith)
            requires
                n >= 0,
                s < (n + 1) * (n + 1),
                s == a * a + b * b + c * c,
        ;
        lemma_fundamental_div_mod(a * 1_000_000, n);
        lemma_mod_bound(a * 1_000_000, n);
        lemma_fundamental_div_mod(b * 1_000_000, n);
        lemma_mod_bound(b * 1_000_000, n);
        lemma_fundamental_div_mod(c * 1_000_000, n);
        lemma_mod_bound(c * 1_000_000, n);
        lemma_unit_component(a, n, a * 1_000_000 / n);
        lemma_unit_component(b, n, b * 1_000_000 / n);
        lemma_unit_component(c, n, c * 1_000_000 / n);
        assert(ONE == 1_000_000);
    }

    /// A vector that is not the zero vector is scaled to length one within
    /// four millionths, and none of its components then exceeds one.
    pub proof fn lemma_normalize_is_unit(self)
        requires
            self.x != 0 || self.y != 0 || self.z != 0,
        ensures
            ({
                let u = self.normalize_spec();
                &&& -ONE <= u.x <= ONE
                &&& -ONE <= u.y <= ONE
                &&& -ONE <= u.z <= ONE
                &&& (ONE - 4) * (ONE - 4) <= u.x * u.x + u.y * u.y + u.z * u.z
                &&& u.x * u.x + u.y * u.y + u.z * u.z <= (ONE + 4) * (ONE + 4)
            }),
    {
        let k = self.stretch_spec();
        let a = self.x * k;
        let b = self.y * k;
        let c = self.z * k;
        let s = a * a + b * b + c * c;
        let n = self.stretched_norm_spec();
        let wide = self.widest_spec() * k;
        assert(STRETCH == 0x8000_0000);
        assert(self.widest_spec() >= 1);
        if k == 1 {
            assert(wide == self.widest_spec());
            assert(a == self.x && b == self.y && c == self.z);
        } else {
            assert(wide == self.widest_spec() * 0x8000_0000);
            assert(a == self.x * 0x8000_0000 && b == self.y * 0x8000_0000 && c == self.z
                * 0x8000_0000);
        }
        assert(wide >= 0x8000_0000 && (wide == a || wide == -a || wide == b || wide == -b || wide
            == c || wide == -c));
        assert(a * a >= 0 && b * b >= 0 && c * c >= 0) by (nonlinear_arith);
        assert(s >= wide * wide) by (nonlinear_arith)
            requires
                s == a * a + b * b + c * c,
                wide == a || wide == -a || wide == b || wide == -b || wide == c || wide == -c,
        ;
        lemma_isqrt_is_root(s);
        assert(n == isqrt_spec(s));
        assert(is_isqrt(s, n));
        // The length is at least the widest component, and no component
        // exceeds the length.
        assert(n >= 0x8000_0000) by (nonlinear_arith)
            requires
                n >= 0,
                s < (n + 1) * (n + 1),
                s >= wide * wide,
                wide >= 0x8000_0000,
        ;
        assert(-n <= a <= n && -n <= b <= n && -n <= c <= n) by (nonlinear_arith)
            requires
                n >= 0,
                s < (n + 1) * (n + 1),
                s == a * a + b * b + c * c,
        ;
        let ux = a * 1_000_000 / n;
        let uy = b * 1_000_000 / n;
        let uz = c * 1_000_000 / n;
        lemma_fundamental_div_mod(a * 1_000_000, n);
        lemma_mod_bound(a * 1_000_000, n);
        lemma_fundamental_div_mod(b * 1_000_000, n);
        lemma_mod_bound(b * 1_000_000, n);
        lemma_fundamental_div_mod(c * 1_000_000, n);
        lemma_mod_bound(c * 1_000_000, n);
        lemma_unit_component(a, n, ux);
        lemma_unit_component(b, n, uy);
        lemma_unit_component(c, n, uz);
        let q = ux * ux + uy * uy + uz * uz;
        let nn = n * n;
        assert(nn * q == nn * (ux * ux) + nn * (uy * uy) + nn * (uz * uz)) by (nonlinear_arith)
            requires
                q == ux * ux + uy * uy + uz * uz,
        ;
        assert((a * a + b * b + c * c) * 1_000_000_000_000 == a * a * 1_000_000_000_000 + b * b
            * 1_000_000_000_000 + c * c * 1_000_000_000_000) by (nonlinear_arith);
        assert((n + 1) * (n + 1) == nn + 2 * n + 1) by (nonlinear_arith)
            requires
                nn == n * n,
        ;
        assert(1_000_000_000_000 * (2 * n + 1) <= 932 * nn) by (nonlinear_arith)
            requires
                nn == n * n,
                n >= 0x8000_0000,
        ;
        // n^2 (10^12 - 6 * 10^6) <= n^2 q <= n^2 (10^12 + 6 * 10^6 + 935)
        assert(q >= 999_994_000_000) by (nonlinear_arith)
            requires
                nn * q >= nn * 999_994_000_000,
                nn > 0,
        ;
        assert(q <= 1_000_006_000_935) by (nonlinear_arith)
            requires
                nn * q <= nn * 1_000_006_000_935,
                nn > 0,
        ;
        assert(ONE == 1_000_000);
    }

    /// The blend `self + (other - self) * t`, component by component.
    pub open spec fn mix_spec(self, other: Self, t: Fixed) -> Self {
        Vector3f {
            x: mix_spec(self.x, other.x, t),
            y: mix_spec(self.y, other.y, t),
            z: mix_spec(self.z, other.z, t),
        }
    }

    /// The vector of the given components.
    pub fn new(x: Fixed, y: Fixed, z: Fixed) -> (v: Self)
        ensures
            v == (Vector3f { x, y, z }),
    {
        Vector3f { x, y, z }
    }

    /// The vector whose components are all zero.
    pub fn zero() -> (v: Self)
        ensures
            v == (Vector3f { x: 0, y: 0, z: 0 }),
    {
        Vector3f { x: 0, y: 0, z: 0 }
    }

    /// The sum of two vectors.
    pub fn add(&self, other: &Self) -> (v: Self)
        ensures
            v == self.add_spec(*other),
    {
        Vector3f {
            x: plus(self.x, other.x),
            y: plus(self.y, other.y),
            z: plus(self.z, other.z),
        }
    }

    /// The difference of two vectors.
    pub fn sub(&self, other: &Self) -> (v: Self)
        ensures
            v == self.sub_spec(*other),
    {
        Vector3f {
            x: minus(self.x, other.x),
            y: minus(self.y, other.y),
            z: minus(self.z, other.z),
        }
    }

    /// The vector that points the other way.
    pub fn neg(&self) -> (v: Self)
        ensures
            v == self.neg_spec(),
    {
        Vector3f { x: negate(self.x), y: negate(self.y), z: negate(self.z) }
    }

    /// The vector times a scalar.
    pub fn scale(&self, k: Fixed) -> (v: Self)
        ensures
            v == self.scale_spec(k),
    {
        Vector3f { x: times(self.x, k), y: times(self.y, k), z: times(self.z, k) }
    }

    /// The component-wise product of two vectors.
    pub fn mul_elements(&self, other: &Self) -> (v: Self)
        ensures
            v == self.mul_elements_spec(*other),
    {
        Vector3f {
            x: times(self.x, other.x),
            y: times(self.y, other.y),
            z: times(self.z, other.z),
        }
    }

    /// The inner product of two vectors.
    pub fn dot(&self, other: &Self) -> (d: Fixed)
        ensures
            d == self.dot_spec(*other),
    {
        let (qx, rx) = split_product(self.x, other.x);
        let (qy, ry) = split_product(self.y, other.y);
        let (qz, rz) = split_product(self.z, other.z);
        let carry: i128 = (rx + ry + rz) / 1_000_000;
        narrow(qx + qy + qz + carry)
    }

    /// The Euclidean length in millionths, rounded down.
    pub fn norm(&self) -> (m: u64)
        ensures
            m == self.norm_spec(),
    {
        isqrt(square(self.x) + square(self.y) + square(self.z))
    }

    /// The Euclidean length as a fixed-point number.
    pub fn magnitude(&self) -> (m: Fixed)
        ensures
            m == self.magnitude_spec(),
    {
        narrow_root(self.norm())
    }

    /// The vector scaled to length one, to within four millionths.
    pub fn normalize(&self) -> (v: Self)
        ensures
            v == self.normalize_spec(),
    {
        let short: bool = unsigned(self.x) < 0x8000_0000 && unsigned(self.y) < 0x8000_0000
            && unsigned(self.z) < 0x8000_0000;
        let k: i128 = if short {
            0x8000_0000
        } else {
            1
        };
        assert(k == self.stretch_spec());
        let a: i128 = self.x as i128 * k;
        let b: i128 = self.y as i128 * k;
        let c: i128 = self.z as i128 * k;
        let n: u64 = isqrt(square_wide(a) + square_wide(b) + square_wide(c));
        if n == 0 {
            *self
        } else {
            Vector3f {
                x: unit_component(a, n),
                y: unit_component(b, n),
                z: unit_component(c, n),
            }
        }
    }

    /// The blend of two vectors with weight `t`.
    pub fn mix(&self, other: &Self, t: Fixed) -> (v: Self)
        ensures
            v == self.mix_spec(*other, t),
    {
        Vector3f {
            x: mix(self.x, other.x, t),
            y: mix(self.y, other.y, t),
            z: mix(self.z, other.z, t),
        }
    }
}

/// The product `a * b` as a whole number of units and a rest below one unit.
fn split_product(a: Fixed, b: Fixed) -> (qr: (i128, i128))
    ensures
        a * b == qr.0 * ONE + qr.1,
        0 <= qr.1 < ONE,
        -0x4000_0000_0000_0000_0000_0000_0000 <= qr.0 <= 0x4000_0000_0000_0000_0000_0000_0000,
{
    assert(-0x4000_0000_0000_0000_0000_0000_0000_0000 <= a * b
        <= 0x4000_0000_0000_0000_0000_0000_0000_0000) by (nonlinear_arith)
        requires
            -0x8000_0000_0000_0000 <= a <= 0x8000_0000_0000_0000,
            -0x8000_0000_0000_0000 <= b <= 0x8000_0000_0000_0000,
    ;
    let p: i128 = a as i128 * b as i128;
    let q: i128 = floor_div_wide(p, 1_000_000);
    (q, p - q * 1_000_000)
}

} // verus!
