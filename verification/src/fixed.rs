//! Fixed-point scalars: an `i64` that counts millionths, with saturating
//! arithmetic that rounds towards negative infinity.
use vstd::prelude::*;
use vstd::arithmetic::div_mod::lemma_fundamental_div_mod;
use vstd::arithmetic::div_mod::lemma_fundamental_div_mod_converse;

verus! {

/// A fixed-point number. The value `v` stands for the real number `v / ONE`.
pub type Fixed = i64;

/// The fixed-point number one.
pub const ONE: i64 = 1_000_000;

/// Half a turn: the number pi, rounded to a millionth.
pub const PI: i64 = 3_141_593;

/// The nearest `i64` to `x`.
pub open spec fn sat(x: int) -> Fixed {
    if x < i64::MIN {
        i64::MIN
    } else if x > i64::MAX {
        i64::MAX
    } else {
        x as i64
    }
}

/// The sum of two fixed-point numbers.
pub open spec fn plus_spec(a: Fixed, b: Fixed) -> Fixed {
    sat(a + b)
}

/// The difference of two fixed-point numbers.
pub open spec fn minus_spec(a: Fixed, b: Fixed) -> Fixed {
    sat(a - b)
}

/// The negation of a fixed-point number.
pub open spec fn negate_spec(a: Fixed) -> Fixed {
    sat(-a)
}

/// The product of two fixed-point numbers, rounded down.
pub open spec fn times_spec(a: Fixed, b: Fixed) -> Fixed {
    sat(a * b / (ONE as int))
}

/// The smaller of two numbers.
pub open spec fn min_spec(a: Fixed, b: Fixed) -> Fixed {
    if a <= b {
        a
    } else {
        b
    }
}

/// The larger of two numbers.
pub open spec fn max_spec(a: Fixed, b: Fixed) -> Fixed {
    if a >= b {
        a
    } else {
        b
    }
}

/// `v` held between `lo` and `hi`. Where `lo > hi`, the lower bound wins
/// for every `v` at or below it, and `hi` is returned otherwise.
pub open spec fn clamp_spec(v: Fixed, lo: Fixed, hi: Fixed) -> Fixed {
    if v > lo {
        if v < hi {
            v
        } else {
            hi
        }
    } else {
        lo
    }
}

/// The linear blend `x + (y - x) * t`: `x` at `t == 0`, `y` at `t == ONE`.
pub open spec fn mix_spec(x: Fixed, y: Fixed, t: Fixed) -> Fixed {
    sat(x + (y - x) * t / (ONE as int))
}

/// A blend with the weight nothing is the one end, and with the weight
/// one the other.
pub proof fn lemma_mix_ends(x: Fixed, y: Fixed)
    ensures
        mix_spec(x, y, 0) == x,
        mix_spec(x, y, ONE) == y,
{
    assert((y - x) * 0 == 0);
    assert((y - x) * ONE / (ONE as int) == y - x);
}

/// `r` is the integer square root of `n`.
pub open spec fn is_isqrt(n: int, r: int) -> bool {
    0 <= r && r * r <= n && n < (r + 1) * (r + 1)
}

/// The integer square root of a natural number: the greatest `r` with
/// `r * r <= n`.
pub open spec fn isqrt_spec(n: int) -> int {
    choose|r: int| is_isqrt(n, r)
}

/// `base` multiplied by itself `n` times in fixed point.
pub open spec fn pow_spec(base: Fixed, n: nat) -> Fixed
    decreases n,
{
    if n == 0 {
        ONE
    } else {
        times_spec(pow_spec(base, (n - 1) as nat), base)
    }
}

/// The square root of a number that is not negative, rounded down to a
/// millionth.
pub open spec fn root_spec(base: Fixed) -> Fixed {
    isqrt_spec(base * ONE) as Fixed
}

/// `base` raised to the fraction `rest / ONE` below one, which is read to
/// `bits` binary places: the product of the square root of `base` where
/// the fraction holds a half, of the root of that root where it holds a
/// quarter, and so on.
pub open spec fn root_power_spec(base: Fixed, rest: Fixed, bits: nat) -> Fixed
    decreases bits,
{
    if bits == 0 || rest <= 0 {
        ONE
    } else if 2 * rest >= ONE {
        times_spec(
            root_spec(base),
            root_power_spec(root_spec(base), (2 * rest - ONE) as Fixed, (bits - 1) as nat),
        )
    } else {
        root_power_spec(root_spec(base), (2 * rest) as Fixed, (bits - 1) as nat)
    }
}

/// A base that is not negative raised to an exponent that is not
/// negative: the whole power times the power of the exponent's fraction,
/// which is read to twenty binary places.
pub open spec fn raise_spec(base: Fixed, exponent: Fixed) -> Fixed {
    times_spec(
        pow_spec(base, (exponent / ONE) as nat),
        root_power_spec(base, (exponent % ONE) as Fixed, 20),
    )
}

/// A base that is not negative raised to a real exponent. A negative
/// exponent gives one over the power of the exponent negated, and the
/// greatest number there is where that power is nothing.
pub open spec fn power_spec(base: Fixed, exponent: Fixed) -> Fixed {
    if exponent >= 0 {
        raise_spec(base, exponent)
    } else {
        let q = raise_spec(base, negate_spec(exponent));
        if q <= 0 {
            i64::MAX
        } else {
            sat(ONE * ONE / (q as int))
        }
    }
}

/// Once a power is the same as the one before it, all higher powers are.
pub proof fn lemma_pow_settles(base: Fixed, i: nat, n: nat)
    requires
        i <= n,
        pow_spec(base, i + 1) == pow_spec(base, i),
    ensures
        pow_spec(base, n) == pow_spec(base, i),
    decreases n - i,
{
    if i < n {
        lemma_pow_settles(base, i, (n - 1) as nat);
    }
}

/// The sine of an angle `t` between nothing and half a turn, as the
/// fraction `16 t (PI - t) / (5 PI^2 - 4 t (PI - t))` gives it, rounded
/// down to a millionth.
pub open spec fn half_wave_spec(t: int) -> int {
    16 * (t * (PI - t)) * ONE / (5 * (PI * PI) - 4 * (t * (PI - t)))
}

/// The sine of an angle: the half wave of what is left of the angle when
/// the whole turns are taken off it, negated in the second half of a turn.
pub open spec fn sine_spec(x: Fixed) -> Fixed {
    let t = (x as int) % (2 * PI);
    if t <= PI {
        half_wave_spec(t as int) as Fixed
    } else {
        (-half_wave_spec(t - PI)) as Fixed
    }
}

/// The half wave rises from nothing to one and falls back.
pub proof fn lemma_half_wave_bounds(t: int)
    requires
        0 <= t <= PI,
    ensures
        0 <= half_wave_spec(t) <= ONE,
        5 * (PI * PI) - 4 * (t * (PI - t)) > 0,
        0 <= t * (PI - t) <= 2_467_401_644_412,
{
    let g = t * (3_141_593 - t);
    assert(g >= 0) by (nonlinear_arith)
        requires
            g == t * (3_141_593 - t),
            0 <= t <= 3_141_593,
    ;
    assert(4 * g <= 9_869_606_577_649) by (nonlinear_arith)
        requires
            g == t * (3_141_593 - t),
    ;
    assert(PI * PI == 9_869_606_577_649);
    let den = 5 * 9_869_606_577_649 - 4 * g;
    let num = 16 * g * 1_000_000;
    assert(num <= den * 1_000_000);
    assert(0 <= num / den <= 1_000_000) by (nonlinear_arith)
        requires
            0 <= num <= den * 1_000_000,
            den > 0,
    ;
}

/// The sine lies between minus one and one.
pub proof fn lemma_sine_bounds(x: Fixed)
    ensures
        -ONE <= sine_spec(x) <= ONE,
{
    let t = (x as int) % (2 * PI);
    if t <= PI {
        lemma_half_wave_bounds(t as int);
    } else {
        lemma_half_wave_bounds(t - PI);
    }
}

/// The product of two numbers between minus one and one lies between
/// minus one and one.
pub proof fn lemma_times_within_unit(a: Fixed, b: Fixed)
    requires
        -ONE <= a <= ONE,
        -ONE <= b <= ONE,
    ensures
        -ONE <= times_spec(a, b) <= ONE,
{
    assert(-1_000_000_000_000 <= a * b <= 1_000_000_000_000) by (nonlinear_arith)
        requires
            -1_000_000 <= a <= 1_000_000,
            -1_000_000 <= b <= 1_000_000,
    ;
}

/// The integer square root is unique.
pub proof fn lemma_isqrt_unique(n: int, r: int)
    requires
        is_isqrt(n, r),
    ensures
        isqrt_spec(n) == r,
{
    let c = isqrt_spec(n);
    assert(is_isqrt(n, c));
    if c < r {
        assert((c + 1) * (c + 1) <= r * r) by (nonlinear_arith)
            requires
                0 <= c + 1 <= r,
        ;
    } else if r < c {
        assert((r + 1) * (r + 1) <= c * c) by (nonlinear_arith)
            requires
                0 <= r + 1 <= c,
        ;
    }
}

/// Every natural number has an integer square root.
pub proof fn lemma_isqrt_is_root(n: int)
    requires
        n >= 0,
    ensures
        is_isqrt(n, isqrt_spec(n)),
    decreases n,
{
    if n == 0 {
        assert(is_isqrt(0, 0));
    } else {
        lemma_isqrt_is_root(n - 1);
        let r = isqrt_spec(n - 1);
        assert((r + 2) * (r + 2) > (r + 1) * (r + 1)) by (nonlinear_arith)
            requires
                r >= 0,
        ;
        if (r + 1) * (r + 1) <= n {
            assert(is_isqrt(n, r + 1));
        } else {
            assert(is_isqrt(n, r));
        }
    }
}

/// The nearest `i64` to `x`.
pub(crate) fn narrow(x: i128) -> (r: i64)
    ensures
        r == sat(x as int),
{
    if x < i64::MIN as i128 {
        i64::MIN
    } else if x > i64::MAX as i128 {
        i64::MAX
    } else {
        x as i64
    }
}

/// Division that rounds towards negative infinity.
pub(crate) fn floor_div_wide(n: i128, d: i128) -> (q: i128)
    requires
        d > 0,
        n > i128::MIN,
    ensures
        q == n / d,
        n >= 0 ==> 0 <= q <= n,
        n < 0 ==> n <= q < 0,
{
    if n >= 0 {
        assert(0 <= n / d <= n) by (nonlinear_arith)
            requires
                n >= 0,
                d >= 1,
        ;
        n / d
    } else {
        let m: i128 = -n;
        assert(0 <= m / d <= m) by (nonlinear_arith)
            requires
                m >= 0,
                d >= 1,
        ;
        let q: i128 = m / d;
        let r: i128 = m % d;
        proof {
            lemma_fundamental_div_mod(m as int, d as int);
            assert(d * (m / d) == (m / d) * d) by (nonlinear_arith);
            assert(q * d >= q) by (nonlinear_arith)
                requires
                    q >= 0,
                    d >= 1,
            ;
            assert(q == 0 ==> q * d == 0) by (nonlinear_arith);
        }
        if r == 0 {
            proof {
                assert((-q) * d == -(q * d)) by (nonlinear_arith);
                lemma_fundamental_div_mod_converse(n as int, d as int, -q, 0);
            }
            -q
        } else {
            proof {
                assert((-q - 1) * d == -(q * d) - d) by (nonlinear_arith);
                lemma_fundamental_div_mod_converse(n as int, d as int, -q - 1, d - r);
            }
            -q - 1
        }
    }
}

/// The sum of two numbers.
pub fn plus(a: Fixed, b: Fixed) -> (r: Fixed)
    ensures
        r == plus_spec(a, b),
{
    narrow(a as i128 + b as i128)
}

/// The difference of two numbers.
pub fn minus(a: Fixed, b: Fixed) -> (r: Fixed)
    ensures
        r == minus_spec(a, b),
{
    narrow(a as i128 - b as i128)
}

/// The negation of a number.
pub fn negate(a: Fixed) -> (r: Fixed)
    ensures
        r == negate_spec(a),
{
    narrow(-(a as i128))
}

/// The product of two numbers, rounded down to a millionth.
pub fn times(a: Fixed, b: Fixed) -> (r: Fixed)
    ensures
        r == times_spec(a, b),
{
    assert(-0x4000_0000_0000_0000_0000_0000_0000_0000 <= a * b
        <= 0x4000_0000_0000_0000_0000_0000_0000_0000) by (nonlinear_arith)
        requires
            -0x8000_0000_0000_0000 <= a <= 0x8000_0000_0000_0000,
            -0x8000_0000_0000_0000 <= b <= 0x8000_0000_0000_0000,
    ;
    let p: i128 = a as i128 * b as i128;
    narrow(floor_div_wide(p, ONE as i128))
}

/// The smaller of two numbers.
pub fn min(a: Fixed, b: Fixed) -> (r: Fixed)
    ensures
        r == min_spec(a, b),
{
    if a <= b {
        a
    } else {
        b
    }
}

/// The larger of two numbers.
pub fn max(a: Fixed, b: Fixed) -> (r: Fixed)
    ensures
        r == max_spec(a, b),
{
    if a >= b {
        a
    } else {
        b
    }
}

/// `nalgebra::clamp` on `i64`: `val` where it lies strictly between `lo`
/// and `hi`, `lo` where `val <= lo`, and `hi` otherwise.
#[verifier::external_body]
pub(crate) fn clamp(val: Fixed, lo: Fixed, hi: Fixed) -> (r: Fixed)
    ensures
        r == clamp_spec(val, lo, hi),
{
    nalgebra::clamp(val, lo, hi)
}

/// The linear blend of `x` and `y` with weight `t`.
pub fn mix(x: Fixed, y: Fixed, t: Fixed) -> (r: Fixed)
    ensures
        r == mix_spec(x, y, t),
{
    let d: i128 = y as i128 - x as i128;
    assert(-0x7fff_ffff_ffff_ffff_8000_0000_0000_0000 <= d * t
        <= 0x7fff_ffff_ffff_ffff_8000_0000_0000_0000) by (nonlinear_arith)
        requires
            -0xffff_ffff_ffff_ffff <= d <= 0xffff_ffff_ffff_ffff,
            -0x8000_0000_0000_0000 <= t <= 0x8000_0000_0000_0000,
    ;
    let p: i128 = d * t as i128;
    let q: i128 = floor_div_wide(p, ONE as i128);
    narrow(x as i128 + q)
}

/// The integer square root of `n`.
pub fn isqrt(n: u128) -> (r: u64)
    ensures
        r == isqrt_spec(n as int),
{
    let mut lo: u128 = 0;
    let mut hi: u128 = 0x1_0000_0000_0000_0000;
    assert(0x1_0000_0000_0000_0000int * 0x1_0000_0000_0000_0000int
        == 0x1_0000_0000_0000_0000_0000_0000_0000_0000int) by (nonlinear_arith);
    while hi - lo > 1
        invariant
            lo < hi <= 0x1_0000_0000_0000_0000,
            lo * lo <= n < hi * hi,
        decreases hi - lo,
    {
        let mid: u128 = lo + (hi - lo) / 2;
        assert(mid * mid <= 0xffff_ffff_ffff_ffff * 0xffff_ffff_ffff_ffff) by (nonlinear_arith)
            requires
                0 <= mid <= 0xffff_ffff_ffff_ffff,
        ;
        assert(0xffff_ffff_ffff_ffffint * 0xffff_ffff_ffff_ffffint
            < 0x1_0000_0000_0000_0000_0000_0000_0000_0000int) by (nonlinear_arith);
        if mid * mid <= n {
            lo = mid;
        } else {
            hi = mid;
        }
    }
    proof {
        lemma_isqrt_unique(n as int, lo as int);
    }
    lo as u64
}

/// The half wave of the sine.
fn half_wave(t: i128) -> (r: Fixed)
    requires
        0 <= t <= PI,
    ensures
        r == half_wave_spec(t as int),
{
    proof {
        lemma_half_wave_bounds(t as int);
    }
    let g: i128 = t * (3_141_593 - t);
    let den: i128 = 5 * 9_869_606_577_649 - 4 * g;
    ((16 * g * 1_000_000) / den) as i64
}

/// The sine of an angle in radians.
pub fn sine(x: Fixed) -> (r: Fixed)
    ensures
        r == sine_spec(x),
{
    let turns: i128 = floor_div_wide(x as i128, 6_283_186);
    let t: i128 = x as i128 - turns * 6_283_186;
    proof {
        vstd::arithmetic::div_mod::lemma_fundamental_div_mod(x as int, 6_283_186);
        lemma_sine_bounds(x);
    }
    if t <= 3_141_593 {
        half_wave(t)
    } else {
        proof {
            lemma_half_wave_bounds(t - PI);
        }
        -half_wave(t - 3_141_593)
    }
}

/// `base` raised to the whole power `n`.
pub fn pow(base: Fixed, n: u64) -> (r: Fixed)
    ensures
        r == pow_spec(base, n as nat),
{
    let mut acc: Fixed = ONE;
    let mut i: u64 = 0;
    while i < n
        invariant
            i <= n,
            acc == pow_spec(base, i as nat),
        decreases n - i,
    {
        let next: Fixed = times(acc, base);
        if next == acc {
            proof {
                lemma_pow_settles(base, i as nat, n as nat);
            }
            return acc;
        }
        acc = next;
        i = i + 1;
    }
    acc
}

/// The square root of a number that is not negative.
pub fn root(base: Fixed) -> (r: Fixed)
    requires
        base >= 0,
    ensures
        r == root_spec(base),
        r >= 0,
{
    let n: u128 = base as u128 * 1_000_000;
    let r: u64 = isqrt(n);
    proof {
        lemma_isqrt_is_root(n as int);
        assert(r < 0x400_0000_0000) by (nonlinear_arith)
            requires
                r * r <= n,
                n < 0x8000_0000_0000_0000 * 1_000_000,
                r >= 0,
        ;
    }
    r as i64
}

/// `base` raised to a fraction below one.
fn root_power(base: Fixed, rest: Fixed, bits: u8) -> (r: Fixed)
    requires
        base >= 0,
        rest < ONE,
    ensures
        r == root_power_spec(base, rest, bits as nat),
    decreases bits,
{
    if bits == 0 || rest <= 0 {
        return ONE;
    }
    let half: Fixed = root(base);
    if 2 * rest >= ONE {
        times(half, root_power(half, 2 * rest - ONE, bits - 1))
    } else {
        root_power(half, 2 * rest, bits - 1)
    }
}

/// A base raised to an exponent, neither of them negative.
fn raise(base: Fixed, exponent: Fixed) -> (r: Fixed)
    requires
        base >= 0,
        exponent >= 0,
    ensures
        r == raise_spec(base, exponent),
{
    let whole: u64 = (exponent / 1_000_000) as u64;
    let rest: Fixed = exponent % 1_000_000;
    times(pow(base, whole), root_power(base, rest, 20))
}

/// A base that is not negative raised to a real exponent.
pub fn power(base: Fixed, exponent: Fixed) -> (r: Fixed)
    requires
        base >= 0,
    ensures
        r == power_spec(base, exponent),
{
    if exponent >= 0 {
        raise(base, exponent)
    } else {
        let q: Fixed = raise(base, negate(exponent));
        if q <= 0 {
            i64::MAX
        } else {
            narrow(floor_div_wide(1_000_000_000_000, q as i128))
        }
    }
}

} // verus!
