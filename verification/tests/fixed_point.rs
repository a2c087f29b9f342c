use raymarching::fixed::{
    isqrt, max, min, minus, mix, negate, plus, pow, power, root, sine, times, ONE, PI,
};

#[test]
fn product_rounds_down() {
    assert_eq!(times(1_500_000, 2_000_000), 3_000_000);
    assert_eq!(times(1, 1), 0);
    assert_eq!(times(-1, 1), -1);
    assert_eq!(times(i64::MAX, i64::MAX), i64::MAX);
    assert_eq!(times(i64::MIN, i64::MAX), i64::MIN);
}

#[test]
fn sums_saturate() {
    assert_eq!(plus(i64::MAX, 1), i64::MAX);
    assert_eq!(minus(i64::MIN, 1), i64::MIN);
    assert_eq!(plus(2, 3), 5);
    assert_eq!(minus(2, 3), -1);
    assert_eq!(negate(i64::MIN), i64::MAX);
    assert_eq!(negate(5), -5);
    assert_eq!(min(2, -3), -3);
    assert_eq!(max(2, -3), 2);
}

#[test]
fn mix_blends() {
    assert_eq!(mix(0, 10 * ONE, 250_000), 2_500_000);
    assert_eq!(mix(10 * ONE, 0, ONE), 0);
    assert_eq!(mix(7, 9, 0), 7);
}

#[test]
fn integer_square_root() {
    assert_eq!(isqrt(0), 0);
    assert_eq!(isqrt(1), 1);
    assert_eq!(isqrt(3), 1);
    assert_eq!(isqrt(4), 2);
    assert_eq!(isqrt(1_000_000_000_000), 1_000_000);
    assert_eq!(isqrt(u128::MAX), u64::MAX);
}

#[test]
fn whole_powers() {
    assert_eq!(pow(500_000, 0), ONE);
    assert_eq!(pow(500_000, 2), 250_000);
    assert_eq!(pow(2 * ONE, 10), 1024 * ONE);
    // Powers that have settled are not worked out one by one.
    assert_eq!(pow(ONE, u64::MAX), ONE);
    assert_eq!(pow(999_999, u64::MAX), 0);
    assert_eq!(pow(0, u64::MAX), 0);
    assert_eq!(pow(3 * ONE, 1_000_000_000_000), i64::MAX);
}

#[test]
fn square_roots_round_down() {
    assert_eq!(root(0), 0);
    assert_eq!(root(ONE), ONE);
    assert_eq!(root(4 * ONE), 2 * ONE);
    assert_eq!(root(2 * ONE), 1_414_213);
    assert_eq!(root(250_000), 500_000);
    assert_eq!(root(1), 1_000);
    assert_eq!(root(i64::MAX), 3_037_000_499_976);
}

#[test]
fn real_powers() {
    assert_eq!(power(250_000, 500_000), 500_000);
    assert_eq!(power(4 * ONE, 1_500_000), 8 * ONE);
    assert_eq!(power(500_000, 250_000), 840_895);
    assert_eq!(power(500_000, 2_500_000), 176_776);
    assert_eq!(power(800_000, 333_333), 928_308);
    assert_eq!(power(640_000, 1_700_000), 468_273);
    assert_eq!(power(800_000, 64 * ONE), 0);
    assert_eq!(power(0, 0), ONE);
    assert_eq!(power(0, 1), 0);
    assert_eq!(power(0, 500_000), 0);
    assert_eq!(power(700_000, 3 * ONE), 343_000);
}

#[test]
fn negative_powers_are_reciprocals() {
    assert_eq!(power(2 * ONE, -ONE), 500_000);
    assert_eq!(power(999_999, -3_250_000), 1_000_004);
    assert_eq!(power(0, -ONE), i64::MAX);
    assert_eq!(power(500_000, i64::MIN), i64::MAX);
}

#[test]
fn real_powers_are_near_the_true_powers() {
    for b in (0..=20i64).map(|i| i * 50_000) {
        for e in (0..=30i64).map(|i| i * 137_000) {
            let exact = (b as f64 / 1e6).powf(e as f64 / 1e6);
            assert!((power(b, e) as f64 / 1e6 - exact).abs() < 0.00003);
        }
    }
}

#[test]
fn sine_at_the_quarter_turns() {
    assert_eq!(sine(0), 0);
    assert_eq!(sine(PI / 2), 999_999);
    assert_eq!(sine(PI), 0);
    assert_eq!(sine(PI + 1), -1);
    assert_eq!(sine(4_712_389), -999_999);
    assert_eq!(sine(2 * PI), 0);
    assert_eq!(sine(-PI / 2 + 1), -999_999);
    assert_eq!(sine(523_599), 500_000);
    assert_eq!(sine(ONE), 840_218);
    assert_eq!(sine(-ONE), -840_218);
    assert_eq!(sine(i64::MAX), -725_565);
    assert_eq!(sine(i64::MIN), 725_564);
}

#[test]
fn sine_is_near_the_true_sine() {
    for i in -20_000..20_000i64 {
        let x = i * 997;
        let exact = (x as f64 / 1e6).sin();
        assert!((sine(x) as f64 / 1e6 - exact).abs() < 0.0017);
        assert!(sine(x).abs() <= ONE);
    }
}
