use raytracer_lib::scalar::{
    floor_div_wide, isqrt_wide, real_abs, real_add, real_div, real_max, real_min, real_mul,
    real_neg, real_sqrt, real_sub, saturate_wide, Real, INFINITY, ONE, VERY_SMALL_NUMBER,
};

fn fx(x: f64) -> Real {
    (x * 1048576.0).round() as Real
}

#[test]
fn one_is_two_to_the_twenty() {
    assert_eq!(ONE, 1 << 20);
    assert_eq!(INFINITY, 1 << 30);
    assert_eq!(VERY_SMALL_NUMBER, 1);
}

#[test]
fn add_and_sub_are_exact_within_bounds() {
    assert_eq!(real_add(fx(1.5), fx(2.25)), fx(3.75));
    assert_eq!(real_sub(fx(1.5), fx(2.25)), fx(-0.75));
    assert_eq!(real_neg(fx(0.5)), fx(-0.5));
    assert_eq!(real_abs(fx(-0.5)), fx(0.5));
    assert_eq!(real_min(fx(-0.5), fx(0.25)), fx(-0.5));
    assert_eq!(real_max(fx(-0.5), fx(0.25)), fx(0.25));
}

#[test]
fn arithmetic_saturates_at_infinity() {
    assert_eq!(real_add(INFINITY, ONE), INFINITY);
    assert_eq!(real_sub(-INFINITY, ONE), -INFINITY);
    assert_eq!(real_mul(fx(1000.0), fx(1000.0)), INFINITY);
    assert_eq!(real_mul(fx(-1000.0), fx(1000.0)), -INFINITY);
    assert_eq!(saturate_wide(1i128 << 100), INFINITY);
    assert_eq!(saturate_wide(-(1i128 << 100)), -INFINITY);
    assert_eq!(saturate_wide(12345), 12345);
}

#[test]
fn mul_rounds_down() {
    assert_eq!(real_mul(fx(1.5), fx(2.0)), fx(3.0));
    assert_eq!(real_mul(fx(0.5), fx(0.5)), fx(0.25));
    // one unit times a half is half a unit, which rounds down
    assert_eq!(real_mul(1, fx(0.5)), 0);
    assert_eq!(real_mul(-1, fx(0.5)), -1);
    assert_eq!(real_mul(3, fx(0.5)), 1);
    assert_eq!(real_mul(-3, fx(0.5)), -2);
}

#[test]
fn div_rounds_down_and_handles_zero() {
    assert_eq!(real_div(fx(3.0), fx(2.0)), fx(1.5));
    assert_eq!(real_div(fx(1.0), fx(4.0)), fx(0.25));
    assert_eq!(real_div(fx(-3.0), fx(2.0)), fx(-1.5));
    assert_eq!(real_div(fx(3.0), fx(-2.0)), fx(-1.5));
    assert_eq!(real_div(1, fx(3.0)), 0);
    assert_eq!(real_div(-1, fx(3.0)), -1);
    assert_eq!(real_div(1, fx(-3.0)), -1);
    assert_eq!(real_div(fx(1.0), 0), INFINITY);
    assert_eq!(real_div(fx(-1.0), 0), -INFINITY);
    assert_eq!(real_div(0, 0), 0);
    assert_eq!(real_div(fx(1.0), 1), INFINITY);
}

#[test]
fn floor_division_of_wide_integers() {
    assert_eq!(floor_div_wide(7, 2), 3);
    assert_eq!(floor_div_wide(-7, 2), -4);
    assert_eq!(floor_div_wide(7, -2), -4);
    assert_eq!(floor_div_wide(-7, -2), 3);
    assert_eq!(floor_div_wide(-8, 2), -4);
    assert_eq!(floor_div_wide(0, 5), 0);
}

#[test]
fn square_roots() {
    assert_eq!(isqrt_wide(0), 0);
    assert_eq!(isqrt_wide(1), 1);
    assert_eq!(isqrt_wide(15), 3);
    assert_eq!(isqrt_wide(16), 4);
    assert_eq!(isqrt_wide(17), 4);
    assert_eq!(isqrt_wide(u128::MAX), (1u128 << 64) - 1);
    assert_eq!(real_sqrt(fx(4.0)), fx(2.0));
    assert_eq!(real_sqrt(fx(0.25)), fx(0.5));
    assert_eq!(real_sqrt(ONE), ONE);
    assert_eq!(real_sqrt(0), 0);
    assert_eq!(real_sqrt(fx(-4.0)), 0);
    // the square root of two, rounded down
    assert_eq!(real_sqrt(fx(2.0)), 1482910);
}
