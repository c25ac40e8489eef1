use raytracer::fixed::{SCALE, add_fx, div_fx, icbrt_u128, isqrt_u128, mul_fx, neg_fx, sqrt_fx, sub_fx};

#[test]
fn mul_fx_exact_products() {
    // 1.5 * 2.0 == 3.0
    assert_eq!(mul_fx(98304, 131072), 196608);
    // (-1.5) * 2.0 == -3.0
    assert_eq!(mul_fx(-98304, 131072), -196608);
    // 1.0 is the unit
    assert_eq!(mul_fx(SCALE, 12345), 12345);
    assert_eq!(mul_fx(12345, SCALE), 12345);
}

#[test]
fn mul_fx_rounds_toward_zero() {
    // (1/65536) * (1/65536) underflows to zero from both sides
    assert_eq!(mul_fx(1, 1), 0);
    assert_eq!(mul_fx(-1, 1), 0);
}

#[test]
fn mul_fx_saturates() {
    assert_eq!(mul_fx(i64::MAX, i64::MAX), i64::MAX);
    assert_eq!(mul_fx(i64::MAX, -i64::MAX), i64::MIN);
}

#[test]
fn div_fx_exact_quotients() {
    assert_eq!(div_fx(SCALE, 131072), 32768);  // 1 / 2 == 0.5
    assert_eq!(div_fx(-SCALE, 196608), -21845);  // -1 / 3, toward zero
    assert_eq!(div_fx(327680, SCALE), 327680);  // x / 1 == x
}

#[test]
fn div_fx_by_zero_is_zero() {
    assert_eq!(div_fx(5, 0), 0);
    assert_eq!(div_fx(-123456, 0), 0);
}

#[test]
fn add_sub_neg_saturate() {
    assert_eq!(add_fx(i64::MAX, 1), i64::MAX);
    assert_eq!(add_fx(i64::MIN, -1), i64::MIN);
    assert_eq!(sub_fx(i64::MIN, 1), i64::MIN);
    assert_eq!(neg_fx(i64::MIN), i64::MAX);
    assert_eq!(add_fx(40, 2), 42);
    assert_eq!(sub_fx(40, 2), 38);
    assert_eq!(neg_fx(42), -42);
}

#[test]
fn isqrt_small_values() {
    assert_eq!(isqrt_u128(0), 0);
    assert_eq!(isqrt_u128(1), 1);
    assert_eq!(isqrt_u128(15), 3);
    assert_eq!(isqrt_u128(16), 4);
    assert_eq!(isqrt_u128(1u128 << 64), 1u128 << 32);
}

#[test]
fn icbrt_small_values() {
    assert_eq!(icbrt_u128(0), 0);
    assert_eq!(icbrt_u128(26), 2);
    assert_eq!(icbrt_u128(27), 3);
    assert_eq!(icbrt_u128(1u128 << 30), 1u128 << 10);
}

#[test]
fn sqrt_fx_exact_and_rounded() {
    // sqrt(4.0) == 2.0
    assert_eq!(sqrt_fx(4 * SCALE), 2 * SCALE);
    // sqrt(2.0) == 1.41421... -> 92681 in Q16.16
    assert_eq!(sqrt_fx(2 * SCALE), 92681);
    assert_eq!(sqrt_fx(0), 0);
}
