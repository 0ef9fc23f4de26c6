use raster_chain_inference::det_num::{add_sat, div_act, mac_bits, mul_sat, requantize, ONE};
use raster_chain_inference::floor_num::{floor_dot, floor_mul_wide};
use raster_chain_inference::numerics::{add_row, div, dot, exp, mul, scale_row, tanh};
use raster_chain_inference::prefill_prepare_aux::{isqrt, rms_norm};

#[test]
fn rounding_is_to_nearest_even() {
    assert_eq!(requantize(32768), 0);
    assert_eq!(requantize(98304), 2);
    assert_eq!(requantize(-32768), 0);
    assert_eq!(requantize(-98304), -2);
    assert_eq!(requantize(32769), 1);
    assert_eq!(requantize(-32769), -1);
    assert_eq!(requantize(i64::MAX), i32::MAX);
    assert_eq!(requantize(i64::MIN), i32::MIN);
}

#[test]
fn products_and_quotients() {
    assert_eq!(mul_sat(3 * ONE, -2 * ONE), -6 * ONE);
    assert_eq!(mul_sat(i32::MAX, i32::MAX), i32::MAX);
    assert_eq!(mul_sat(i32::MIN, ONE), i32::MIN);
    assert_eq!(mul(12345, -678), mul(-678, 12345));
    assert_eq!(div_act(ONE, 3 * ONE), 21845);
    assert_eq!(div_act(-ONE, 3 * ONE), -21845);
    assert_eq!(div(ONE, -2 * ONE), -32768);
    assert_eq!(div(7, 7), ONE);
    assert_eq!(div(7, 0), 0);
    assert_eq!(div(i32::MAX, 1), i32::MAX);
    assert_eq!(add_sat(i32::MAX, 1), i32::MAX);
    assert_eq!(add_sat(i32::MIN, -1), i32::MIN);
    assert_eq!(add_sat(2, 3), 5);
}

#[test]
fn accumulators_saturate() {
    assert_eq!(mac_bits(0, 3, 4), 12);
    assert_eq!(mac_bits(i64::MAX, 1, 1), i64::MAX);
    assert_eq!(mac_bits(i64::MIN, -1, 1), i64::MIN);
}

#[test]
fn a_dot_product_rounds_once() {
    // Three products of a third of a unit each: rounded one by one they would vanish.
    assert_eq!(dot(&[1, 1, 1], &[21846, 21846, 21846]).unwrap(), 1);
    assert_eq!(floor_dot(&[1, 1, 1], &[21846, 21846, 21846]).unwrap(), 0);
    assert_eq!(floor_mul_wide(-1, 1), -1);
    assert_eq!(dot(&[1], &[1, 2]).unwrap_err(), "dot width mismatch: 1 vs 2");
}

#[test]
fn exponentials_and_tangents() {
    assert_eq!(exp(0), ONE);
    assert_eq!(exp(-20 * ONE), 0);
    assert_eq!(exp(20 * ONE), i32::MAX);
    let e = exp(ONE);
    assert!((e - 178145).abs() < 200, "{e}");
    assert_eq!(tanh(0), 0);
    assert!(tanh(ONE) > 49000 && tanh(ONE) < 50500);
    assert!(tanh(-ONE) < -49000 && tanh(-ONE) > -50500);
}

#[test]
fn rows_are_scaled_and_added() {
    let mut row = vec![ONE, 2 * ONE];
    scale_row(&mut row, ONE / 2);
    assert_eq!(row, vec![ONE / 2, ONE]);
    add_row(&mut row, &[1, i32::MAX]).unwrap();
    assert_eq!(row, vec![ONE / 2 + 1, i32::MAX]);
    assert!(add_row(&mut row, &[1]).is_err());
    assert_eq!(row, vec![ONE / 2 + 1, i32::MAX]);
}

#[test]
fn integer_square_roots() {
    for (value, root) in [(0i64, 0i64), (-4, 0), (1, 1), (15, 3), (16, 4), (17, 4)] {
        assert_eq!(isqrt(value), root);
    }
    assert_eq!(isqrt(1_000_000_000_000), 1_000_000);
    assert_eq!(isqrt(i64::MAX - 1), 3_037_000_499);
    assert_eq!(isqrt(i64::MAX), 3_037_000_499);
}

#[test]
fn a_uniform_row_normalises_to_its_weights() {
    let mut row = vec![4 * ONE; 4];
    rms_norm(&mut row, &[ONE, 2 * ONE, -ONE, 0], 0).unwrap();
    assert_eq!(row[3], 0);
    assert!((row[0] - ONE).abs() <= 2);
    assert!((row[1] - 2 * ONE).abs() <= 4);
    assert!((row[2] + ONE).abs() <= 2);
    assert!(rms_norm(&mut row, &[ONE], 0).is_err());
}

#[test]
fn the_exponential_keeps_order() {
    assert_eq!(exp(0), ONE);
    assert_eq!(exp(-20 * ONE), 0);
    assert_eq!(exp(20 * ONE), i32::MAX);
    assert_eq!(exp(i32::MIN), 0);
    assert_eq!(exp(i32::MAX), i32::MAX);
    let mut last = 0;
    for x in (-1_400_000..1_400_000).step_by(37) {
        let e = exp(x);
        assert!(e >= last);
        last = e;
    }
}

#[test]
fn the_tangent_keeps_order_and_range() {
    assert_eq!(tanh(0), 0);
    assert_eq!(tanh(i32::MIN), -65_536);
    assert_eq!(tanh(i32::MAX), 65_534);
    let mut last = -65_536;
    for x in (-1_400_000..1_400_000).step_by(41) {
        let t = tanh(x);
        assert!(t >= last && t <= 65_534);
        last = t;
    }
}
