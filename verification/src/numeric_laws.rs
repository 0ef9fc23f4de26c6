//! What holds of the exponential and the hyperbolic tangent over all their inputs.

use crate::det_num::{
    clamp_int, div_spec, exp2_fraction, exp_spec, mul_spec, requantize_spec, round_half_even,
    rounding_is_to_the_nearest, tanh_spec,
};
use vstd::arithmetic::power2::{lemma_pow2_adds, lemma_pow2_pos, pow2};
use vstd::prelude::*;

verus! {

/// Rounding keeps the order of quotients.
pub proof fn rounding_keeps_order(n: int, d: int, m: int, e: int)
    requires
        d > 0,
        e > 0,
        n * e <= m * d,
    ensures
        round_half_even(n, d) <= round_half_even(m, e),
{
    rounding_is_to_the_nearest(n, d);
    rounding_is_to_the_nearest(m, e);
    let q = round_half_even(n, d);
    let p = round_half_even(m, e);
    if q > p {
        let x = 2 * q - 1;
        let y = 2 * p + 1;
        assert(x * d <= 2 * n && 2 * m <= y * e) by (nonlinear_arith)
            requires
                -d <= 2 * (n - q * d),
                2 * (m - p * e) <= e,
                x == 2 * q - 1,
                y == 2 * p + 1,
        ;
        assert((x * d) * e <= 2 * (n * e) && 2 * (m * d) <= (y * e) * d) by (nonlinear_arith)
            requires
                x * d <= 2 * n,
                2 * m <= y * e,
                d > 0,
                e > 0,
        ;
        assert((x * d) * e == x * (d * e) && (y * e) * d == y * (d * e)) by (nonlinear_arith);
        assert(d * e > 0) by (nonlinear_arith)
            requires
                d > 0,
                e > 0,
        ;
        assert(x <= y) by (nonlinear_arith)
            requires
                x * (d * e) <= y * (d * e),
                d * e > 0,
        ;
        assert(x == y && q == p + 1);
        assert(x * (d * e) == 2 * (n * e) && y * (d * e) == 2 * (m * d));
        assert(2 * n == x * d) by (nonlinear_arith)
            requires
                (x * d) * e == 2 * (n * e),
                e > 0,
        ;
        assert(2 * m == y * e) by (nonlinear_arith)
            requires
                (y * e) * d == 2 * (m * d),
                d > 0,
        ;
        assert(2 * (n - q * d) == -d) by (nonlinear_arith)
            requires
                2 * n == x * d,
                x == 2 * q - 1,
        ;
        assert(2 * (m - p * e) == e) by (nonlinear_arith)
            requires
                2 * m == y * e,
                y == 2 * p + 1,
        ;
    }
}

proof fn lemma_requantize_order(a: int, b: int)
    requires
        a <= b,
    ensures
        requantize_spec(a) <= requantize_spec(b),
{
    rounding_keeps_order(a, 65536, b, 65536);
}

proof fn lemma_mul_order(a: i32, b: i32, c: i32, d: i32, bound: int)
    requires
        0 <= a <= b < 65536,
        0 <= c <= d <= bound,
        bound < 0x7fff_ffff,
    ensures
        0 <= mul_spec(a, c) <= mul_spec(b, d) <= bound,
{
    assert(0 <= a * c <= b * d && b * d <= 65535 * bound) by (nonlinear_arith)
        requires
            0 <= a <= b < 65536,
            0 <= c <= d <= bound,
    ;
    lemma_requantize_order(a * c, b * d);
}

proof fn lemma_fraction_order(f: int, g: int)
    requires
        0 <= f <= g < 65536,
    ensures
        65536 <= exp2_fraction(f) <= exp2_fraction(g) <= 131072,
{
    let a = f as i32;
    let b = g as i32;
    lemma_mul_order(a, b, 3634, 3634, 3634);
    let c3 = mul_spec(a, 3634);
    let d3 = mul_spec(b, 3634);
    lemma_mul_order(a, b, (15743 + c3) as i32, (15743 + d3) as i32, 19377);
    let c2 = mul_spec(a, (15743 + c3) as i32);
    let d2 = mul_spec(b, (15743 + d3) as i32);
    lemma_mul_order(a, b, (45426 + c2) as i32, (45426 + d2) as i32, 64803);
}

/// `2^y` for a Q16.16 exponent within the range that [`exp_spec`] uses.
spec fn exp2(y: int) -> int {
    let n = y / 65536;
    let p = exp2_fraction(y % 65536);
    if n >= 0 {
        clamp_int(p * pow2(n as nat))
    } else {
        p / (pow2((-n) as nat) as int)
    }
}

proof fn lemma_exp2_range(y: int)
    ensures
        0 <= exp2(y) <= i32::MAX,
        y < 0 ==> exp2(y) <= 65536,
        y >= 0 ==> exp2(y) >= 65536,
{
    let n = y / 65536;
    let p = exp2_fraction(y % 65536);
    lemma_fraction_order(y % 65536, y % 65536);
    if n >= 0 {
        let k = pow2(n as nat) as int;
        lemma_pow2_pos(n as nat);
        assert(p * k >= p) by (nonlinear_arith)
            requires
                p >= 0,
                k >= 1,
        ;
    } else {
        let k = pow2((-n) as nat) as int;
        lemma_half(n);
        assert(0 <= p / k && p / k <= 65536) by (nonlinear_arith)
            requires
                0 <= p <= 131072,
                k >= 2,
        ;
    }
}

proof fn lemma_half(n: int)
    requires
        n < 0,
    ensures
        pow2((-n) as nat) == 2 * pow2((-n - 1) as nat),
        pow2((-n) as nat) >= 2,
{
    lemma_pow2_adds(1, (-n - 1) as nat);
    vstd::arithmetic::power2::lemma2_to64();
    lemma_pow2_pos((-n - 1) as nat);
}

proof fn lemma_exp2_order(y: int, z: int)
    requires
        y <= z,
    ensures
        exp2(y) <= exp2(z),
{
    let n = y / 65536;
    let m = z / 65536;
    let p = exp2_fraction(y % 65536);
    let q = exp2_fraction(z % 65536);
    lemma_fraction_order(y % 65536, y % 65536);
    lemma_fraction_order(z % 65536, z % 65536);
    lemma_exp2_range(y);
    lemma_exp2_range(z);
    if n == m {
        lemma_fraction_order(y % 65536, z % 65536);
        if n >= 0 {
            let k = pow2(n as nat) as int;
            assert(p * k <= q * k) by (nonlinear_arith)
                requires
                    p <= q,
                    k >= 0,
            ;
        } else {
            let k = pow2((-n) as nat) as int;
            lemma_pow2_pos((-n) as nat);
            vstd::arithmetic::div_mod::lemma_div_is_ordered(p, q, k);
        }
    } else if n >= 0 {
        let k = pow2(n as nat) as int;
        let rest = pow2((m - n - 1) as nat) as int;
        lemma_pow2_pos(n as nat);
        lemma_pow2_pos((m - n - 1) as nat);
        lemma_pow2_adds(1, (m - n - 1) as nat);
        lemma_pow2_adds(n as nat, (m - n) as nat);
        vstd::arithmetic::power2::lemma2_to64();
        let l = pow2(m as nat) as int;
        assert(l == k * (2 * rest));
        assert(p * k <= q * l) by (nonlinear_arith)
            requires
                0 <= p <= 131072,
                q >= 65536,
                l == k * (2 * rest),
                rest >= 1,
                k >= 1,
        ;
    } else if m < 0 {
        let l = pow2((-m) as nat) as int;
        let rest = pow2((m - n - 1) as nat) as int;
        lemma_pow2_pos((-m) as nat);
        lemma_pow2_pos((-n) as nat);
        lemma_pow2_pos((m - n - 1) as nat);
        lemma_pow2_adds(1, (m - n - 1) as nat);
        lemma_pow2_adds((-m) as nat, (m - n) as nat);
        vstd::arithmetic::power2::lemma2_to64();
        let k = pow2((-n) as nat) as int;
        assert(k == l * (2 * rest));
        let a = p / k;
        let b = q / l;
        vstd::arithmetic::div_mod::lemma_fundamental_div_mod(p, k);
        vstd::arithmetic::div_mod::lemma_fundamental_div_mod(q, l);
        if a > b {
            assert(k * a >= l * (2 * a)) by (nonlinear_arith)
                requires
                    k == l * (2 * rest),
                    rest >= 1,
                    l >= 1,
                    a >= 0,
            ;
            assert(l * (2 * a) <= 131072);
            assert(l * (2 * a) == 2 * (l * a)) by (nonlinear_arith);
            assert(l * a >= l * b + l) by (nonlinear_arith)
                requires
                    a >= b + 1,
                    l >= 1,
            ;
        }
    }
}

proof fn lemma_exp_is_exp2(x: i32)
    requires
        -1310720 < x < 1310720,
    ensures
        exp_spec(x) == exp2(mul_spec(x, 94548) as int),
{
    lemma_exp2_range(mul_spec(x, 94548) as int);
}

/// The exponential is never negative and keeps the order of its arguments; it is one
/// at zero, zero from -20 down and the largest value from 20 up.
pub proof fn exp_keeps_order(x: i32, y: i32)
    requires
        x <= y,
    ensures
        0 <= exp_spec(x) <= exp_spec(y),
        exp_spec(0) == 65536,
        x <= -20 * 65536 ==> exp_spec(x) == 0,
        y >= 20 * 65536 ==> exp_spec(y) == i32::MAX,
{
    lemma_exp_of_zero();
    let a = mul_spec(x, 94548) as int;
    let b = mul_spec(y, 94548) as int;
    assert(x * 94548 <= y * 94548) by (nonlinear_arith)
        requires
            x <= y,
    ;
    lemma_requantize_order(x * 94548, y * 94548);
    lemma_exp2_order(a, b);
    lemma_exp2_range(a);
    lemma_exp2_range(b);
    if -1310720 < x < 1310720 {
        lemma_exp_is_exp2(x);
    }
    if -1310720 < y < 1310720 {
        lemma_exp_is_exp2(y);
    }
}

proof fn lemma_exp_of_zero()
    ensures
        exp_spec(0) == 65536,
{
    vstd::arithmetic::power2::lemma2_to64();
    assert(mul_spec(0, 94548) == 0);
    assert(mul_spec(0, 3634) == 0);
    assert(mul_spec(0, 15743) == 0);
    assert(mul_spec(0, 45426) == 0);
    assert(exp2_fraction(0) == 65536);
}

/// The quotient that [`tanh_spec`] takes of an exponential.
spec fn tanh_of(e: int) -> i32 {
    div_spec(clamp_int(e - 65536) as i32, clamp_int(e + 65536) as i32)
}

proof fn lemma_tanh_order(e: int, f: int)
    requires
        0 <= e <= f <= i32::MAX,
    ensures
        tanh_of(e) <= tanh_of(f),
{
    let a = clamp_int(e - 65536);
    let b = clamp_int(e + 65536);
    let c = clamp_int(f - 65536);
    let d = clamp_int(f + 65536);
    let step = c - a;
    let grow = d - b;
    assert(a * grow <= step * b) by (nonlinear_arith)
        requires
            a <= b,
            b > 0,
            0 <= grow <= step,
    ;
    assert((a * 65536) * d <= (c * 65536) * b) by (nonlinear_arith)
        requires
            a * grow <= step * b,
            c == a + step,
            d == b + grow,
    ;
    rounding_keeps_order(a * 65536, b, c * 65536, d);
}

/// The hyperbolic tangent keeps the order of its arguments and lies between the
/// values it takes at the ends of its range; it is zero at zero.
pub proof fn tanh_keeps_order(x: i32, y: i32)
    requires
        x <= y,
    ensures
        -65536 <= tanh_spec(x) <= tanh_spec(y) <= 65534,
        tanh_spec(0) == 0,
        tanh_spec(i32::MIN) == -65536,
        tanh_spec(i32::MAX) == 65534,
{
    let a = clamp_int(2 * x) as i32;
    let b = clamp_int(2 * y) as i32;
    exp_keeps_order(a, b);
    exp_keeps_order(b, i32::MAX);
    lemma_tanh_order(0, exp_spec(a) as int);
    lemma_tanh_order(exp_spec(a) as int, exp_spec(b) as int);
    lemma_tanh_order(exp_spec(b) as int, i32::MAX as int);
    assert(tanh_of(0) == -65536);
    assert(tanh_of(65536) == 0);
    assert(tanh_of(i32::MAX as int) == 65534);
    assert(exp_spec(i32::MIN) == 0);
    assert(exp_spec(i32::MAX) == i32::MAX);
}

} // verus!
