//! Deterministic fixed-point arithmetic.
//!
//! Activations and weights are Q16.16 values held as raw `i32` bits, and
//! accumulators are Q32.32 values held as raw `i64` bits. Every operation
//! widens, rounds once to the nearest representable value with ties going to
//! the even neighbour, and saturates, so a replay reproduces the same bits on
//! every target.

use vstd::arithmetic::power2::pow2;
use vstd::prelude::*;

verus! {

/// Activation scalar: Q16.16 bits.
pub type Act = i32;

/// Weight scalar: Q16.16 bits.
pub type Wgt = i32;

/// Accumulator scalar: Q32.32 bits.
pub type Acc = i64;

/// Fractional bits in the Q16.16 representation.
pub const FRAC_BITS: u32 = 16;

/// One unit (`1.0`) in Q16.16.
pub const ONE: i32 = 65536;

/// `x` limited to the range of an `i32`.
pub open spec fn clamp_int(x: int) -> int {
    if x > i32::MAX {
        i32::MAX as int
    } else if x < i32::MIN {
        i32::MIN as int
    } else {
        x
    }
}

/// `x` limited to the range of an `i64`.
pub open spec fn clamp_wide(x: int) -> int {
    if x > i64::MAX {
        i64::MAX as int
    } else if x < i64::MIN {
        i64::MIN as int
    } else {
        x
    }
}

/// The integer nearest to `n / d`, for positive `d`; a tie goes to the even
/// neighbour.
pub open spec fn round_half_even(n: int, d: int) -> int {
    let q = n / d;
    let r = n % d;
    if 2 * r < d {
        q
    } else if 2 * r > d {
        q + 1
    } else if q % 2 == 0 {
        q
    } else {
        q + 1
    }
}

/// Q32.32 to Q16.16: one rounding, then saturation.
pub open spec fn requantize_spec(acc: int) -> i32 {
    clamp_int(round_half_even(acc, 65536)) as i32
}

/// The Q16.16 product.
pub open spec fn mul_spec(a: i32, b: i32) -> i32 {
    requantize_spec(a * b)
}

/// The Q16.16 quotient; zero when the divisor is zero.
pub open spec fn div_spec(a: i32, b: i32) -> i32 {
    if b == 0 {
        0
    } else if b > 0 {
        clamp_int(round_half_even(a * 65536, b as int)) as i32
    } else {
        clamp_int(round_half_even(-(a * 65536), -(b as int))) as i32
    }
}

/// The sum of two Q16.16 values, saturated.
pub open spec fn add_sat_spec(a: i32, b: i32) -> i32 {
    clamp_int(a + b) as i32
}

/// One multiply-accumulate step on Q32.32 bits.
pub open spec fn mac_spec(acc: i64, left: i32, right: i32) -> i64 {
    clamp_wide(acc + left * right) as i64
}

/// Multiply-accumulate over the first `n` lanes of two rows.
pub open spec fn mac_prefix(a: Seq<i32>, b: Seq<i32>, n: nat) -> i64
    decreases n,
{
    if n == 0 {
        0
    } else {
        mac_spec(mac_prefix(a, b, (n - 1) as nat), a[n - 1], b[n - 1])
    }
}

/// The exact inner product of the first `n` lanes.
pub open spec fn inner_product(a: Seq<i32>, b: Seq<i32>, n: nat) -> int
    decreases n,
{
    if n == 0 {
        0
    } else {
        inner_product(a, b, (n - 1) as nat) + a[n - 1] * b[n - 1]
    }
}

/// The Q16.16 inner product of two rows of one width.
pub open spec fn dot_spec(a: Seq<i32>, b: Seq<i32>) -> i32 {
    requantize_spec(mac_prefix(a, b, a.len()) as int)
}

/// The cubic in the fractional part that approximates `2^f` on `[0, 1)`.
pub open spec fn exp2_fraction(f: int) -> int {
    let c3 = mul_spec(f as i32, 3634);
    let c2 = mul_spec(f as i32, (15743 + c3) as i32);
    65536 + mul_spec(f as i32, (45426 + c2) as i32)
}

/// `e^x` in Q16.16: `2^n` times the cubic in `f`, where `n` and `f` are the
/// integer and fractional parts of `x * log2(e)`.
pub open spec fn exp_spec(x: i32) -> i32 {
    if x <= -1310720 {
        0
    } else if x >= 1310720 {
        i32::MAX
    } else {
        let y = mul_spec(x, 94548) as int;
        let n = y / 65536;
        let p = exp2_fraction(y % 65536);
        if n >= 0 {
            clamp_int(p * pow2(n as nat)) as i32
        } else {
            (p / (pow2((-n) as nat) as int)) as i32
        }
    }
}

/// `tanh(x)` in Q16.16, from the exponential.
pub open spec fn tanh_spec(x: i32) -> i32 {
    let e = exp_spec(clamp_int(2 * x) as i32);
    div_spec(clamp_int(e - 65536) as i32, clamp_int(e + 65536) as i32)
}

/// `value` as an `i32`, saturating.
pub fn clamp_i64(value: i64) -> (r: i32)
    ensures
        r == clamp_int(value as int),
{
    if value > i32::MAX as i64 {
        i32::MAX
    } else if value < i32::MIN as i64 {
        i32::MIN
    } else {
        value as i32
    }
}

/// Saturating Q16.16 addition.
pub fn add_sat(a: i32, b: i32) -> (r: i32)
    ensures
        r == add_sat_spec(a, b),
{
    clamp_i64(a as i64 + b as i64)
}

/// Requantizes a Q32.32 accumulator to Q16.16, ties to even, saturating.
pub fn requantize(acc: i64) -> (r: i32)
    ensures
        r == requantize_spec(acc as int),
{
    // Biasing by a multiple of the divisor keeps the division unsigned.
    let biased: u64 = (acc as i128 + 0x8000_0000_0000_0000i128) as u64;
    let q: i64 = (biased / 65536) as i64 - 0x8000_0000_0000i64;
    let r: u64 = biased % 65536;
    let parity: u64 = (biased / 65536) % 2;
    let up: bool = r > 32768 || (r == 32768 && parity == 1);
    if up {
        clamp_i64(q + 1)
    } else {
        clamp_i64(q)
    }
}

proof fn lemma_product_bound(a: i32, b: i32)
    ensures
        -0x4000_0000_0000_0000 <= a * b <= 0x4000_0000_0000_0000,
{
    assert(-0x4000_0000_0000_0000 <= a * b <= 0x4000_0000_0000_0000) by (nonlinear_arith)
        requires
            -0x8000_0000 <= a < 0x8000_0000,
            -0x8000_0000 <= b < 0x8000_0000,
    ;
}

/// Saturating Q16.16 multiplication, ties to even.
pub fn mul_sat(a: i32, b: i32) -> (r: i32)
    ensures
        r == mul_spec(a, b),
{
    proof {
        lemma_product_bound(a, b);
    }
    requantize(a as i64 * b as i64)
}

/// Saturating Q16.16 division, ties to even.
pub fn div_act(a: i32, b: i32) -> (r: i32)
    requires
        b != 0,
    ensures
        r == div_spec(a, b),
{
    let numerator: i64 = if b > 0 { a as i64 * 65536 } else { -(a as i64 * 65536) };
    let denominator: i64 = if b > 0 { b as i64 } else { -(b as i64) };
    let ghost n = numerator as int;
    let ghost d = denominator as int;
    proof {
        vstd::arithmetic::div_mod::lemma_hoist_over_denominator(n, 0x8000_0000_0000, d as nat);
        vstd::arithmetic::div_mod::lemma_mod_multiples_vanish(0x8000_0000_0000, n, d);
        assert(d * 0x8000_0000_0000 == 0x8000_0000_0000 * d);
        vstd::arithmetic::div_mod::lemma_div_is_ordered_by_denominator(
            n + 0x8000_0000_0000 * d,
            1,
            d,
        );
        vstd::arithmetic::div_mod::lemma_div_basics(n + 0x8000_0000_0000 * d);
    }
    // Biasing by a multiple of the divisor keeps the division unsigned.
    let biased: u128 = (numerator as i128 + 0x8000_0000_0000i128 * (denominator as i128)) as u128;
    let floor: u128 = biased / (denominator as u128);
    let r: u128 = biased % (denominator as u128);
    assert(floor == n / d + 0x8000_0000_0000);
    assert(r == n % d);
    assert(-0x8000_0000_0000 <= n / d <= 0x8000_0000_0000) by (nonlinear_arith)
        requires
            -0x8000_0000_0000 <= n <= 0x8000_0000_0000,
            d >= 1,
    ;
    let q: i64 = floor as i64 - 0x8000_0000_0000i64;
    let twice: u128 = 2 * r;
    let up: bool = twice > denominator as u128 || (twice == denominator as u128 && floor % 2 == 1);
    if up {
        clamp_i64(q + 1)
    } else {
        clamp_i64(q)
    }
}

/// `acc + left * right` on Q32.32 bits, saturating.
pub fn mac_bits(acc: i64, left: i32, right: i32) -> (r: i64)
    ensures
        r == mac_spec(acc, left, right),
{
    proof {
        lemma_product_bound(left, right);
    }
    let sum: i128 = acc as i128 + (left as i64 * right as i64) as i128;
    if sum > i64::MAX as i128 {
        i64::MAX
    } else if sum < i64::MIN as i128 {
        i64::MIN
    } else {
        sum as i64
    }
}

/// Rounding is to the nearest integer, and a tie goes to the even one.
pub proof fn rounding_is_to_the_nearest(n: int, d: int)
    requires
        d > 0,
    ensures
        ({
            let q = round_half_even(n, d);
            &&& -d <= 2 * (n - q * d) <= d
            &&& (2 * (n - q * d) == d || 2 * (n - q * d) == -d) ==> q % 2 == 0
        }),
{
    vstd::arithmetic::div_mod::lemma_fundamental_div_mod(n, d);
    vstd::arithmetic::div_mod::lemma_mod_bound(n, d);
    let q = n / d;
    assert(d * q == q * d) by (nonlinear_arith);
    assert((q + 1) * d == q * d + d) by (nonlinear_arith);
}

/// Rounding has no bias: it commutes with a change of sign.
pub proof fn rounding_is_symmetric(n: int, d: int)
    requires
        d > 0,
    ensures
        round_half_even(-n, d) == -round_half_even(n, d),
{
    rounding_is_to_the_nearest(n, d);
    rounding_is_to_the_nearest(-n, d);
    let a = round_half_even(n, d);
    let b = round_half_even(-n, d);
    let s = a + b;
    assert(a * d + b * d == s * d) by (nonlinear_arith)
        requires
            s == a + b,
    ;
    assert(-d <= s * d <= d);
    assert(-1 <= s <= 1) by (nonlinear_arith)
        requires
            -d <= s * d <= d,
            d > 0,
    ;
    if s == 1 {
        assert(s * d == d) by (nonlinear_arith)
            requires
                s == 1,
        ;
        assert(2 * (n - a * d) == -d && 2 * (-n - b * d) == -d);
    } else if s == -1 {
        assert(s * d == -d) by (nonlinear_arith)
            requires
                s == -1,
        ;
        assert(2 * (n - a * d) == d && 2 * (-n - b * d) == d);
    }
}

/// A product does not depend on the order of its factors.
pub proof fn products_commute(a: i32, b: i32)
    ensures
        mul_spec(a, b) == mul_spec(b, a),
{
    assert(a * b == b * a) by (nonlinear_arith);
}

/// Multiplying by one changes nothing.
pub proof fn one_is_neutral(a: i32)
    ensures
        mul_spec(a, ONE) == a,
        div_spec(a, ONE) == a,
{
    rounding_is_to_the_nearest(a * 65536, 65536);
}

/// A number divided by itself is one.
pub proof fn a_number_over_itself_is_one(a: i32)
    requires
        a != 0,
    ensures
        div_spec(a, a) == ONE,
{
    let n = if a > 0 {
        a * 65536
    } else {
        -(a * 65536)
    };
    let d = if a > 0 {
        a as int
    } else {
        -(a as int)
    };
    rounding_is_to_the_nearest(n, d);
    let q = round_half_even(n, d);
    assert(n - q * d == (65536 - q) * d) by (nonlinear_arith)
        requires
            n == 65536 * d,
    ;
    assert(q == 65536) by (nonlinear_arith)
        requires
            -d <= 2 * ((65536 - q) * d) <= d,
            d > 0,
    ;
}

/// An accumulator that never leaves its range holds the exact inner product, so that
/// the whole product is rounded once.
pub proof fn an_accumulator_in_range_is_exact(a: Seq<i32>, b: Seq<i32>, n: nat)
    requires
        forall|k: nat|
            k <= n ==> i64::MIN <= #[trigger] inner_product(a, b, k) <= i64::MAX,
    ensures
        mac_prefix(a, b, n) == inner_product(a, b, n),
    decreases n,
{
    if n > 0 {
        an_accumulator_in_range_is_exact(a, b, (n - 1) as nat);
        assert(i64::MIN <= inner_product(a, b, n) <= i64::MAX);
    }
}

/// The inner product of rows is rounded once, if no partial sum leaves the
/// accumulator's range.
pub proof fn a_dot_product_is_rounded_once(a: Seq<i32>, b: Seq<i32>)
    requires
        forall|k: nat|
            k <= a.len() ==> i64::MIN <= #[trigger] inner_product(a, b, k) <= i64::MAX,
    ensures
        dot_spec(a, b) == requantize_spec(inner_product(a, b, a.len())),
{
    an_accumulator_in_range_is_exact(a, b, a.len());
}

} // verus!
