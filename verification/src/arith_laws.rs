//! What the fixed-point operations make of their operands: the nearest value that can be
//! represented.

use crate::det_num::{
    add_sat_spec, clamp_int, div_spec, inner_product, mac_prefix, mac_spec, mul_spec,
    requantize_spec, round_half_even, rounding_is_to_the_nearest, ONE,
};
use crate::kernels::{answer, KernelCall, KernelRequest};
use crate::numerics::{
    dot_result, rms_norm_result, row_sum, scaled, softcap_spec, value_rms_norm_result,
};
use vstd::prelude::*;

verus! {

/// Whether `q` is the 32-bit value nearest to `n / d`, for positive `d`: off by at most
/// half a unit except where the range ends, and even where it is off by exactly half.
pub open spec fn nearest(q: i32, n: int, d: int) -> bool {
    &&& q > i32::MIN ==> -d <= 2 * (n - q * d)
    &&& q < i32::MAX ==> 2 * (n - q * d) <= d
    &&& i32::MIN < q < i32::MAX && (2 * (n - q * d) == d || 2 * (n - q * d) == -d) ==> q % 2 == 0
}

/// A rounded and saturated quotient is the nearest value.
pub proof fn rounding_and_saturation_give_the_nearest(n: int, d: int)
    requires
        d > 0,
    ensures
        nearest(clamp_int(round_half_even(n, d)) as i32, n, d),
{
    rounding_is_to_the_nearest(n, d);
    let r = round_half_even(n, d);
    let q = clamp_int(r);
    if q < r {
        assert(q * d < r * d) by (nonlinear_arith)
            requires
                q < r,
                d > 0,
        ;
        assert(r * d - q * d >= d) by (nonlinear_arith)
            requires
                q + 1 <= r,
                d > 0,
        ;
    } else if q > r {
        assert(q * d - r * d >= d) by (nonlinear_arith)
            requires
                r + 1 <= q,
                d > 0,
        ;
    }
}

/// A number has one nearest value.
pub proof fn the_nearest_value_is_unique(p: i32, q: i32, n: int, d: int)
    requires
        d > 0,
        nearest(p, n, d),
        nearest(q, n, d),
        i32::MIN < p < i32::MAX,
        i32::MIN < q < i32::MAX,
    ensures
        p == q,
{
    if p != q {
        let (a, b) = if p < q {
            (p as int, q as int)
        } else {
            (q as int, p as int)
        };
        assert(b * d - a * d >= d) by (nonlinear_arith)
            requires
                a + 1 <= b,
                d > 0,
        ;
        assert(b * d - a * d <= d);
        assert(b == a + 1) by (nonlinear_arith)
            requires
                b * d - a * d <= d,
                a + 1 <= b,
                d > 0,
        ;
    }
}

/// A product is the value nearest to the exact one, `a * b` over two to the 16th.
pub proof fn a_product_is_the_nearest(a: i32, b: i32)
    ensures
        nearest(mul_spec(a, b), a * b, 65536),
{
    rounding_and_saturation_give_the_nearest(a * b, 65536);
}

/// An accumulator comes out as the value nearest to it.
pub proof fn an_accumulator_comes_out_as_the_nearest(acc: int)
    ensures
        nearest(requantize_spec(acc), acc, 65536),
{
    rounding_and_saturation_give_the_nearest(acc, 65536);
}

/// A quotient is the value nearest to the exact one, whatever the signs; over zero it is
/// zero.
pub proof fn a_quotient_is_the_nearest(a: i32, b: i32)
    ensures
        b > 0 ==> nearest(div_spec(a, b), a * 65536, b as int),
        b < 0 ==> nearest(div_spec(a, b), -(a * 65536), -(b as int)),
        b == 0 ==> div_spec(a, b) == 0,
{
    if b > 0 {
        rounding_and_saturation_give_the_nearest(a * 65536, b as int);
    } else if b < 0 {
        rounding_and_saturation_give_the_nearest(-(a * 65536), -(b as int));
    }
}

/// A sum is exact within the range, and the end of the range beyond it.
pub proof fn a_sum_saturates(a: i32, b: i32)
    ensures
        i32::MIN <= a + b <= i32::MAX ==> add_sat_spec(a, b) == a + b,
        a + b > i32::MAX ==> add_sat_spec(a, b) == i32::MAX,
        a + b < i32::MIN ==> add_sat_spec(a, b) == i32::MIN,
{
}

/// An accumulator grows by the exact product within its range, and stays at the end of
/// the range beyond it.
pub proof fn an_accumulator_saturates(acc: i64, a: i32, b: i32)
    ensures
        i64::MIN <= acc + a * b <= i64::MAX ==> mac_spec(acc, a, b) == acc + a * b,
        acc + a * b > i64::MAX ==> mac_spec(acc, a, b) == i64::MAX,
        acc + a * b < i64::MIN ==> mac_spec(acc, a, b) == i64::MIN,
{
}

/// An inner product is the sum of the lane products, and so the nearest value of that
/// sum comes out, for rows short of two to the 31st lanes whose accumulator stays in
/// range; rows of different widths have none.
pub proof fn an_inner_product_sums_the_lane_products(a: Seq<i32>, b: Seq<i32>)
    ensures
        dot_result(a, b) is Ok <==> a.len() == b.len(),
        dot_result(a, b) matches Ok(v) ==> nearest(v, mac_prefix(a, b, a.len()) as int, 65536),
        forall|n: nat| #[trigger]
            mac_prefix(a, b, n + 1) == mac_spec(mac_prefix(a, b, n), a[n as int], b[n as int]),
        mac_prefix(a, b, 0) == 0,
        forall|n: nat| #[trigger]
            inner_product(a, b, n + 1) == inner_product(a, b, n) + a[n as int] * b[n as int],
        inner_product(a, b, 0) == 0,
{
    an_accumulator_comes_out_as_the_nearest(mac_prefix(a, b, a.len()) as int);
}

/// Rows are added lane by lane; rows of different widths are not added.
pub proof fn rows_are_added_lane_by_lane(a: Seq<i32>, b: Seq<i32>)
    ensures
        row_sum(a, b) is Ok <==> a.len() == b.len(),
        row_sum(a, b) matches Ok(sum) ==> sum.len() == a.len() && forall|i: int|
            0 <= i < a.len() ==> {
                &&& i32::MIN <= a[i] + b[i] <= i32::MAX ==> (#[trigger] sum[i]) == a[i] + b[i]
                &&& a[i] + b[i] > i32::MAX ==> sum[i] == i32::MAX
                &&& a[i] + b[i] < i32::MIN ==> sum[i] == i32::MIN
            },
{
}

/// A row is scaled lane by lane, each to the nearest value; scaling by one changes
/// nothing.
pub proof fn rows_are_scaled_lane_by_lane(row: Seq<i32>, scalar: i32)
    ensures
        scaled(row, scalar).len() == row.len(),
        forall|i: int|
            0 <= i < row.len() ==> nearest(#[trigger] scaled(row, scalar)[i], row[i] * scalar, 65536),
        scalar == ONE ==> scaled(row, scalar) == row,
{
    assert forall|i: int| 0 <= i < row.len() implies nearest(
        #[trigger] scaled(row, scalar)[i],
        row[i] * scalar,
        65536,
    ) by {
        a_product_is_the_nearest(row[i], scalar);
    }
    if scalar == ONE {
        assert forall|i: int| 0 <= i < row.len() implies scaled(row, scalar)[i] == row[i] by {
            crate::det_num::one_is_neutral(row[i]);
        }
        assert(scaled(row, scalar) =~= row);
    }
}

/// A row is normalised by the kernel exactly if it is not empty, as wide as its weights
/// and the epsilon is not negative.
pub proof fn only_whole_rows_are_normalised<K: Fn(KernelCall) -> Vec<i32>>(
    kernels: K,
    row: Seq<i32>,
    weights: Seq<i32>,
    eps: i64,
)
    ensures
        rms_norm_result(kernels, row, weights, eps) is Ok <==> row.len() == weights.len()
            && row.len() > 0 && eps >= 0,
        rms_norm_result(kernels, row, weights, eps) matches Ok(lanes) ==> lanes == answer(
            kernels,
            KernelRequest::RmsNorm { lanes: row, weights, eps },
        ),
        value_rms_norm_result(kernels, row, eps) is Ok <==> row.len() > 0 && eps >= 0,
        value_rms_norm_result(kernels, row, eps) matches Ok(lanes) ==> lanes == answer(
            kernels,
            KernelRequest::ValueRmsNorm { lanes: row, eps },
        ),
{
}

/// Only a positive cap changes a logit.
pub proof fn only_a_positive_cap_caps<K: Fn(KernelCall) -> Vec<i32>>(
    kernels: K,
    value: i32,
    cap: i32,
)
    ensures
        cap <= 0 ==> softcap_spec(kernels, value, cap) == value,
        cap > 0 ==> softcap_spec(kernels, value, cap) == answer(
            kernels,
            KernelRequest::Softcap { value, cap },
        )[0],
{
}

} // verus!
