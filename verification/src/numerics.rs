//! Q16.16 row arithmetic shared by the stages.

use crate::det_num::{
    add_sat, add_sat_spec, clamp_i64, div_act, div_spec, dot_spec, exp_spec, mac_bits,
    mac_prefix, mul_sat, mul_spec, requantize, tanh_spec, ONE,
};
use crate::kernels::{answer, consult, reliable, KernelCall, KernelRequest};
use crate::text::{dec, decimal, outcome};
use vstd::slice::slice_to_vec;
use vstd::arithmetic::power2::pow2;
use vstd::prelude::*;

verus! {

/// Q16.16 multiply, ties to even, saturating.
pub fn mul(a: i32, b: i32) -> (r: i32)
    ensures
        r == mul_spec(a, b),
{
    mul_sat(a, b)
}

/// Q16.16 divide, ties to even, saturating. Dividing by zero yields zero.
pub fn div(a: i32, b: i32) -> (r: i32)
    ensures
        r == div_spec(a, b),
{
    if b == 0 {
        return 0;
    }
    div_act(a, b)
}

proof fn lemma_mul_nonnegative(a: i32, b: i32, bound: int)
    requires
        0 <= a < 65536,
        0 <= b <= bound,
        bound < 0x7fff_ffff,
    ensures
        0 <= mul_spec(a, b) <= bound,
{
    assert(0 <= a * b <= 65535 * bound) by (nonlinear_arith)
        requires
            0 <= a < 65536,
            0 <= b <= bound,
    ;
}

/// `e^x` in Q16.16, via `e^x = 2^(x * log2 e)`.
pub fn exp(x: i32) -> (r: i32)
    ensures
        r == exp_spec(x),
{
    if x <= -1310720 {
        return 0;
    }
    if x >= 1310720 {
        return i32::MAX;
    }
    let y: i32 = self::mul(x, 94548);
    assert(-1890961 <= y <= 1890961) by {
        assert(-1310720 * 94548 <= x * 94548 <= 1310720 * 94548) by (nonlinear_arith)
            requires
                -1310720 <= x <= 1310720,
        ;
    }
    let biased: u32 = (y as i64 + 0x8000_0000i64) as u32;
    let int_part: i32 = (biased / 65536) as i32 - 32768;
    let frac: i32 = (biased % 65536) as i32;
    assert(int_part == y / 65536);
    assert(frac == y % 65536);
    proof {
        lemma_mul_nonnegative(frac, 3634, 3634);
    }
    let c3: i32 = self::mul(frac, 3634);
    proof {
        lemma_mul_nonnegative(frac, (15743 + c3) as i32, 19377);
    }
    let c2: i32 = self::mul(frac, 15743 + c3);
    proof {
        lemma_mul_nonnegative(frac, (45426 + c2) as i32, 64803);
    }
    let poly: i32 = ONE + self::mul(frac, 45426 + c2);
    if int_part >= 0 {
        let shift: u64 = int_part as u64;
        proof {
            vstd::arithmetic::power2::lemma2_to64();
            vstd::arithmetic::power2::lemma_pow2_strictly_increases(shift as nat, 31);
            assert(poly * pow2(shift as nat) <= 0x1_0000_0000_0000) by (nonlinear_arith)
                requires
                    0 <= poly < 0x2_0000,
                    0 <= pow2(shift as nat) < 0x8000_0000,
            ;
            vstd::bits::lemma_u64_shl_is_mul(poly as u64, shift);
        }
        clamp_i64(((poly as u64) << shift) as i64)
    } else {
        let shift: u32 = (-int_part) as u32;
        proof {
            vstd::bits::lemma_u32_shr_is_div(poly as u32, shift);
            vstd::arithmetic::power2::lemma_pow2_pos(shift as nat);
            vstd::arithmetic::div_mod::lemma_div_is_ordered_by_denominator(
                poly as int,
                1,
                pow2(shift as nat) as int,
            );
            vstd::arithmetic::div_mod::lemma_div_pos_is_pos(poly as int, pow2(shift as nat) as int);
        }
        ((poly as u32) >> shift) as i32
    }
}

/// `tanh(x)` in Q16.16, from [`exp`].
pub fn tanh(x: i32) -> (r: i32)
    ensures
        r == tanh_spec(x),
{
    let e2x: i32 = exp(clamp_i64(2 * (x as i64)));
    div(clamp_i64(e2x as i64 - 65536), clamp_i64(e2x as i64 + 65536))
}

/// Scales every lane by one factor.
pub open spec fn scaled(row: Seq<i32>, scalar: i32) -> Seq<i32> {
    row.map_values(|x: i32| mul_spec(x, scalar))
}

/// Multiplies every lane by `scalar`, in place.
pub fn scale_row(row: &mut [i32], scalar: i32)
    ensures
        final(row)@ == scaled(old(row)@, scalar),
{
    let mut i: usize = 0;
    while i < row.len()
        invariant
            i <= row.len(),
            row@.len() == old(row)@.len(),
            forall|j: int| 0 <= j < i ==> row@[j] == mul_spec(old(row)@[j], scalar),
            forall|j: int| i <= j < row@.len() ==> row@[j] == old(row)@[j],
        decreases row.len() - i,
    {
        row[i] = self::mul(row[i], scalar);
        i += 1;
    }
    assert(row@ =~= scaled(old(row)@, scalar));
}

/// The lane-wise saturating sum of two rows, or why they have none.
pub open spec fn row_sum(dst: Seq<i32>, src: Seq<i32>) -> Result<Seq<i32>, Seq<char>> {
    if dst.len() != src.len() {
        Err("row add width mismatch: "@ + dec(dst.len()) + " vs "@ + dec(src.len()))
    } else {
        Ok(Seq::new(dst.len(), |i: int| add_sat_spec(dst[i], src[i])))
    }
}

/// Adds `src` to `dst` lane by lane, saturating. A width mismatch is an error
/// and leaves `dst` as it was.
pub fn add_row(dst: &mut [i32], src: &[i32]) -> (r: Result<(), String>)
    ensures
        match row_sum(old(dst)@, src@) {
            Ok(sum) => r is Ok && final(dst)@ == sum,
            Err(e) => r matches Err(s) && s@ == e && final(dst)@ == old(dst)@,
        },
{
    if dst.len() != src.len() {
        return Err(
            String::from_str("row add width mismatch: ").concat(
                decimal(dst.len() as u64).as_str(),
            ).concat(" vs ").concat(decimal(src.len() as u64).as_str()),
        );
    }
    let mut i: usize = 0;
    while i < dst.len()
        invariant
            i <= dst.len(),
            dst@.len() == old(dst)@.len(),
            dst@.len() == src@.len(),
            forall|j: int| 0 <= j < i ==> dst@[j] == add_sat_spec(old(dst)@[j], src@[j]),
            forall|j: int| i <= j < dst@.len() ==> dst@[j] == old(dst)@[j],
        decreases dst.len() - i,
    {
        dst[i] = add_sat(dst[i], src[i]);
        i += 1;
    }
    assert(dst@ =~= row_sum(old(dst)@, src@)->Ok_0);
    Ok(())
}

/// The inner product of two rows, or why they have none.
pub open spec fn dot_result(a: Seq<i32>, b: Seq<i32>) -> Result<i32, Seq<char>> {
    if a.len() != b.len() {
        Err("dot width mismatch: "@ + dec(a.len()) + " vs "@ + dec(b.len()))
    } else {
        Ok(dot_spec(a, b))
    }
}

/// Q16.16 inner product: full-width products are accumulated and requantized
/// once.
pub fn dot(a: &[i32], b: &[i32]) -> (r: Result<i32, String>)
    ensures
        outcome(r, dot_result(a@, b@)),
{
    if a.len() != b.len() {
        return Err(
            String::from_str("dot width mismatch: ").concat(decimal(a.len() as u64).as_str()).concat(
                " vs ",
            ).concat(decimal(b.len() as u64).as_str()),
        );
    }
    let mut acc: i64 = 0;
    let mut i: usize = 0;
    while i < a.len()
        invariant
            i <= a.len(),
            a@.len() == b@.len(),
            acc == mac_prefix(a@, b@, i as nat),
        decreases a.len() - i,
    {
        acc = mac_bits(acc, a[i], b[i]);
        i += 1;
    }
    Ok(requantize(acc))
}

/// What weighted root-mean-square normalisation makes of a row, or why it
/// refuses it.
pub open spec fn rms_norm_result<K: Fn(KernelCall) -> Vec<i32>>(
    kernels: K,
    row: Seq<i32>,
    weights: Seq<i32>,
    eps: i64,
) -> Result<Seq<i32>, Seq<char>> {
    if row.len() != weights.len() {
        Err(
            "rms norm width mismatch: "@ + dec(row.len()) + " values vs "@ + dec(weights.len())
                + " weights"@,
        )
    } else if row.len() == 0 {
        Err("rms norm requires at least one value"@)
    } else if eps < 0 {
        Err("rms norm epsilon must be non-negative"@)
    } else {
        Ok(answer(kernels, KernelRequest::RmsNorm { lanes: row, weights, eps }))
    }
}

fn copy_into(row: &mut [i32], lanes: &Vec<i32>)
    requires
        lanes@.len() == old(row)@.len(),
    ensures
        final(row)@ == lanes@,
{
    let mut i: usize = 0;
    while i < row.len()
        invariant
            i <= row.len(),
            row@.len() == lanes@.len(),
            forall|j: int| 0 <= j < i ==> row@[j] == lanes@[j],
        decreases row.len() - i,
    {
        row[i] = lanes[i];
        i += 1;
    }
    assert(row@ =~= lanes@);
}

/// Weighted root-mean-square normalisation, in place. A refused row is left
/// as it was.
pub fn rms_norm<K: Fn(KernelCall) -> Vec<i32>>(
    kernels: &K,
    row: &mut [i32],
    weights: &[i32],
    eps: i64,
) -> (r: Result<(), String>)
    requires
        reliable(*kernels),
    ensures
        match rms_norm_result(*kernels, old(row)@, weights@, eps) {
            Ok(lanes) => r is Ok && final(row)@ == lanes,
            Err(e) => r matches Err(s) && s@ == e && final(row)@ == old(row)@,
        },
        final(row)@.len() == old(row)@.len(),
{
    if row.len() != weights.len() {
        return Err(
            String::from_str("rms norm width mismatch: ").concat(
                decimal(row.len() as u64).as_str(),
            ).concat(" values vs ").concat(decimal(weights.len() as u64).as_str()).concat(
                " weights",
            ),
        );
    }
    if row.len() == 0 {
        return Err(String::from_str("rms norm requires at least one value"));
    }
    if eps < 0 {
        return Err(String::from_str("rms norm epsilon must be non-negative"));
    }
    let lanes: Vec<i32> = consult(
        kernels,
        KernelCall::RmsNorm { lanes: slice_to_vec(row), weights: slice_to_vec(weights), eps },
    );
    copy_into(row, &lanes);
    Ok(())
}

/// What weightless root-mean-square normalisation makes of a row, or why it
/// refuses it.
pub open spec fn value_rms_norm_result<K: Fn(KernelCall) -> Vec<i32>>(
    kernels: K,
    row: Seq<i32>,
    eps: i64,
) -> Result<Seq<i32>, Seq<char>> {
    if row.len() == 0 {
        Err("value rms norm requires at least one value"@)
    } else if eps < 0 {
        Err("value rms norm epsilon must be non-negative"@)
    } else {
        Ok(answer(kernels, KernelRequest::ValueRmsNorm { lanes: row, eps }))
    }
}

/// Weightless root-mean-square normalisation, in place. A refused row is left
/// as it was.
pub fn value_rms_norm<K: Fn(KernelCall) -> Vec<i32>>(
    kernels: &K,
    row: &mut [i32],
    eps: i64,
) -> (r: Result<(), String>)
    requires
        reliable(*kernels),
    ensures
        match value_rms_norm_result(*kernels, old(row)@, eps) {
            Ok(lanes) => r is Ok && final(row)@ == lanes,
            Err(e) => r matches Err(s) && s@ == e && final(row)@ == old(row)@,
        },
        final(row)@.len() == old(row)@.len(),
{
    if row.len() == 0 {
        return Err(String::from_str("value rms norm requires at least one value"));
    }
    if eps < 0 {
        return Err(String::from_str("value rms norm epsilon must be non-negative"));
    }
    let lanes: Vec<i32> = consult(
        kernels,
        KernelCall::ValueRmsNorm { lanes: slice_to_vec(row), eps },
    );
    copy_into(row, &lanes);
    Ok(())
}

/// GELU of one value.
pub open spec fn gelu_spec<K: Fn(KernelCall) -> Vec<i32>>(kernels: K, x: i32) -> i32 {
    answer(kernels, KernelRequest::Gelu { value: x })[0]
}

/// GELU in its tanh form.
pub fn gelu<K: Fn(KernelCall) -> Vec<i32>>(kernels: &K, x: i32) -> (r: i32)
    requires
        reliable(*kernels),
    ensures
        r == gelu_spec(*kernels, x),
{
    consult(kernels, KernelCall::Gelu { value: x })[0]
}

/// A logit after softcapping; a cap that is not positive leaves it alone.
pub open spec fn softcap_spec<K: Fn(KernelCall) -> Vec<i32>>(
    kernels: K,
    value: i32,
    cap: i32,
) -> i32 {
    if cap <= 0 {
        value
    } else {
        answer(kernels, KernelRequest::Softcap { value, cap })[0]
    }
}

/// Final-logit softcapping: `cap * tanh(value / cap)`.
pub fn softcap<K: Fn(KernelCall) -> Vec<i32>>(kernels: &K, value: i32, cap: i32) -> (r: i32)
    requires
        reliable(*kernels),
    ensures
        r == softcap_spec(*kernels, value, cap),
{
    if cap <= 0 {
        return value;
    }
    consult(kernels, KernelCall::Softcap { value, cap })[0]
}

} // verus!
