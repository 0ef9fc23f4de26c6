//! Q16.16 arithmetic that rounds down.
//!
//! The per-layer-embedding stage multiplies with a shift, which rounds towards
//! negative infinity, and takes its square root by Newton's method on integers.

use crate::det_num::clamp_int;
use crate::numerics::dot_result;
use crate::text::decimal;
use vstd::prelude::*;

verus! {

/// The Q16.16 product rounded down, before saturation.
pub open spec fn floor_product(a: i32, b: i32) -> int {
    (a * b) / 65536
}

/// The sum of the first `n` lane products, each rounded down.
pub open spec fn floor_sum(a: Seq<i32>, b: Seq<i32>, n: nat) -> int
    decreases n,
{
    if n == 0 {
        0
    } else {
        floor_sum(a, b, (n - 1) as nat) + floor_product(a[n - 1], b[n - 1])
    }
}

/// The inner product of two rows of one width, every product rounded down.
pub open spec fn floor_dot_spec(a: Seq<i32>, b: Seq<i32>) -> i32 {
    clamp_int(floor_sum(a, b, a.len())) as i32
}

/// The product of two Q16.16 values rounded down, before saturation.
pub fn floor_mul_wide(a: i32, b: i32) -> (r: i64)
    ensures
        r == floor_product(a, b),
        -0x4000_0000_0000 <= r <= 0x4000_0000_0000,
{
    assert(-0x4000_0000_0000_0000 <= a * b <= 0x4000_0000_0000_0000) by (nonlinear_arith)
        requires
            -0x8000_0000 <= a < 0x8000_0000,
            -0x8000_0000 <= b < 0x8000_0000,
    ;
    // Biasing by a multiple of the divisor keeps the division unsigned.
    let biased: u64 = ((a as i64 * b as i64) as i128 + 0x4000_0000_0000_0000) as u64;
    (biased / 65536) as i64 - 0x4000_0000_0000
}

/// Q16.16 inner product, every product rounded down.
pub fn floor_dot(a: &[i32], b: &[i32]) -> (r: Result<i32, String>)
    ensures
        match dot_result(a@, b@) {
            Ok(_) => r matches Ok(v) && v == floor_dot_spec(a@, b@),
            Err(e) => r matches Err(s) && s@ == e,
        },
{
    if a.len() != b.len() {
        return Err(
            String::from_str("dot width mismatch: ").concat(decimal(a.len() as u64).as_str()).concat(
                " vs ",
            ).concat(decimal(b.len() as u64).as_str()),
        );
    }
    let mut acc: i128 = 0;
    let mut i: usize = 0;
    while i < a.len()
        invariant
            i <= a.len(),
            a@.len() == b@.len(),
            acc == floor_sum(a@, b@, i as nat),
            -0x4000_0000_0000 * i <= acc <= 0x4000_0000_0000 * i,
        decreases a.len() - i,
    {
        acc = acc + floor_mul_wide(a[i], b[i]) as i128;
        i += 1;
    }
    if acc > i32::MAX as i128 {
        Ok(i32::MAX)
    } else if acc < i32::MIN as i128 {
        Ok(i32::MIN)
    } else {
        Ok(acc as i32)
    }
}

} // verus!
