//! Packed vectors that may carry a failure.

use crate::pages::{pack_i32s, packed, standalone, BytesPage, PageView};
use vstd::prelude::*;

verus! {

/// A packed vector that may carry a failure, as a mathematical value.
#[verifier::ext_equal]
pub struct PackedView {
    pub values: PageView,
    pub error: Seq<char>,
}

/// A vector that carries no failure.
pub open spec fn good(lanes: Seq<i32>) -> PackedView {
    PackedView { values: standalone(packed(lanes)), error: Seq::empty() }
}

/// A vector that carries a failure.
pub open spec fn bad(lanes: Seq<i32>, error: Seq<char>) -> PackedView {
    PackedView { values: standalone(packed(lanes)), error }
}

/// `n` zero lanes.
pub open spec fn zeros(n: nat) -> Seq<i32> {
    Seq::new(n, |i: int| 0i32)
}

/// Matrix-vector accumulator: packed output lanes, plus an error if a page
/// failed.
pub struct ProjAccum {
    pub values: BytesPage,
    pub error: String,
}

impl View for ProjAccum {
    type V = PackedView;

    open spec fn view(&self) -> PackedView {
        PackedView { values: self.values@, error: self.error@ }
    }
}

/// A zero-filled vector.
pub fn zero_lanes(n: u32) -> (lanes: Vec<i32>)
    ensures
        lanes@ == zeros(n as nat),
{
    let lanes: Vec<i32> = vec![0i32;n as usize];
    assert(lanes@ =~= zeros(n as nat));
    lanes
}

/// A zeroed accumulator of `out_len` lanes.
pub fn zero_accum(out_len: u32) -> (r: ProjAccum)
    ensures
        r@ == good(zeros(out_len as nat)),
{
    let lanes: Vec<i32> = zero_lanes(out_len);
    ProjAccum { values: pack_i32s(lanes.as_slice()), error: String::new() }
}

} // verus!
