//! The transcendental kernels the chain is run with.
//!
//! Root-mean-square normalisation, GELU, logit softcapping, the rotary
//! rotation and the softmax are numeric routines that are supplied to the
//! stages rather than fixed by them. A supplier is one function from a
//! [`KernelCall`] to the lanes it answers with; the stages only rely on it
//! being total, on its answer depending on the request alone, and on the answer
//! being as wide as the request.

use vstd::prelude::*;

verus! {

/// One request to the kernel supplier.
pub enum KernelCall {
    /// Weighted root-mean-square normalisation of a row; `eps` is Q32.32 bits.
    RmsNorm { lanes: Vec<i32>, weights: Vec<i32>, eps: i64 },
    /// Weightless root-mean-square normalisation of a row.
    ValueRmsNorm { lanes: Vec<i32>, eps: i64 },
    /// GELU in its tanh form, of one value.
    Gelu { value: i32 },
    /// `cap * tanh(value / cap)`.
    Softcap { value: i32, cap: i32 },
    /// Rotary rotation of the given lanes at a sequence position.
    Rope { lanes: Vec<i32>, freq_base_dim: usize, base: i64, position: usize },
    /// Softmax over one head's scores.
    Softmax { lanes: Vec<i32> },
}

/// A request as a mathematical value.
#[verifier::ext_equal]
pub enum KernelRequest {
    RmsNorm { lanes: Seq<i32>, weights: Seq<i32>, eps: i64 },
    ValueRmsNorm { lanes: Seq<i32>, eps: i64 },
    Gelu { value: i32 },
    Softcap { value: i32, cap: i32 },
    Rope { lanes: Seq<i32>, freq_base_dim: usize, base: i64, position: usize },
    Softmax { lanes: Seq<i32> },
}

impl View for KernelCall {
    type V = KernelRequest;

    open spec fn view(&self) -> KernelRequest {
        match *self {
            KernelCall::RmsNorm { lanes, weights, eps } => KernelRequest::RmsNorm {
                lanes: lanes@,
                weights: weights@,
                eps,
            },
            KernelCall::ValueRmsNorm { lanes, eps } => KernelRequest::ValueRmsNorm {
                lanes: lanes@,
                eps,
            },
            KernelCall::Gelu { value } => KernelRequest::Gelu { value },
            KernelCall::Softcap { value, cap } => KernelRequest::Softcap { value, cap },
            KernelCall::Rope { lanes, freq_base_dim, base, position } => KernelRequest::Rope {
                lanes: lanes@,
                freq_base_dim,
                base,
                position,
            },
            KernelCall::Softmax { lanes } => KernelRequest::Softmax { lanes: lanes@ },
        }
    }
}

impl KernelRequest {
    /// How many lanes a request is answered with.
    pub open spec fn width(self) -> nat {
        match self {
            KernelRequest::RmsNorm { lanes, .. } => lanes.len(),
            KernelRequest::ValueRmsNorm { lanes, .. } => lanes.len(),
            KernelRequest::Gelu { .. } => 1,
            KernelRequest::Softcap { .. } => 1,
            KernelRequest::Rope { lanes, .. } => lanes.len(),
            KernelRequest::Softmax { lanes } => lanes.len(),
        }
    }
}

/// The supplier may answer `request` with `lanes`.
pub open spec fn may_answer<K: Fn(KernelCall) -> Vec<i32>>(
    kernels: K,
    request: KernelRequest,
    lanes: Seq<i32>,
) -> bool {
    exists|call: KernelCall, out: Vec<i32>| #[trigger]
        call_ensures(kernels, (call,), out) && call@ == request && out@ == lanes
}

/// What the supplier answers a request with.
pub open spec fn answer<K: Fn(KernelCall) -> Vec<i32>>(
    kernels: K,
    request: KernelRequest,
) -> Seq<i32> {
    choose|lanes: Seq<i32>| may_answer(kernels, request, lanes)
}

/// The supplier takes every request, answers equal requests equally, and
/// answers each with as many lanes as the request has.
pub open spec fn reliable<K: Fn(KernelCall) -> Vec<i32>>(kernels: K) -> bool {
    &&& forall|call: KernelCall| call_requires(kernels, (call,))
    &&& forall|request: KernelRequest, a: Seq<i32>, b: Seq<i32>| #[trigger]
        may_answer(kernels, request, a) && #[trigger] may_answer(kernels, request, b) ==> a == b
    &&& forall|request: KernelRequest, a: Seq<i32>| #[trigger]
        may_answer(kernels, request, a) ==> a.len() == request.width()
}

/// Puts one request to the supplier.
pub fn consult<K: Fn(KernelCall) -> Vec<i32>>(kernels: &K, call: KernelCall) -> (lanes: Vec<i32>)
    requires
        reliable(*kernels),
    ensures
        lanes@ == answer(*kernels, call@),
        lanes@.len() == call@.width(),
{
    let ghost request = call@;
    let lanes: Vec<i32> = kernels(call);
    assert(may_answer(*kernels, request, lanes@));
    lanes
}

} // verus!
