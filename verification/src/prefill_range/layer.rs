//! Second pass, the rest of the layer: output projection, feed-forward block,
//! per-layer-embedding block, and the stage that runs both passes.

use crate::activations::{
    ActivationRow, ActivationSequence, ActivationsView, KeyRow, KeyView, PleRow, RowView,
};
use crate::det_num::mul_spec;
use crate::kernels::{reliable, KernelCall};
use crate::lists::views_of_push;
use crate::numerics::{
    add_row, gelu, gelu_spec, rms_norm, rms_norm_result, row_sum, scale_row, scaled,
};
use crate::pages::{
    lanes_of, pack_i32s, packed, standalone, unpack_i32s, BytesPage, PageView,
};
use crate::prefill_range::attend::failed_vec;
use crate::packed::{bad, good, PackedView, ProjAccum, zero_lanes, zeros};
use crate::prefill_range::input::{LayerParams, PackedVec, QueryRow, QueryView};
use crate::prefill_range::project::{projected, token_error, token_message};
use crate::text::{dec, decimal, outcome};
use vstd::prelude::*;

verus! {

/// A row normalised by a packed weight vector, or why it cannot be.
pub open spec fn normed_by<K: Fn(KernelCall) -> Vec<i32>>(
    kernels: K,
    row: Seq<i32>,
    weights: PageView,
    eps: i64,
) -> Result<Seq<i32>, Seq<char>> {
    match lanes_of(weights.bytes) {
        Err(e) => Err(e),
        Ok(weights) => rms_norm_result(kernels, row, weights, eps),
    }
}

/// Normalises a row by a packed weight vector, in place.
fn norm_by<K: Fn(KernelCall) -> Vec<i32>>(
    kernels: &K,
    row: &mut Vec<i32>,
    weights: &BytesPage,
    eps: i64,
) -> (r: Result<(), String>)
    requires
        reliable(*kernels),
    ensures
        match normed_by(*kernels, old(row)@, weights@, eps) {
            Ok(lanes) => r is Ok && final(row)@ == lanes,
            Err(e) => r matches Err(s) && s@ == e,
        },
{
    let lanes: Vec<i32> = match unpack_i32s(weights) {
        Ok(lanes) => lanes,
        Err(e) => return Err(e),
    };
    rms_norm(kernels, row.as_mut_slice(), lanes.as_slice(), eps)
}

/// A packed row normalised and added to a packed residual, or why it cannot be.
pub open spec fn normed_plus<K: Fn(KernelCall) -> Vec<i32>>(
    kernels: K,
    row: PageView,
    weights: PageView,
    eps: i64,
    residual: PageView,
) -> Result<Seq<i32>, Seq<char>> {
    match lanes_of(row.bytes) {
        Err(e) => Err(e),
        Ok(row) => match normed_by(kernels, row, weights, eps) {
            Err(e) => Err(e),
            Ok(normed) => match lanes_of(residual.bytes) {
                Err(e) => Err(e),
                Ok(residual) => row_sum(normed, residual),
            },
        },
    }
}

fn norm_plus<K: Fn(KernelCall) -> Vec<i32>>(
    kernels: &K,
    row: &BytesPage,
    weights: &BytesPage,
    eps: i64,
    residual: &BytesPage,
) -> (r: Result<Vec<i32>, String>)
    requires
        reliable(*kernels),
    ensures
        outcome(r, normed_plus(*kernels, row@, weights@, eps, residual@)),
{
    let mut lanes: Vec<i32> = match unpack_i32s(row) {
        Ok(lanes) => lanes,
        Err(e) => return Err(e),
    };
    match norm_by(kernels, &mut lanes, weights, eps) {
        Ok(()) => {},
        Err(e) => return Err(e),
    }
    let residual: Vec<i32> = match unpack_i32s(residual) {
        Ok(lanes) => lanes,
        Err(e) => return Err(e),
    };
    match add_row(lanes.as_mut_slice(), residual.as_slice()) {
        Ok(()) => {},
        Err(e) => return Err(e),
    }
    Ok(lanes)
}

/// The residual stream after attention.
pub open spec fn attn_residual_spec<K: Fn(KernelCall) -> Vec<i32>>(
    kernels: K,
    query: QueryView,
    context: PackedView,
    attn_proj: PackedView,
    params: LayerParams,
) -> PackedView {
    if context.error.len() > 0 {
        bad(Seq::empty(), token_message(query.position, context.error))
    } else if attn_proj.error.len() > 0 {
        bad(Seq::empty(), token_message(query.position, attn_proj.error))
    } else {
        match normed_plus(
            kernels,
            attn_proj.values,
            params.norm_post_attn@,
            params.norm_eps,
            query.residual,
        ) {
            Ok(lanes) => good(lanes),
            Err(e) => bad(Seq::empty(), token_message(query.position, e)),
        }
    }
}

/// Post-attention norm and residual add after the output projection.
pub fn attn_residual<K: Fn(KernelCall) -> Vec<i32>>(
    kernels: &K,
    query: &QueryRow,
    context: &PackedVec,
    attn_proj: &ProjAccum,
    params: &LayerParams,
) -> (r: PackedVec)
    requires
        reliable(*kernels),
    ensures
        r@ == attn_residual_spec(*kernels, query@, context@, attn_proj@, *params),
{
    if !context.error.as_str().is_empty() {
        return failed_vec(token_error(query.position, &context.error));
    }
    if !attn_proj.error.as_str().is_empty() {
        return failed_vec(token_error(query.position, &attn_proj.error));
    }
    match norm_plus(
        kernels,
        &attn_proj.values,
        &params.norm_post_attn,
        params.norm_eps,
        &query.residual,
    ) {
        Ok(values) => PackedVec { values: pack_i32s(values.as_slice()), error: String::new() },
        Err(error) => failed_vec(token_error(query.position, &error)),
    }
}

/// The normalised input of the feed-forward block; a failure comes with zeroed
/// lanes of hidden width.
pub open spec fn pre_ff_norm_spec<K: Fn(KernelCall) -> Vec<i32>>(
    kernels: K,
    attn: PackedView,
    params: LayerParams,
) -> PackedView {
    let zeroed = zeros(params.hidden_size as nat);
    if attn.error.len() > 0 {
        bad(zeroed, attn.error)
    } else {
        match lanes_of(attn.values.bytes) {
            Err(e) => bad(zeroed, e),
            Ok(lanes) => match normed_by(kernels, lanes, params.norm_pre_ffw@, params.norm_eps) {
                Err(e) => bad(zeroed, e),
                Ok(normed) => good(normed),
            },
        }
    }
}

fn zeroed_vec(n: u32, error: String) -> (r: PackedVec)
    ensures
        r@ == bad(zeros(n as nat), error@),
{
    let zeroed: Vec<i32> = zero_lanes(n);
    PackedVec { values: pack_i32s(zeroed.as_slice()), error }
}

/// Norm before the feed-forward block.
pub fn pre_ff_norm<K: Fn(KernelCall) -> Vec<i32>>(
    kernels: &K,
    attn: &PackedVec,
    params: &LayerParams,
) -> (r: PackedVec)
    requires
        reliable(*kernels),
    ensures
        r@ == pre_ff_norm_spec(*kernels, attn@, *params),
{
    if !attn.error.as_str().is_empty() {
        return zeroed_vec(params.hidden_size, attn.error.clone());
    }
    let mut lanes: Vec<i32> = match unpack_i32s(&attn.values) {
        Ok(lanes) => lanes,
        Err(e) => return zeroed_vec(params.hidden_size, e),
    };
    match norm_by(kernels, &mut lanes, &params.norm_pre_ffw, params.norm_eps) {
        Ok(()) => PackedVec { values: pack_i32s(lanes.as_slice()), error: String::new() },
        Err(e) => zeroed_vec(params.hidden_size, e),
    }
}

/// GELU of one row times another, lane by lane.
pub open spec fn gated<K: Fn(KernelCall) -> Vec<i32>>(
    kernels: K,
    gate: Seq<i32>,
    up: Seq<i32>,
) -> Seq<i32> {
    Seq::new(gate.len(), |i: int| mul_spec(gelu_spec(kernels, gate[i]), up[i]))
}

fn gate_rows<K: Fn(KernelCall) -> Vec<i32>>(kernels: &K, gate: &Vec<i32>, up: &Vec<i32>) -> (r: Vec<
    i32,
>)
    requires
        reliable(*kernels),
        gate@.len() == up@.len(),
    ensures
        r@ == gated(*kernels, gate@, up@),
{
    let mut out: Vec<i32> = Vec::new();
    let mut i: usize = 0;
    while i < gate.len()
        invariant
            i <= gate.len(),
            reliable(*kernels),
            gate@.len() == up@.len(),
            out@.len() == i,
            forall|j: int| 0 <= j < i ==> out@[j] == mul_spec(gelu_spec(*kernels, gate@[j]), up@[j]),
        decreases gate.len() - i,
    {
        out.push(crate::numerics::mul(gelu(kernels, gate[i]), up[i]));
        i += 1;
    }
    assert(out@ =~= gated(*kernels, gate@, up@));
    out
}

/// `gelu(gate) * up`, or the failure of either.
pub open spec fn gelu_mul_spec<K: Fn(KernelCall) -> Vec<i32>>(
    kernels: K,
    gate: PackedView,
    up: PackedView,
) -> PackedView {
    if gate.error.len() > 0 {
        bad(Seq::empty(), gate.error)
    } else if up.error.len() > 0 {
        bad(Seq::empty(), up.error)
    } else {
        match (lanes_of(gate.values.bytes), lanes_of(up.values.bytes)) {
            (Err(e), _) => bad(Seq::empty(), e),
            (_, Err(e)) => bad(Seq::empty(), e),
            (Ok(gate), Ok(up)) => if gate.len() != up.len() {
                bad(
                    Seq::empty(),
                    "gate/up width mismatch: "@ + dec(gate.len()) + " vs "@ + dec(up.len()),
                )
            } else {
                good(gated(kernels, gate, up))
            },
        }
    }
}

/// Elementwise `gelu(gate) * up`.
pub fn gelu_mul<K: Fn(KernelCall) -> Vec<i32>>(kernels: &K, gate: &ProjAccum, up: &ProjAccum) -> (r:
    PackedVec)
    requires
        reliable(*kernels),
    ensures
        r@ == gelu_mul_spec(*kernels, gate@, up@),
{
    if !gate.error.as_str().is_empty() {
        return failed_vec(gate.error.clone());
    }
    if !up.error.as_str().is_empty() {
        return failed_vec(up.error.clone());
    }
    let gate: Vec<i32> = match unpack_i32s(&gate.values) {
        Ok(lanes) => lanes,
        Err(e) => return failed_vec(e),
    };
    let up: Vec<i32> = match unpack_i32s(&up.values) {
        Ok(lanes) => lanes,
        Err(e) => return failed_vec(e),
    };
    if gate.len() != up.len() {
        return failed_vec(
            String::from_str("gate/up width mismatch: ").concat(
                decimal(gate.len() as u64).as_str(),
            ).concat(" vs ").concat(decimal(up.len() as u64).as_str()),
        );
    }
    let out: Vec<i32> = gate_rows(kernels, &gate, &up);
    PackedVec { values: pack_i32s(out.as_slice()), error: String::new() }
}

/// The residual stream after the feed-forward block, or why it has none.
pub open spec fn mlp_lanes<K: Fn(KernelCall) -> Vec<i32>>(
    kernels: K,
    residual: PackedView,
    ff_in: PackedView,
    ff: PackedView,
    params: LayerParams,
) -> Result<Seq<i32>, Seq<char>> {
    if residual.error.len() > 0 {
        Err(residual.error)
    } else if ff_in.error.len() > 0 {
        Err(ff_in.error)
    } else if ff.error.len() > 0 {
        Err(ff.error)
    } else {
        match lanes_of(residual.values.bytes) {
            Err(e) => Err(e),
            Ok(_) => normed_plus(
                kernels,
                ff.values,
                params.norm_post_ffw@,
                params.norm_eps,
                residual.values,
            ),
        }
    }
}

fn mlp_lanes_of<K: Fn(KernelCall) -> Vec<i32>>(
    kernels: &K,
    residual: &PackedVec,
    ff_in: &PackedVec,
    ff: &ProjAccum,
    params: &LayerParams,
) -> (r: Result<Vec<i32>, String>)
    requires
        reliable(*kernels),
    ensures
        outcome(r, mlp_lanes(*kernels, residual@, ff_in@, ff@, *params)),
{
    if !residual.error.as_str().is_empty() {
        return Err(residual.error.clone());
    }
    if !ff_in.error.as_str().is_empty() {
        return Err(ff_in.error.clone());
    }
    if !ff.error.as_str().is_empty() {
        return Err(ff.error.clone());
    }
    match unpack_i32s(&residual.values) {
        Ok(_) => {},
        Err(e) => return Err(e),
    }
    norm_plus(kernels, &ff.values, &params.norm_post_ffw, params.norm_eps, &residual.values)
}

/// Post-feed-forward norm and residual add.
pub fn mlp_residual<K: Fn(KernelCall) -> Vec<i32>>(
    kernels: &K,
    residual: &PackedVec,
    ff_in: &PackedVec,
    ff: &ProjAccum,
    params: &LayerParams,
) -> (r: PackedVec)
    requires
        reliable(*kernels),
    ensures
        r@ == match mlp_lanes(*kernels, residual@, ff_in@, ff@, *params) {
            Ok(lanes) => good(lanes),
            Err(e) => bad(Seq::empty(), e),
        },
{
    match mlp_lanes_of(kernels, residual, ff_in, ff, params) {
        Ok(values) => PackedVec { values: pack_i32s(values.as_slice()), error: String::new() },
        Err(error) => failed_vec(error),
    }
}

/// A row scaled by the layer scalar, if the layer has one.
pub open spec fn layer_scaled(lanes: Seq<i32>, params: LayerParams) -> Seq<i32> {
    if params.layer_scalar != 0 {
        scaled(lanes, params.layer_scalar)
    } else {
        lanes
    }
}

/// The layer output with one more token in it: its row, or the message of its
/// failure, and its cache entry either way.
pub open spec fn with_row(
    output: ActivationsView,
    query: QueryView,
    lanes: Result<Seq<i32>, Seq<char>>,
    own_key: KeyView,
) -> ActivationsView {
    ActivationsView {
        rows: match lanes {
            Ok(lanes) => output.rows.push(
                RowView { token_id: query.token_id, values: standalone(packed(lanes)) },
            ),
            Err(_) => output.rows,
        },
        errors: match lanes {
            Ok(_) => output.errors,
            Err(e) => output.errors.push(token_message(query.position, e)),
        },
        kv: output.kv.push(own_key),
        start_position: output.start_position,
    }
}

/// A row after the layer scalar, or the failure it carries.
pub open spec fn scaled_result(
    lanes: Result<Seq<i32>, Seq<char>>,
    params: LayerParams,
) -> Result<Seq<i32>, Seq<char>> {
    match lanes {
        Ok(lanes) => Ok(layer_scaled(lanes, params)),
        Err(e) => Err(e),
    }
}

fn append_row(
    output: ActivationSequence,
    query: &QueryRow,
    lanes: Result<Vec<i32>, String>,
    params: &LayerParams,
    own_key: KeyRow,
    Ghost(expected): Ghost<Result<Seq<i32>, Seq<char>>>,
) -> (r: ActivationSequence)
    requires
        outcome(lanes, expected),
    ensures
        r@ == with_row(output@, query@, scaled_result(expected, *params), own_key@),
{
    broadcast use views_of_push;

    let mut output: ActivationSequence = output;
    match lanes {
        Ok(values) => {
            let mut values: Vec<i32> = values;
            if params.layer_scalar != 0 {
                scale_row(values.as_mut_slice(), params.layer_scalar);
            }
            output.rows.push(
                ActivationRow { token_id: query.token_id, values: pack_i32s(values.as_slice()) },
            );
        },
        Err(error) => {
            output.errors.push(token_error(query.position, &error));
        },
    }
    output.kv.push(own_key);
    output
}

/// Finishes a layer that has no per-layer-embedding block: post-feed-forward
/// norm, residual add, layer scalar, and the appended row and cache entry.
pub fn finish_mlp<K: Fn(KernelCall) -> Vec<i32>>(
    kernels: &K,
    output: ActivationSequence,
    query: &QueryRow,
    residual: &PackedVec,
    ff_in: &PackedVec,
    ff: &ProjAccum,
    params: &LayerParams,
    own_key: KeyRow,
) -> (r: ActivationSequence)
    requires
        reliable(*kernels),
    ensures
        r@ == with_row(
            output@,
            query@,
            scaled_result(mlp_lanes(*kernels, residual@, ff_in@, ff@, *params), *params),
            own_key@,
        ),
{
    let lanes: Result<Vec<i32>, String> = mlp_lanes_of(kernels, residual, ff_in, ff, params);
    append_row(
        output,
        query,
        lanes,
        params,
        own_key,
        Ghost(mlp_lanes(*kernels, residual@, ff_in@, ff@, *params)),
    )
}

/// `gelu(gate) * ple`, or the failure it carries.
pub open spec fn ple_gate_spec<K: Fn(KernelCall) -> Vec<i32>>(
    kernels: K,
    gate: PackedView,
    ple: PageView,
) -> PackedView {
    if gate.error.len() > 0 {
        bad(Seq::empty(), gate.error)
    } else {
        match (lanes_of(gate.values.bytes), lanes_of(ple.bytes)) {
            (Err(e), _) => bad(Seq::empty(), e),
            (_, Err(e)) => bad(Seq::empty(), e),
            (Ok(gate), Ok(ple)) => if gate.len() != ple.len() {
                bad(
                    Seq::empty(),
                    "gate/PLE width mismatch: "@ + dec(gate.len()) + " vs "@ + dec(ple.len()),
                )
            } else {
                good(gated(kernels, gate, ple))
            },
        }
    }
}

/// Each lane of the per-layer embedding times GELU of its gating lane.
pub fn ple_gate_mul<K: Fn(KernelCall) -> Vec<i32>>(kernels: &K, gate: &ProjAccum, ple: &PleRow) -> (
r: PackedVec)
    requires
        reliable(*kernels),
    ensures
        r@ == ple_gate_spec(*kernels, gate@, ple@),
{
    if !gate.error.as_str().is_empty() {
        return failed_vec(gate.error.clone());
    }
    let gate: Vec<i32> = match unpack_i32s(&gate.values) {
        Ok(lanes) => lanes,
        Err(e) => return failed_vec(e),
    };
    let ple: Vec<i32> = match unpack_i32s(&ple.values) {
        Ok(lanes) => lanes,
        Err(e) => return failed_vec(e),
    };
    if gate.len() != ple.len() {
        return failed_vec(
            String::from_str("gate/PLE width mismatch: ").concat(
                decimal(gate.len() as u64).as_str(),
            ).concat(" vs ").concat(decimal(ple.len() as u64).as_str()),
        );
    }
    let out: Vec<i32> = gate_rows(kernels, &gate, &ple);
    PackedVec { values: pack_i32s(out.as_slice()), error: String::new() }
}

/// The residual stream after the per-layer-embedding block, or why it has none.
pub open spec fn layer_lanes<K: Fn(KernelCall) -> Vec<i32>>(
    kernels: K,
    xs: PackedView,
    projected: PackedView,
    params: LayerParams,
) -> Result<Seq<i32>, Seq<char>> {
    if xs.error.len() > 0 {
        Err(xs.error)
    } else if projected.error.len() > 0 {
        Err(projected.error)
    } else {
        normed_plus(kernels, projected.values, params.ple_post_norm@, params.norm_eps, xs.values)
    }
}

/// Finishes a layer: norm and residual add of the per-layer-embedding block,
/// layer scalar, and the appended row and cache entry.
pub fn finish_layer<K: Fn(KernelCall) -> Vec<i32>>(
    kernels: &K,
    output: ActivationSequence,
    query: &QueryRow,
    xs: &PackedVec,
    projected: &ProjAccum,
    params: &LayerParams,
    own_key: KeyRow,
) -> (r: ActivationSequence)
    requires
        reliable(*kernels),
    ensures
        r@ == with_row(
            output@,
            query@,
            scaled_result(layer_lanes(*kernels, xs@, projected@, *params), *params),
            own_key@,
        ),
{
    let lanes: Result<Vec<i32>, String> = if !xs.error.as_str().is_empty() {
        Err(xs.error.clone())
    } else if !projected.error.as_str().is_empty() {
        Err(projected.error.clone())
    } else {
        norm_plus(kernels, &projected.values, &params.ple_post_norm, params.norm_eps, &xs.values)
    };
    append_row(
        output,
        query,
        lanes,
        params,
        own_key,
        Ghost(layer_lanes(*kernels, xs@, projected@, *params)),
    )
}

} // verus!
