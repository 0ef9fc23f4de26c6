//! First pass: shape checks, and the projection of every token to its query,
//! key and value rows.

use crate::activations::{ActivationRow, KeyRow, KeyView, RowView};
use crate::kernels::{answer, consult, reliable, KernelCall, KernelRequest};
use crate::lists::{views, views_of_empty, views_of_push};
use crate::numerics::{
    rms_norm, rms_norm_result, value_rms_norm, value_rms_norm_result,
};
use crate::pages::{lanes_of, pack_i32s, packed, standalone, unpack_i32s, BytesPage, PageView};
use crate::packed::{PackedView, ProjAccum, zero_lanes, zeros};
use crate::prefill_range::input::{KvSequence, KvView, LayerParams, PackedVec, PrepView, QkvPrep, QueryRow, QueryView, TokenCursor};
use crate::prefill_range::matvec::{matvec, matvec_spec};
use crate::text::{dec, decimal, outcome};
use vstd::prelude::*;
use vstd::slice::slice_to_vec;

verus! {

/// The message for a norm vector of the wrong width.
pub open spec fn width_message(layer_idx: u32, name: Seq<char>, have: nat, values: u32) -> Seq<
    char,
> {
    "layer "@ + dec(layer_idx as nat) + " "@ + name + " has "@ + dec(have) + " bytes, expected "@
        + dec((4 * values) as nat) + " ("@ + dec(values as nat) + " values)"@
}

/// Why a layer's declared shapes are refused, if they are.
pub open spec fn params_error(p: LayerParams) -> Option<Seq<char>> {
    if p.hidden_size == 0 || p.ffn_size == 0 {
        Some("transformer layer requires non-zero hidden_size and ffn_size"@)
    } else if p.num_heads == 0 || p.num_kv_heads == 0 || p.head_dim == 0 {
        Some("transformer layer requires non-zero num_heads, num_kv_heads and head_dim"@)
    } else if p.num_heads % p.num_kv_heads != 0 {
        Some(
            "layer "@ + dec(p.layer_idx as nat) + ": "@ + dec(p.num_heads as nat)
                + " query heads do not group evenly over "@ + dec(p.num_kv_heads as nat)
                + " kv heads"@,
        )
    } else if p.rotary_dim % 2 != 0 {
        Some(
            "layer "@ + dec(p.layer_idx as nat) + ": rotary_dim "@ + dec(p.rotary_dim as nat)
                + " must be even"@,
        )
    } else if p.rotary_dim > p.head_dim {
        Some(
            "layer "@ + dec(p.layer_idx as nat) + ": rotary_dim "@ + dec(p.rotary_dim as nat)
                + " exceeds head_dim "@ + dec(p.head_dim as nat),
        )
    } else if p.rotary_dim > 0 && (p.rope_freq_base_dim < 2 || p.rope_freq_base_dim % 2 != 0) {
        Some(
            "layer "@ + dec(p.layer_idx as nat) + ": rope_freq_base_dim "@ + dec(
                p.rope_freq_base_dim as nat,
            ) + " must be even and at least 2"@,
        )
    } else if p.rotary_dim > 0 && p.rope_base <= 0 {
        Some("layer "@ + dec(p.layer_idx as nat) + ": rope_base must be positive"@)
    } else if p.norm_eps < 0 {
        Some("rms-norm epsilon must be non-negative"@)
    } else if p.norm_input@.bytes.len() != 4 * p.hidden_size {
        Some(width_message(p.layer_idx, "norm_input"@, p.norm_input@.bytes.len(), p.hidden_size))
    } else if p.norm_post_attn@.bytes.len() != 4 * p.hidden_size {
        Some(
            width_message(
                p.layer_idx,
                "norm_post_attn"@,
                p.norm_post_attn@.bytes.len(),
                p.hidden_size,
            ),
        )
    } else if p.norm_pre_ffw@.bytes.len() != 4 * p.hidden_size {
        Some(
            width_message(p.layer_idx, "norm_pre_ffw"@, p.norm_pre_ffw@.bytes.len(), p.hidden_size),
        )
    } else if p.norm_post_ffw@.bytes.len() != 4 * p.hidden_size {
        Some(
            width_message(
                p.layer_idx,
                "norm_post_ffw"@,
                p.norm_post_ffw@.bytes.len(),
                p.hidden_size,
            ),
        )
    } else if p.q_norm@.bytes.len() != 4 * p.head_dim {
        Some(width_message(p.layer_idx, "q_norm"@, p.q_norm@.bytes.len(), p.head_dim))
    } else if p.k_norm@.bytes.len() != 4 * p.head_dim {
        Some(width_message(p.layer_idx, "k_norm"@, p.k_norm@.bytes.len(), p.head_dim))
    } else if p.ple_post_norm@.bytes.len() != 4 * p.hidden_size {
        Some(
            width_message(
                p.layer_idx,
                "ple_post_norm"@,
                p.ple_post_norm@.bytes.len(),
                p.hidden_size,
            ),
        )
    } else {
        None
    }
}

fn check_width(layer_idx: u32, name: &str, page: &BytesPage, values: u32) -> (r: Result<(), String>)
    ensures
        r is Ok <==> page@.bytes.len() == 4 * values,
        r matches Err(s) ==> s@ == width_message(layer_idx, name@, page@.bytes.len(), values),
{
    let expected: u64 = values as u64 * 4;
    if page.len() as u64 != expected {
        return Err(
            String::from_str("layer ").concat(decimal(layer_idx as u64).as_str()).concat(
                " ",
            ).concat(name).concat(" has ").concat(decimal(page.len() as u64).as_str()).concat(
                " bytes, expected ",
            ).concat(decimal(expected).as_str()).concat(" (").concat(
                decimal(values as u64).as_str(),
            ).concat(" values)"),
        );
    }
    Ok(())
}

/// A message that opens with the layer it is about.
fn layer_message(layer_idx: u32, rest: &str) -> (s: String)
    ensures
        s@ == "layer "@ + dec(layer_idx as nat) + rest@,
{
    String::from_str("layer ").concat(decimal(layer_idx as u64).as_str()).concat(rest)
}

/// Guards scalar shapes and the widths of all seven norm vectors: the parameters come
/// back as they were exactly when each of these is right.
pub fn validate_layer_params(params: LayerParams) -> (r: Result<LayerParams, String>)
    ensures
        match params_error(params) {
            None => r matches Ok(p) && p == params,
            Some(e) => r matches Err(s) && s@ == e,
        },
{
    if params.hidden_size == 0 || params.ffn_size == 0 {
        return Err(
            String::from_str("transformer layer requires non-zero hidden_size and ffn_size"),
        );
    }
    if params.num_heads == 0 || params.num_kv_heads == 0 || params.head_dim == 0 {
        return Err(
            String::from_str(
                "transformer layer requires non-zero num_heads, num_kv_heads and head_dim",
            ),
        );
    }
    if params.num_heads % params.num_kv_heads != 0 {
        return Err(
            layer_message(params.layer_idx, ": ").concat(
                decimal(params.num_heads as u64).as_str(),
            ).concat(" query heads do not group evenly over ").concat(
                decimal(params.num_kv_heads as u64).as_str(),
            ).concat(" kv heads"),
        );
    }
    if params.rotary_dim % 2 != 0 {
        return Err(
            layer_message(params.layer_idx, ": rotary_dim ").concat(
                decimal(params.rotary_dim as u64).as_str(),
            ).concat(" must be even"),
        );
    }
    if params.rotary_dim > params.head_dim {
        return Err(
            layer_message(params.layer_idx, ": rotary_dim ").concat(
                decimal(params.rotary_dim as u64).as_str(),
            ).concat(" exceeds head_dim ").concat(decimal(params.head_dim as u64).as_str()),
        );
    }
    if params.rotary_dim > 0 && (params.rope_freq_base_dim < 2 || params.rope_freq_base_dim % 2
        != 0) {
        return Err(
            layer_message(params.layer_idx, ": rope_freq_base_dim ").concat(
                decimal(params.rope_freq_base_dim as u64).as_str(),
            ).concat(" must be even and at least 2"),
        );
    }
    if params.rotary_dim > 0 && params.rope_base <= 0 {
        return Err(layer_message(params.layer_idx, ": rope_base must be positive"));
    }
    if params.norm_eps < 0 {
        return Err(String::from_str("rms-norm epsilon must be non-negative"));
    }
    match check_width(params.layer_idx, "norm_input", &params.norm_input, params.hidden_size) {
        Ok(()) => {},
        Err(e) => return Err(e),
    }
    match check_width(
        params.layer_idx,
        "norm_post_attn",
        &params.norm_post_attn,
        params.hidden_size,
    ) {
        Ok(()) => {},
        Err(e) => return Err(e),
    }
    match check_width(params.layer_idx, "norm_pre_ffw", &params.norm_pre_ffw, params.hidden_size) {
        Ok(()) => {},
        Err(e) => return Err(e),
    }
    match check_width(params.layer_idx, "norm_post_ffw", &params.norm_post_ffw, params.hidden_size) {
        Ok(()) => {},
        Err(e) => return Err(e),
    }
    match check_width(params.layer_idx, "q_norm", &params.q_norm, params.head_dim) {
        Ok(()) => {},
        Err(e) => return Err(e),
    }
    match check_width(params.layer_idx, "k_norm", &params.k_norm, params.head_dim) {
        Ok(()) => {},
        Err(e) => return Err(e),
    }
    match check_width(params.layer_idx, "ple_post_norm", &params.ple_post_norm, params.hidden_size) {
        Ok(()) => {},
        Err(e) => return Err(e),
    }
    Ok(params)
}

/// Layer hidden size.
pub fn hidden_of(params: &LayerParams) -> (r: u32)
    ensures
        r == params.hidden_size,
{
    params.hidden_size
}

/// Feed-forward width.
pub fn ffn_of(params: &LayerParams) -> (r: u32)
    ensures
        r == params.ffn_size,
{
    params.ffn_size
}

/// Query projection width.
pub fn q_out_len(params: &LayerParams) -> (r: u32)
    requires
        params.num_heads * params.head_dim <= u32::MAX,
    ensures
        r == params.num_heads * params.head_dim,
{
    params.num_heads * params.head_dim
}

/// Key/value projection width.
pub fn kv_out_len(params: &LayerParams) -> (r: u32)
    requires
        params.num_kv_heads * params.head_dim <= u32::MAX,
    ensures
        r == params.num_kv_heads * params.head_dim,
{
    params.num_kv_heads * params.head_dim
}

/// Whether a weight region has the byte length of an `out_len` by `in_width`
/// matrix, and the message if not.
pub open spec fn matrix_check(byte_len: u64, out_len: u32, in_width: u32) -> Result<
    u32,
    Seq<char>,
> {
    let expected = out_len * in_width * 4;
    if byte_len == expected {
        Ok(0)
    } else {
        Err(
            "matrix has "@ + dec(byte_len as nat) + " bytes, expected "@ + dec(expected as nat)
                + " ("@ + dec(out_len as nat) + " x "@ + dec(in_width as nat) + " i32s)"@,
        )
    }
}

/// Rejects a weight region of the wrong byte length.
pub fn assert_matrix_bytes(byte_len: u64, out_len: u32, in_width: u32) -> (r: Result<u32, String>)
    requires
        out_len * in_width * 4 <= u64::MAX,
    ensures
        outcome(r, matrix_check(byte_len, out_len, in_width)),
{
    proof {
        assert(0 <= out_len * in_width) by (nonlinear_arith);
    }
    let expected: u64 = out_len as u64 * in_width as u64 * 4;
    if byte_len == expected {
        Ok(0)
    } else {
        Err(
            String::from_str("matrix has ").concat(decimal(byte_len).as_str()).concat(
                " bytes, expected ",
            ).concat(decimal(expected).as_str()).concat(" (").concat(
                decimal(out_len as u64).as_str(),
            ).concat(" x ").concat(decimal(in_width as u64).as_str()).concat(" i32s)"),
        )
    }
}

/// A counter's start.
pub fn zero_u32() -> (r: u32)
    ensures
        r == 0,
{
    0
}

/// The position after `position`.
pub fn advance_position(position: u32) -> (r: u32)
    requires
        position < u32::MAX,
    ensures
        r == position + 1,
{
    position + 1
}

/// The cursor at a stage's first token.
pub fn begin_cursor(start_position: u32) -> (r: TokenCursor)
    ensures
        r == (TokenCursor { position: start_position, local: 0 }),
{
    TokenCursor { position: start_position, local: zero_u32() }
}

/// The cursor at the next token: both counters advance.
pub fn advance_cursor(cursor: TokenCursor) -> (r: TokenCursor)
    requires
        cursor.position < u32::MAX,
        cursor.local < u32::MAX,
    ensures
        r.position == cursor.position + 1,
        r.local == cursor.local + 1,
{
    TokenCursor {
        position: advance_position(cursor.position),
        local: advance_position(cursor.local),
    }
}

/// The normalised page of a prepared token.
pub fn qkv_normed(prep: &QkvPrep) -> (r: BytesPage)
    ensures
        r@ == prep@.normed,
{
    prep.normed.copy()
}

/// The values page of a packed vector.
pub fn packed_values(vec: &PackedVec) -> (r: BytesPage)
    ensures
        r@ == vec@.values,
{
    vec.values.copy()
}

/// The residual and normalised lanes of one activation row, or why it has none.
pub open spec fn normed_row<K: Fn(KernelCall) -> Vec<i32>>(
    kernels: K,
    row: RowView,
    params: LayerParams,
) -> Result<(Seq<i32>, Seq<i32>), Seq<char>> {
    match lanes_of(row.values.bytes) {
        Err(e) => Err(e),
        Ok(residual) => if residual.len() != params.hidden_size {
            Err(
                "activation row has "@ + dec(residual.len()) + " values, expected hidden_size "@
                    + dec(params.hidden_size as nat),
            )
        } else {
            match lanes_of(params.norm_input@.bytes) {
                Err(e) => Err(e),
                Ok(weights) => match rms_norm_result(kernels, residual, weights, params.norm_eps) {
                    Err(e) => Err(e),
                    Ok(normed) => Ok((residual, normed)),
                },
            }
        },
    }
}

/// One token prepared for its projections.
pub open spec fn begin_qkv_spec<K: Fn(KernelCall) -> Vec<i32>>(
    kernels: K,
    row: RowView,
    params: LayerParams,
) -> PrepView {
    match normed_row(kernels, row, params) {
        Ok((residual, normed)) => PrepView {
            token_id: row.token_id,
            residual: standalone(packed(residual)),
            normed: standalone(packed(normed)),
            error: Seq::empty(),
        },
        Err(e) => PrepView {
            token_id: row.token_id,
            residual: standalone(packed(Seq::empty())),
            normed: standalone(packed(zeros(params.hidden_size as nat))),
            error: e,
        },
    }
}

fn begin_qkv_inner<K: Fn(KernelCall) -> Vec<i32>>(
    kernels: &K,
    row: &ActivationRow,
    params: &LayerParams,
) -> (r: Result<(Vec<i32>, Vec<i32>), String>)
    requires
        reliable(*kernels),
    ensures
        match normed_row(*kernels, row@, *params) {
            Ok((residual, normed)) => r matches Ok(p) && p.0@ == residual && p.1@ == normed,
            Err(e) => r matches Err(s) && s@ == e,
        },
{
    let residual: Vec<i32> = match unpack_i32s(&row.values) {
        Ok(lanes) => lanes,
        Err(e) => return Err(e),
    };
    if residual.len() != params.hidden_size as usize {
        return Err(
            String::from_str("activation row has ").concat(
                decimal(residual.len() as u64).as_str(),
            ).concat(" values, expected hidden_size ").concat(
                decimal(params.hidden_size as u64).as_str(),
            ),
        );
    }
    let mut normed: Vec<i32> = slice_to_vec(residual.as_slice());
    let weights: Vec<i32> = match unpack_i32s(&params.norm_input) {
        Ok(lanes) => lanes,
        Err(e) => return Err(e),
    };
    match rms_norm(kernels, normed.as_mut_slice(), weights.as_slice(), params.norm_eps) {
        Ok(()) => {},
        Err(e) => return Err(e),
    }
    Ok((residual, normed))
}

/// Normalises one activation row for its projections. A failure travels in the
/// result, beside zeroed lanes of the right width.
pub fn begin_qkv<K: Fn(KernelCall) -> Vec<i32>>(
    kernels: &K,
    row: &ActivationRow,
    params: &LayerParams,
) -> (r: QkvPrep)
    requires
        reliable(*kernels),
    ensures
        r@ == begin_qkv_spec(*kernels, row@, *params),
{
    match begin_qkv_inner(kernels, row, params) {
        Ok((residual, normed)) => QkvPrep {
            token_id: row.token_id,
            residual: pack_i32s(residual.as_slice()),
            normed: pack_i32s(normed.as_slice()),
            error: String::new(),
        },
        Err(error) => {
            let none: Vec<i32> = Vec::new();
            let zeroed: Vec<i32> = zero_lanes(params.hidden_size);
            QkvPrep {
                token_id: row.token_id,
                residual: pack_i32s(none.as_slice()),
                normed: pack_i32s(zeroed.as_slice()),
                error,
            }
        },
    }
}

/// A head after the rotary embedding of its position: the first `rotary_dim`
/// lanes rotate and the rest stay. Position zero rotates nothing.
pub open spec fn roped<K: Fn(KernelCall) -> Vec<i32>>(
    kernels: K,
    head: Seq<i32>,
    params: LayerParams,
    position: u32,
) -> Seq<i32> {
    if params.rotary_dim == 0 || position == 0 {
        head
    } else {
        answer(
            kernels,
            KernelRequest::Rope {
                lanes: head.take(params.rotary_dim as int),
                freq_base_dim: params.rope_freq_base_dim as usize,
                base: params.rope_base,
                position: position as usize,
            },
        ) + head.skip(params.rotary_dim as int)
    }
}

/// Rotary position embedding for one head row, in place.
pub fn apply_rope<K: Fn(KernelCall) -> Vec<i32>>(
    kernels: &K,
    head: &mut Vec<i32>,
    params: &LayerParams,
    position: u32,
)
    requires
        reliable(*kernels),
        params.rotary_dim <= old(head)@.len(),
    ensures
        final(head)@ == roped(*kernels, old(head)@, *params, position),
        position == 0 ==> final(head)@ == old(head)@,
        forall|i: int|
            params.rotary_dim <= i < old(head)@.len() ==> #[trigger] final(head)@[i] == old(head)@[i],
        final(head)@.len() == old(head)@.len(),
{
    if params.rotary_dim == 0 || position == 0 {
        return ;
    }
    let rotary: usize = params.rotary_dim as usize;
    let lanes: Vec<i32> = slice_to_vec(&head[0..rotary]);
    assert(lanes@ =~= head@.take(rotary as int));
    let rotated: Vec<i32> = consult(
        kernels,
        KernelCall::Rope {
            lanes,
            freq_base_dim: params.rope_freq_base_dim as usize,
            base: params.rope_base,
            position: position as usize,
        },
    );
    let mut i: usize = 0;
    while i < rotary
        invariant
            i <= rotary,
            rotary <= head@.len(),
            head@.len() == old(head)@.len(),
            rotated@.len() == rotary,
            forall|j: int| 0 <= j < i ==> head@[j] == rotated@[j],
            forall|j: int| i <= j < head@.len() ==> head@[j] == old(head)@[j],
        decreases rotary - i,
    {
        head.set(i, rotated[i]);
        i += 1;
    }
    assert(head@ =~= rotated@ + old(head)@.skip(rotary as int));
}

/// How many heads a row splits into; the last may be short.
pub open spec fn head_count(len: int, head_dim: int) -> int {
    crate::pages::page_count(len, head_dim)
}

/// Head `h` of a row.
pub open spec fn head_of(lanes: Seq<i32>, head_dim: int, h: int) -> Seq<i32> {
    lanes.subrange(
        h * head_dim,
        if (h + 1) * head_dim < lanes.len() {
            (h + 1) * head_dim
        } else {
            lanes.len() as int
        },
    )
}

/// The first `n` heads of a row, each normalised and then rotated.
pub open spec fn normed_heads<K: Fn(KernelCall) -> Vec<i32>>(
    kernels: K,
    lanes: Seq<i32>,
    weights: Seq<i32>,
    params: LayerParams,
    position: u32,
    n: nat,
) -> Result<Seq<i32>, Seq<char>>
    decreases n,
{
    if n == 0 {
        Ok(Seq::empty())
    } else {
        match normed_heads(kernels, lanes, weights, params, position, (n - 1) as nat) {
            Err(e) => Err(e),
            Ok(done) => match rms_norm_result(
                kernels,
                head_of(lanes, params.head_dim as int, n - 1),
                weights,
                params.norm_eps,
            ) {
                Err(e) => Err(e),
                Ok(head) => Ok(done + roped(kernels, head, params, position)),
            },
        }
    }
}

/// The first `n` heads of a value row, each normalised without weights.
pub open spec fn normed_values<K: Fn(KernelCall) -> Vec<i32>>(
    kernels: K,
    lanes: Seq<i32>,
    params: LayerParams,
    n: nat,
) -> Result<Seq<i32>, Seq<char>>
    decreases n,
{
    if n == 0 {
        Ok(Seq::empty())
    } else {
        match normed_values(kernels, lanes, params, (n - 1) as nat) {
            Err(e) => Err(e),
            Ok(done) => match value_rms_norm_result(
                kernels,
                head_of(lanes, params.head_dim as int, n - 1),
                params.norm_eps,
            ) {
                Err(e) => Err(e),
                Ok(head) => Ok(done + head),
            },
        }
    }
}

proof fn lemma_head_step(len: int, d: int, h: int)
    requires
        d > 0,
        h >= 0,
        h * d < len,
    ensures
        (h + 1) * d == h * d + d,
        h * d + d >= len ==> head_count(len, d) == h + 1,
{
    assert((h + 1) * d == h * d + d) by (nonlinear_arith);
    if h * d + d >= len {
        assert((len + d - 1) / d == h + 1) by (nonlinear_arith)
            requires
                d > 0,
                h * d < len,
                h * d + d >= len,
        ;
    }
}

proof fn lemma_no_heads(d: int)
    requires
        d > 0,
    ensures
        head_count(0, d) == 0,
{
    vstd::arithmetic::div_mod::lemma_basic_div(d - 1, d);
}

proof fn lemma_heads_error_sticks<K: Fn(KernelCall) -> Vec<i32>>(
    kernels: K,
    lanes: Seq<i32>,
    weights: Seq<i32>,
    params: LayerParams,
    position: u32,
    n: nat,
    m: nat,
)
    requires
        n <= m,
        normed_heads(kernels, lanes, weights, params, position, n) is Err,
    ensures
        normed_heads(kernels, lanes, weights, params, position, m) == normed_heads(
            kernels,
            lanes,
            weights,
            params,
            position,
            n,
        ),
    decreases m,
{
    if n < m {
        lemma_heads_error_sticks(kernels, lanes, weights, params, position, n, (m - 1) as nat);
    }
}

proof fn lemma_values_error_sticks<K: Fn(KernelCall) -> Vec<i32>>(
    kernels: K,
    lanes: Seq<i32>,
    params: LayerParams,
    n: nat,
    m: nat,
)
    requires
        n <= m,
        normed_values(kernels, lanes, params, n) is Err,
    ensures
        normed_values(kernels, lanes, params, m) == normed_values(kernels, lanes, params, n),
    decreases m,
{
    if n < m {
        lemma_values_error_sticks(kernels, lanes, params, n, (m - 1) as nat);
    }
}

proof fn lemma_head_bound(len: int, d: int, h: int)
    requires
        d > 0,
        h >= 0,
        h * d < len,
    ensures
        h < head_count(len, d),
{
    assert(h < (len + d - 1) / d) by (nonlinear_arith)
        requires
            d > 0,
            h * d < len,
    ;
}

/// Every head of a row normalised with learned weights, then rotated.
fn normalise_heads<K: Fn(KernelCall) -> Vec<i32>>(
    kernels: &K,
    lanes: &Vec<i32>,
    weights: &Vec<i32>,
    params: &LayerParams,
    position: u32,
) -> (r: Result<Vec<i32>, String>)
    requires
        reliable(*kernels),
        params.head_dim > 0,
        params.rotary_dim <= weights@.len(),
    ensures
        outcome(
            r,
            normed_heads(
                *kernels,
                lanes@,
                weights@,
                *params,
                position,
                head_count(lanes@.len() as int, params.head_dim as int) as nat,
            ),
        ),
{
    let d: usize = params.head_dim as usize;
    let ghost count = head_count(lanes@.len() as int, d as int) as nat;
    let mut out: Vec<i32> = Vec::new();
    let mut at: usize = 0;
    let ghost mut h: nat = 0;
    proof {
        lemma_no_heads(d as int);
    }
    while at < lanes.len()
        invariant
            reliable(*kernels),
            params.head_dim > 0,
            params.rotary_dim <= weights@.len(),
            d == params.head_dim,
            count == head_count(lanes@.len() as int, d as int) as nat,
            at <= lanes@.len(),
            at < lanes@.len() ==> at == h * d,
            at == lanes@.len() ==> h == count,
            normed_heads(*kernels, lanes@, weights@, *params, position, h) == Ok::<
                Seq<i32>,
                Seq<char>,
            >(out@),
        decreases lanes@.len() - at,
    {
        proof {
            lemma_head_step(lanes@.len() as int, d as int, h as int);
            lemma_head_bound(lanes@.len() as int, d as int, h as int);
        }
        let end: usize = if d < lanes.len() - at {
            at + d
        } else {
            lanes.len()
        };
        let mut head: Vec<i32> = slice_to_vec(&lanes[at..end]);
        assert(head@ =~= head_of(lanes@, d as int, h as int));
        match rms_norm(kernels, head.as_mut_slice(), weights.as_slice(), params.norm_eps) {
            Ok(()) => {},
            Err(e) => {
                proof {
                    lemma_heads_error_sticks(
                        *kernels,
                        lanes@,
                        weights@,
                        *params,
                        position,
                        h + 1,
                        count,
                    );
                }
                return Err(e);
            },
        }
        apply_rope(kernels, &mut head, params, position);
        out.append(&mut head);
        at = end;
        proof {
            h = h + 1;
        }
    }
    Ok(out)
}

/// Every head of a value row normalised without weights.
fn normalise_values<K: Fn(KernelCall) -> Vec<i32>>(
    kernels: &K,
    lanes: &Vec<i32>,
    params: &LayerParams,
) -> (r: Result<Vec<i32>, String>)
    requires
        reliable(*kernels),
        params.head_dim > 0,
    ensures
        outcome(
            r,
            normed_values(
                *kernels,
                lanes@,
                *params,
                head_count(lanes@.len() as int, params.head_dim as int) as nat,
            ),
        ),
{
    let d: usize = params.head_dim as usize;
    let ghost count = head_count(lanes@.len() as int, d as int) as nat;
    let mut out: Vec<i32> = Vec::new();
    let mut at: usize = 0;
    let ghost mut h: nat = 0;
    proof {
        lemma_no_heads(d as int);
    }
    while at < lanes.len()
        invariant
            reliable(*kernels),
            params.head_dim > 0,
            d == params.head_dim,
            count == head_count(lanes@.len() as int, d as int) as nat,
            at <= lanes@.len(),
            at < lanes@.len() ==> at == h * d,
            at == lanes@.len() ==> h == count,
            normed_values(*kernels, lanes@, *params, h) == Ok::<Seq<i32>, Seq<char>>(out@),
        decreases lanes@.len() - at,
    {
        proof {
            lemma_head_step(lanes@.len() as int, d as int, h as int);
            lemma_head_bound(lanes@.len() as int, d as int, h as int);
        }
        let end: usize = if d < lanes.len() - at {
            at + d
        } else {
            lanes.len()
        };
        let mut head: Vec<i32> = slice_to_vec(&lanes[at..end]);
        assert(head@ =~= head_of(lanes@, d as int, h as int));
        match value_rms_norm(kernels, head.as_mut_slice(), params.norm_eps) {
            Ok(()) => {},
            Err(e) => {
                proof {
                    lemma_values_error_sticks(*kernels, lanes@, *params, h + 1, count);
                }
                return Err(e);
            },
        }
        out.append(&mut head);
        at = end;
        proof {
            h = h + 1;
        }
    }
    Ok(out)
}

/// The query and key rows of one projected token, or why it has none.
pub open spec fn qkv_rows<K: Fn(KernelCall) -> Vec<i32>>(
    kernels: K,
    cursor: TokenCursor,
    prep: PrepView,
    q: PackedView,
    k: PackedView,
    v: PackedView,
    params: LayerParams,
) -> Result<(QueryView, KeyView), Seq<char>> {
    if prep.error.len() > 0 {
        Err(prep.error)
    } else if q.error.len() > 0 {
        Err(q.error)
    } else if k.error.len() > 0 {
        Err(k.error)
    } else if v.error.len() > 0 {
        Err(v.error)
    } else {
        match (
            lanes_of(q.values.bytes),
            lanes_of(k.values.bytes),
            lanes_of(v.values.bytes),
            lanes_of(params.q_norm@.bytes),
            lanes_of(params.k_norm@.bytes),
        ) {
            (Err(e), _, _, _, _) => Err(e),
            (_, Err(e), _, _, _) => Err(e),
            (_, _, Err(e), _, _) => Err(e),
            (_, _, _, Err(e), _) => Err(e),
            (_, _, _, _, Err(e)) => Err(e),
            (Ok(q), Ok(k), Ok(v), Ok(q_norm), Ok(k_norm)) => {
                let d = params.head_dim as int;
                match (
                    normed_heads(
                        kernels,
                        q,
                        q_norm,
                        params,
                        cursor.position,
                        head_count(q.len() as int, d) as nat,
                    ),
                    normed_heads(
                        kernels,
                        k,
                        k_norm,
                        params,
                        cursor.position,
                        head_count(k.len() as int, d) as nat,
                    ),
                    normed_values(kernels, v, params, head_count(v.len() as int, d) as nat),
                ) {
                    (Err(e), _, _) => Err(e),
                    (_, Err(e), _) => Err(e),
                    (_, _, Err(e)) => Err(e),
                    (Ok(q), Ok(k), Ok(v)) => Ok(
                        (
                            QueryView {
                                position: cursor.position,
                                local: cursor.local,
                                token_id: prep.token_id,
                                q: standalone(packed(q)),
                                residual: prep.residual,
                            },
                            KeyView {
                                position: cursor.position,
                                k: standalone(packed(k)),
                                v: standalone(packed(v)),
                            },
                        ),
                    ),
                }
            },
        }
    }
}

fn finish_qkv_inner<K: Fn(KernelCall) -> Vec<i32>>(
    kernels: &K,
    cursor: TokenCursor,
    prep: &QkvPrep,
    q: &ProjAccum,
    k: &ProjAccum,
    v: &ProjAccum,
    params: &LayerParams,
) -> (r: Result<(QueryRow, KeyRow), String>)
    requires
        reliable(*kernels),
        params_error(*params) is None,
    ensures
        match qkv_rows(*kernels, cursor, prep@, q@, k@, v@, *params) {
            Ok((query, key)) => r matches Ok(p) && p.0@ == query && p.1@ == key,
            Err(e) => r matches Err(s) && s@ == e,
        },
{
    if !prep.error.as_str().is_empty() {
        return Err(prep.error.clone());
    }
    if !q.error.as_str().is_empty() {
        return Err(q.error.clone());
    }
    if !k.error.as_str().is_empty() {
        return Err(k.error.clone());
    }
    if !v.error.as_str().is_empty() {
        return Err(v.error.clone());
    }
    let q_lanes: Vec<i32> = match unpack_i32s(&q.values) {
        Ok(lanes) => lanes,
        Err(e) => return Err(e),
    };
    let k_lanes: Vec<i32> = match unpack_i32s(&k.values) {
        Ok(lanes) => lanes,
        Err(e) => return Err(e),
    };
    let v_lanes: Vec<i32> = match unpack_i32s(&v.values) {
        Ok(lanes) => lanes,
        Err(e) => return Err(e),
    };
    let q_norm: Vec<i32> = match unpack_i32s(&params.q_norm) {
        Ok(lanes) => lanes,
        Err(e) => return Err(e),
    };
    let k_norm: Vec<i32> = match unpack_i32s(&params.k_norm) {
        Ok(lanes) => lanes,
        Err(e) => return Err(e),
    };
    let q_heads: Vec<i32> = match normalise_heads(
        kernels,
        &q_lanes,
        &q_norm,
        params,
        cursor.position,
    ) {
        Ok(lanes) => lanes,
        Err(e) => return Err(e),
    };
    let k_heads: Vec<i32> = match normalise_heads(
        kernels,
        &k_lanes,
        &k_norm,
        params,
        cursor.position,
    ) {
        Ok(lanes) => lanes,
        Err(e) => return Err(e),
    };
    let v_heads: Vec<i32> = match normalise_values(kernels, &v_lanes, params) {
        Ok(lanes) => lanes,
        Err(e) => return Err(e),
    };
    Ok(
        (
            QueryRow {
                position: cursor.position,
                local: cursor.local,
                token_id: prep.token_id,
                q: pack_i32s(q_heads.as_slice()),
                residual: prep.residual.copy(),
            },
            KeyRow {
                position: cursor.position,
                k: pack_i32s(k_heads.as_slice()),
                v: pack_i32s(v_heads.as_slice()),
            },
        ),
    )
}

/// The message for a token that failed.
pub open spec fn token_message(position: u32, error: Seq<char>) -> Seq<char> {
    "token at position "@ + dec(position as nat) + ": "@ + error
}

/// Renders the message for a token that failed.
pub fn token_error(position: u32, error: &String) -> (s: String)
    ensures
        s@ == token_message(position, error@),
{
    String::from_str("token at position ").concat(decimal(position as u64).as_str()).concat(
        ": ",
    ).concat(error.as_str())
}

/// The first pass's result with one more token in it.
pub open spec fn finish_qkv_spec<K: Fn(KernelCall) -> Vec<i32>>(
    kernels: K,
    output: KvView,
    cursor: TokenCursor,
    prep: PrepView,
    q: PackedView,
    k: PackedView,
    v: PackedView,
    params: LayerParams,
) -> KvView {
    match qkv_rows(kernels, cursor, prep, q, k, v, params) {
        Ok((query, key)) => KvView {
            keys: output.keys.push(key),
            queries: output.queries.push(query),
            errors: output.errors,
        },
        Err(e) => KvView {
            keys: output.keys,
            queries: output.queries,
            errors: output.errors.push(token_message(cursor.position, e)),
        },
    }
}

/// Normalises and rotates one token's heads, then appends its key and query
/// rows; a failure is appended as a message instead.
pub fn finish_qkv<K: Fn(KernelCall) -> Vec<i32>>(
    kernels: &K,
    output: KvSequence,
    cursor: TokenCursor,
    prep: &QkvPrep,
    q: &ProjAccum,
    k: &ProjAccum,
    v: &ProjAccum,
    params: &LayerParams,
) -> (r: KvSequence)
    requires
        reliable(*kernels),
        params_error(*params) is None,
    ensures
        r@ == finish_qkv_spec(*kernels, output@, cursor, prep@, q@, k@, v@, *params),
{
    broadcast use views_of_push;

    let mut output: KvSequence = output;
    match finish_qkv_inner(kernels, cursor, prep, q, k, v, params) {
        Ok((query, key)) => {
            output.queries.push(query);
            output.keys.push(key);
        },
        Err(error) => {
            output.errors.push(token_error(cursor.position, &error));
        },
    }
    output
}

/// The first pass's result with one more activation row projected into it.
pub open spec fn project_spec<K: Fn(KernelCall) -> Vec<i32>>(
    kernels: K,
    output: KvView,
    cursor: TokenCursor,
    row: RowView,
    params: LayerParams,
    w_q: Seq<PageView>,
    w_k: Seq<PageView>,
    w_v: Seq<PageView>,
) -> KvView {
    let prep = begin_qkv_spec(kernels, row, params);
    let q_len = (params.num_heads * params.head_dim) as u32;
    let kv_len = (params.num_kv_heads * params.head_dim) as u32;
    finish_qkv_spec(
        kernels,
        output,
        cursor,
        prep,
        matvec_spec(w_q, prep.normed, params.hidden_size, q_len),
        matvec_spec(w_k, prep.normed, params.hidden_size, kv_len),
        matvec_spec(w_v, prep.normed, params.hidden_size, kv_len),
        params,
    )
}

/// One token of the first pass: normalise, multiply by each matrix, stamp the
/// position, append the key and query rows, and advance the cursor.
pub fn project_token<K: Fn(KernelCall) -> Vec<i32>>(
    kernels: &K,
    row: &ActivationRow,
    cursor: TokenCursor,
    output: KvSequence,
    params: &LayerParams,
    w_q: &Vec<BytesPage>,
    w_k: &Vec<BytesPage>,
    w_v: &Vec<BytesPage>,
) -> (r: (TokenCursor, KvSequence))
    requires
        reliable(*kernels),
        params_error(*params) is None,
        params.num_heads * params.head_dim <= u32::MAX,
        params.num_kv_heads * params.head_dim <= u32::MAX,
        cursor.position < u32::MAX,
        cursor.local < u32::MAX,
    ensures
        r.0.position == cursor.position + 1,
        r.0.local == cursor.local + 1,
        r.1@ == project_spec(
            *kernels,
            output@,
            cursor,
            row@,
            *params,
            views(w_q@),
            views(w_k@),
            views(w_v@),
        ),
{
    let prep: QkvPrep = begin_qkv(kernels, row, params);
    let q_len: u32 = q_out_len(params);
    let kv_len: u32 = kv_out_len(params);
    let normed: BytesPage = qkv_normed(&prep);
    let q: ProjAccum = matvec(w_q, &normed, params.hidden_size, q_len);
    let k: ProjAccum = matvec(w_k, &normed, params.hidden_size, kv_len);
    let v: ProjAccum = matvec(w_v, &normed, params.hidden_size, kv_len);
    let output: KvSequence = finish_qkv(kernels, output, cursor, &prep, &q, &k, &v, params);
    (advance_cursor(cursor), output)
}

/// The first pass over the first `n` rows of a stage that starts at `start`.
pub open spec fn projected<K: Fn(KernelCall) -> Vec<i32>>(
    kernels: K,
    rows: Seq<RowView>,
    start: u32,
    params: LayerParams,
    w_q: Seq<PageView>,
    w_k: Seq<PageView>,
    w_v: Seq<PageView>,
    n: nat,
) -> KvView
    decreases n,
{
    if n == 0 {
        KvView { keys: Seq::empty(), queries: Seq::empty(), errors: Seq::empty() }
    } else {
        project_spec(
            kernels,
            projected(kernels, rows, start, params, w_q, w_k, w_v, (n - 1) as nat),
            TokenCursor { position: (start + n - 1) as u32, local: (n - 1) as u32 },
            rows[n - 1],
            params,
            w_q,
            w_k,
            w_v,
        )
    }
}

/// The first pass: projects every row of a stage.
pub fn project_rows<K: Fn(KernelCall) -> Vec<i32>>(
    kernels: &K,
    rows: &Vec<ActivationRow>,
    start_position: u32,
    params: &LayerParams,
    w_q: &Vec<BytesPage>,
    w_k: &Vec<BytesPage>,
    w_v: &Vec<BytesPage>,
) -> (r: KvSequence)
    requires
        reliable(*kernels),
        params_error(*params) is None,
        params.num_heads * params.head_dim <= u32::MAX,
        params.num_kv_heads * params.head_dim <= u32::MAX,
        start_position + rows@.len() <= u32::MAX,
    ensures
        r@ == projected(
            *kernels,
            views(rows@),
            start_position,
            *params,
            views(w_q@),
            views(w_k@),
            views(w_v@),
            rows@.len(),
        ),
{
    broadcast use views_of_empty;

    let mut output: KvSequence = KvSequence {
        keys: Vec::new(),
        queries: Vec::new(),
        errors: Vec::new(),
    };
    let mut cursor: TokenCursor = begin_cursor(start_position);
    let mut i: usize = 0;
    while i < rows.len()
        invariant
            i <= rows.len(),
            reliable(*kernels),
            params_error(*params) is None,
            params.num_heads * params.head_dim <= u32::MAX,
            params.num_kv_heads * params.head_dim <= u32::MAX,
            start_position + rows@.len() <= u32::MAX,
            cursor.position == start_position + i,
            cursor.local == i,
            output@ == projected(
                *kernels,
                views(rows@),
                start_position,
                *params,
                views(w_q@),
                views(w_k@),
                views(w_v@),
                i as nat,
            ),
        decreases rows.len() - i,
    {
        let (next, grown) = project_token(
            kernels,
            &rows[i],
            cursor,
            output,
            params,
            w_q,
            w_k,
            w_v,
        );
        cursor = next;
        output = grown;
        i += 1;
    }
    output
}

} // verus!
