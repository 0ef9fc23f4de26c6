//! Second pass, attention: every visible key is scored into a dense window,
//! the window is turned into weights once, and the weighted values are summed
//! at accumulator precision and requantized once.

use crate::activations::{KeyRow, KeyView};
use crate::det_num::{dot_spec, mac_bits, mac_spec, mul_spec, requantize, requantize_spec};
use crate::kernels::{answer, consult, reliable, KernelCall, KernelRequest};
use crate::lists::views;
use crate::numerics::dot;
use crate::pages::{
    lanes_of, pack_i32s, pack_i64s, packed, packed_wide, standalone, unpack_i32s, unpack_i64s,
    wide_lanes_of, BytesPage, PageView,
};
use crate::packed::{bad, good, PackedView, zeros};
use crate::prefill_range::input::{CtxAccum, LayerParams, PackedVec, QueryRow, QueryView, ScoreAccum, ScoresView, WeightVec, WeightsView};
use crate::prefill_range::project::params_error;
use crate::text::{dec, decimal};
use vstd::prelude::*;

verus! {

/// Whether a query sees a key: no key after it, and on a sliding layer none
/// that is a window or more behind.
pub open spec fn sees(query_position: u32, key_position: u32, sliding_window: u32) -> bool {
    key_position <= query_position && (sliding_window == 0 || query_position - key_position
        < sliding_window)
}

/// Whether a query sees a key.
pub fn visible(query_position: u32, key_position: u32, sliding_window: u32) -> (r: bool)
    ensures
        r == sees(query_position, key_position, sliding_window),
{
    if key_position > query_position {
        return false;
    }
    sliding_window == 0 || query_position - key_position < sliding_window
}

/// How many positions a query sees.
pub open spec fn window_len_of(position: u32, sliding_window: u32) -> int {
    if sliding_window == 0 || position + 1 < sliding_window {
        position + 1
    } else {
        sliding_window as int
    }
}

/// The slot of a key in the window that ends at `position`.
pub open spec fn slot_of(position: u32, window_len: int, key_position: u32) -> int {
    key_position - (position + 1 - window_len)
}

/// One head of a row.
pub open spec fn head_lanes(row: Seq<i32>, head_dim: int, head: int) -> Seq<i32> {
    row.subrange(head * head_dim, (head + 1) * head_dim)
}

/// The key/value head that a query head reads.
pub open spec fn kv_head_of(params: LayerParams, head: int) -> int {
    head / (params.num_heads as int / params.num_kv_heads as int)
}

/// The shapes the attention arithmetic needs: validated parameters, and
/// projection widths that fit a `u32`.
pub open spec fn shape_ok(params: LayerParams) -> bool {
    &&& params_error(params) is None
    &&& params.num_heads * params.head_dim <= u32::MAX
    &&& params.num_kv_heads * params.head_dim <= u32::MAX
}

/// The message for attention operands of the wrong width.
pub open spec fn width_mismatch(params: LayerParams, q: nat, k: nat, v: nat) -> Seq<char> {
    "attention width mismatch: q "@ + dec(q) + " k "@ + dec(k) + " v "@ + dec(v) + " for "@ + dec(
        params.num_heads as nat,
    ) + "x"@ + dec(params.head_dim as nat) + " over "@ + dec(params.num_kv_heads as nat)
        + " kv heads"@
}

/// The query, key and value lanes that meet in attention, or why they cannot.
pub open spec fn operands(q: PageView, k: PageView, v: PageView, params: LayerParams) -> Result<
    (Seq<i32>, Seq<i32>, Seq<i32>),
    Seq<char>,
> {
    match (lanes_of(q.bytes), lanes_of(k.bytes), lanes_of(v.bytes)) {
        (Err(e), _, _) => Err(e),
        (_, Err(e), _) => Err(e),
        (_, _, Err(e)) => Err(e),
        (Ok(q), Ok(k), Ok(v)) => if q.len() != params.num_heads * params.head_dim || k.len()
            != params.num_kv_heads * params.head_dim || v.len() != k.len() {
            Err(width_mismatch(params, q.len(), k.len(), v.len()))
        } else {
            Ok((q, k, v))
        },
    }
}

/// The scaled score of one head.
pub open spec fn score_of(q: Seq<i32>, k: Seq<i32>, params: LayerParams, head: int) -> i32 {
    mul_spec(
        dot_spec(
            head_lanes(q, params.head_dim as int, head),
            head_lanes(k, params.head_dim as int, kv_head_of(params, head)),
        ),
        params.attn_scale,
    )
}

/// Renders the width mismatch message.
fn width_error(params: &LayerParams, q: usize, k: usize, v: usize) -> (s: String)
    ensures
        s@ == width_mismatch(*params, q as nat, k as nat, v as nat),
{
    String::from_str("attention width mismatch: q ").concat(decimal(q as u64).as_str()).concat(
        " k ",
    ).concat(decimal(k as u64).as_str()).concat(" v ").concat(decimal(v as u64).as_str()).concat(
        " for ",
    ).concat(decimal(params.num_heads as u64).as_str()).concat("x").concat(
        decimal(params.head_dim as u64).as_str(),
    ).concat(" over ").concat(decimal(params.num_kv_heads as u64).as_str()).concat(" kv heads")
}

/// Decodes and checks the operands of attention.
pub fn attention_operands(q: &BytesPage, k: &BytesPage, v: &BytesPage, params: &LayerParams) -> (r:
    Result<(Vec<i32>, Vec<i32>, Vec<i32>), String>)
    requires
        shape_ok(*params),
    ensures
        match operands(q@, k@, v@, *params) {
            Ok((a, b, c)) => r matches Ok(p) && p.0@ == a && p.1@ == b && p.2@ == c,
            Err(e) => r matches Err(s) && s@ == e,
        },
{
    let q: Vec<i32> = match unpack_i32s(q) {
        Ok(lanes) => lanes,
        Err(e) => return Err(e),
    };
    let k: Vec<i32> = match unpack_i32s(k) {
        Ok(lanes) => lanes,
        Err(e) => return Err(e),
    };
    let v: Vec<i32> = match unpack_i32s(v) {
        Ok(lanes) => lanes,
        Err(e) => return Err(e),
    };
    let q_len: u32 = params.num_heads * params.head_dim;
    let kv_len: u32 = params.num_kv_heads * params.head_dim;
    if q.len() != q_len as usize || k.len() != kv_len as usize || v.len() != k.len() {
        return Err(width_error(params, q.len(), k.len(), v.len()));
    }
    Ok((q, k, v))
}

/// A query head and the key/value head it reads both lie within their rows.
pub proof fn heads_in_range(params: LayerParams, head: int)
    requires
        shape_ok(params),
        0 <= head < params.num_heads,
    ensures
        params.num_heads as int / params.num_kv_heads as int >= 1,
        0 <= kv_head_of(params, head) < params.num_kv_heads,
        0 <= head * params.head_dim,
        (head + 1) * params.head_dim == head * params.head_dim + params.head_dim,
        (head + 1) * params.head_dim <= params.num_heads * params.head_dim,
        0 <= kv_head_of(params, head) * params.head_dim,
        (kv_head_of(params, head) + 1) * params.head_dim == kv_head_of(params, head)
            * params.head_dim + params.head_dim,
        (kv_head_of(params, head) + 1) * params.head_dim <= params.num_kv_heads * params.head_dim,
{
    let heads = params.num_heads as int;
    let kv = params.num_kv_heads as int;
    let group = heads / kv;
    let d = params.head_dim as int;
    vstd::arithmetic::div_mod::lemma_fundamental_div_mod(heads, kv);
    assert(heads == kv * group);
    assert(group >= 1) by (nonlinear_arith)
        requires
            heads == kv * group,
            heads > 0,
            kv > 0,
    ;
    let kvh = head / group;
    assert(0 <= kvh < kv) by (nonlinear_arith)
        requires
            kvh == head / group,
            0 <= head < kv * group,
            group >= 1,
    ;
    assert(0 <= head * d && (head + 1) * d == head * d + d && (head + 1) * d <= heads * d)
        by (nonlinear_arith)
        requires
            0 <= head < heads,
            d >= 0,
    ;
    assert(0 <= kvh * d && (kvh + 1) * d == kvh * d + d && (kvh + 1) * d <= kv * d)
        by (nonlinear_arith)
        requires
            0 <= kvh < kv,
            d >= 0,
    ;
}

/// Scores one head of a query against one key.
pub fn head_score(q: &Vec<i32>, k: &Vec<i32>, params: &LayerParams, head: usize) -> (r: i32)
    requires
        shape_ok(*params),
        head < params.num_heads,
        q@.len() == params.num_heads * params.head_dim,
        k@.len() == params.num_kv_heads * params.head_dim,
    ensures
        r == score_of(q@, k@, *params, head as int),
{
    proof {
        heads_in_range(*params, head as int);
    }
    let d: usize = params.head_dim as usize;
    let group: usize = params.num_heads as usize / params.num_kv_heads as usize;
    let kv_head: usize = head / group;
    let q_head: &[i32] = &q[head * d..head * d + d];
    let k_head: &[i32] = &k[kv_head * d..kv_head * d + d];
    assert(q_head@ =~= head_lanes(q@, d as int, head as int));
    assert(k_head@ =~= head_lanes(k@, d as int, kv_head as int));
    match dot(q_head, k_head) {
        Ok(value) => crate::numerics::mul(value, params.attn_scale),
        Err(e) => 0,
    }
}

/// A query's empty window of scores.
pub open spec fn zero_scores_spec(position: u32, params: LayerParams) -> ScoresView {
    let window_len = window_len_of(position, params.sliding_window);
    ScoresView {
        scores: standalone(packed(zeros((window_len * params.num_heads) as nat))),
        filled: 0,
        window_len: window_len as u32,
        error: Seq::empty(),
    }
}

/// Opens a query's window of scores.
pub fn zero_scores(query: &QueryRow, params: &LayerParams) -> (r: ScoreAccum)
    requires
        query.position < u32::MAX,
        window_len_of(query.position, params.sliding_window) * params.num_heads <= usize::MAX,
    ensures
        r@ == zero_scores_spec(query.position, *params),
{
    let window_len: u32 = if params.sliding_window == 0 || query.position + 1
        < params.sliding_window {
        query.position + 1
    } else {
        params.sliding_window
    };
    proof {
        assert(0 <= window_len * params.num_heads) by (nonlinear_arith);
    }
    let count: usize = window_len as usize * params.num_heads as usize;
    let lanes: Vec<i32> = vec![0i32;count];
    assert(lanes@ =~= zeros(count as nat));
    ScoreAccum {
        scores: pack_i32s(lanes.as_slice()),
        filled: 0,
        window_len,
        error: String::new(),
    }
}

/// A window of scores has the layout its query calls for.
pub open spec fn scores_fit(state: ScoresView, position: u32, params: LayerParams) -> bool {
    &&& position < u32::MAX
    &&& state.window_len == window_len_of(position, params.sliding_window)
    &&& state.scores.bytes.len() == 4 * (state.window_len * params.num_heads)
}

/// A window's scores with one key's written into its slot.
pub open spec fn with_key_scores(
    scores: Seq<i32>,
    q: Seq<i32>,
    k: Seq<i32>,
    params: LayerParams,
    slot: int,
) -> Seq<i32> {
    let heads = params.num_heads as int;
    Seq::new(
        scores.len(),
        |i: int|
            if slot * heads <= i < slot * heads + heads {
                score_of(q, k, params, i - slot * heads)
            } else {
                scores[i]
            },
    )
}

/// The window after one key. Only keys of the cache that the layer reads, and
/// only keys that the query sees, change it.
pub open spec fn score_key_spec(
    state: ScoresView,
    key: KeyView,
    query: QueryView,
    params: LayerParams,
    source_layer: i32,
) -> ScoresView {
    if state.error.len() > 0 || params.kv_donor_layer != source_layer || !sees(
        query.position,
        key.position,
        params.sliding_window,
    ) {
        state
    } else {
        match operands(query.q, key.k, key.v, params) {
            Err(e) => ScoresView { error: e, ..state },
            Ok((q, k, v)) => ScoresView {
                scores: standalone(
                    packed(
                        with_key_scores(
                            lanes_of(state.scores.bytes)->Ok_0,
                            q,
                            k,
                            params,
                            slot_of(query.position, state.window_len as int, key.position),
                        ),
                    ),
                ),
                filled: (state.filled + 1) as u32,
                window_len: state.window_len,
                error: state.error,
            },
        }
    }
}

/// A key that a query sees has a slot in the query's window, and every slot of
/// the window is the slot of exactly one position.
pub proof fn visible_keys_fill_the_window(position: u32, sliding_window: u32, key_position: u32)
    requires
        position < u32::MAX,
    ensures
        sees(position, key_position, sliding_window) <==> 0 <= slot_of(
            position,
            window_len_of(position, sliding_window),
            key_position,
        ) < window_len_of(position, sliding_window),
{
}

/// Scores one key for every head, into the slot of its position.
pub fn score_key(
    key: &KeyRow,
    state: ScoreAccum,
    query: &QueryRow,
    params: &LayerParams,
    source_layer: i32,
) -> (r: ScoreAccum)
    requires
        shape_ok(*params),
        scores_fit(state@, query.position, *params),
        state.filled < u32::MAX,
    ensures
        r@ == score_key_spec(state@, key@, query@, *params, source_layer),
        scores_fit(r@, query.position, *params),
        r.filled <= state.filled + 1,
{
    let mut state: ScoreAccum = state;
    if !state.error.as_str().is_empty() {
        return state;
    }
    if params.kv_donor_layer != source_layer {
        return state;
    }
    if !visible(query.position, key.position, params.sliding_window) {
        return state;
    }
    let (q, k, _v) = match attention_operands(&query.q, &key.k, &key.v, params) {
        Ok(p) => p,
        Err(e) => {
            state.error = e;
            return state;
        },
    };
    let mut scores: Vec<i32> = match unpack_i32s(&state.scores) {
        Ok(lanes) => lanes,
        Err(e) => {
            state.error = e;
            return state;
        },
    };
    let ghost before = scores@;
    let heads: usize = params.num_heads as usize;
    let slot: u32 = key.position - (query.position + 1 - state.window_len);
    proof {
        visible_keys_fill_the_window(query.position, params.sliding_window, key.position);
        assert(slot * heads + heads <= state.window_len * heads && 0 <= slot * heads)
            by (nonlinear_arith)
            requires
                0 <= slot < state.window_len,
                heads >= 0,
        ;
    }
    assert(scores@.len() == state.window_len * heads);
    assert(scores.len() <= usize::MAX);
    let base: usize = slot as usize * heads;
    let mut head: usize = 0;
    while head < heads
        invariant
            head <= heads,
            shape_ok(*params),
            heads == params.num_heads,
            base + heads <= scores@.len(),
            scores@.len() == before.len(),
            q@.len() == params.num_heads * params.head_dim,
            k@.len() == params.num_kv_heads * params.head_dim,
            forall|i: int| base <= i < base + head ==> scores@[i] == score_of(q@, k@, *params, i - base),
            forall|i: int| 0 <= i < base || base + head <= i < before.len() ==> scores@[i] == before[i],
        decreases heads - head,
    {
        assert(scores.len() <= usize::MAX);
        let score: i32 = head_score(&q, &k, params, head);
        scores.set(base + head, score);
        head += 1;
    }
    assert(scores@ =~= with_key_scores(before, q@, k@, *params, slot as int));
    state.scores = pack_i32s(scores.as_slice());
    state.filled = state.filled + 1;
    state
}

/// The window after the first `n` keys of a list.
pub open spec fn scored(
    state: ScoresView,
    keys: Seq<KeyView>,
    query: QueryView,
    params: LayerParams,
    source_layer: i32,
    n: nat,
) -> ScoresView
    decreases n,
{
    if n == 0 {
        state
    } else {
        score_key_spec(
            scored(state, keys, query, params, source_layer, (n - 1) as nat),
            keys[n - 1],
            query,
            params,
            source_layer,
        )
    }
}

/// Scores every key of a list.
pub fn score_keys(
    keys: &Vec<KeyRow>,
    state: ScoreAccum,
    query: &QueryRow,
    params: &LayerParams,
    source_layer: i32,
) -> (r: ScoreAccum)
    requires
        shape_ok(*params),
        scores_fit(state@, query.position, *params),
        state.filled + keys@.len() <= u32::MAX,
    ensures
        r@ == scored(state@, views(keys@), query@, *params, source_layer, keys@.len()),
        scores_fit(r@, query.position, *params),
        r.filled <= state.filled + keys@.len(),
{
    let ghost start = state;
    let mut state: ScoreAccum = state;
    let mut i: usize = 0;
    while i < keys.len()
        invariant
            i <= keys.len(),
            shape_ok(*params),
            scores_fit(state@, query.position, *params),
            state.filled <= start.filled + i,
            start.filled + keys@.len() <= u32::MAX,
            state@ == scored(start@, views(keys@), query@, *params, source_layer, i as nat),
        decreases keys.len() - i,
    {
        state = score_key(&keys[i], state, query, params, source_layer);
        i += 1;
    }
    state
}

/// One head's scores, in window order.
pub open spec fn head_column(scores: Seq<i32>, heads: int, window_len: int, head: int) -> Seq<i32> {
    Seq::new(window_len as nat, |s: int| scores[s * heads + head])
}

/// The weights of a window: each head's column through the softmax.
pub open spec fn weights_of<K: Fn(KernelCall) -> Vec<i32>>(
    kernels: K,
    scores: Seq<i32>,
    heads: int,
    window_len: int,
) -> Seq<i32> {
    Seq::new(
        (window_len * heads) as nat,
        |i: int|
            answer(
                kernels,
                KernelRequest::Softmax { lanes: head_column(scores, heads, window_len, i % heads) },
            )[i / heads],
    )
}

/// The weights of a scored window, or the failure it carries. A window with a
/// slot that no key filled is a failure.
pub open spec fn softmax_scores_spec<K: Fn(KernelCall) -> Vec<i32>>(
    kernels: K,
    state: ScoresView,
    params: LayerParams,
) -> WeightsView {
    if state.error.len() > 0 {
        WeightsView { weights: standalone(packed(Seq::empty())), count: 0, error: state.error }
    } else if state.filled != state.window_len {
        WeightsView {
            weights: standalone(packed(Seq::empty())),
            count: 0,
            error: "attention window has "@ + dec(state.filled as nat) + " of "@ + dec(
                state.window_len as nat,
            ) + " keys"@,
        }
    } else {
        WeightsView {
            weights: standalone(
                packed(
                    weights_of(
                        kernels,
                        lanes_of(state.scores.bytes)->Ok_0,
                        params.num_heads as int,
                        state.window_len as int,
                    ),
                ),
            ),
            count: state.window_len,
            error: Seq::empty(),
        }
    }
}

fn failed_weights(error: String) -> (r: WeightVec)
    ensures
        r@ == (WeightsView {
            weights: standalone(packed(Seq::empty())),
            count: 0,
            error: error@,
        }),
{
    let none: Vec<i32> = Vec::new();
    WeightVec { weights: pack_i32s(none.as_slice()), count: 0, error }
}

/// The softmax of every head over the whole window.
pub fn softmax_scores<K: Fn(KernelCall) -> Vec<i32>>(
    kernels: &K,
    state: ScoreAccum,
    query: &QueryRow,
    params: &LayerParams,
) -> (r: WeightVec)
    requires
        reliable(*kernels),
        shape_ok(*params),
        scores_fit(state@, query.position, *params),
    ensures
        r@ == softmax_scores_spec(*kernels, state@, *params),
        r@.error.len() == 0 ==> r@.weights.bytes.len() == 4 * (state.window_len * params.num_heads),
{
    if !state.error.as_str().is_empty() {
        return failed_weights(state.error);
    }
    if state.filled != state.window_len {
        let e: String = String::from_str("attention window has ").concat(
            decimal(state.filled as u64).as_str(),
        ).concat(" of ").concat(decimal(state.window_len as u64).as_str()).concat(" keys");
        proof {
            reveal_strlit("attention window has ");
        }
        return failed_weights(e);
    }
    let scores: Vec<i32> = match unpack_i32s(&state.scores) {
        Ok(lanes) => lanes,
        Err(e) => return failed_weights(e),
    };
    let heads: usize = params.num_heads as usize;
    let window: usize = state.window_len as usize;
    let ghost h = heads as int;
    let ghost w = window as int;
    assert(scores.len() <= usize::MAX);
    proof {
        assert(0 <= w * h) by (nonlinear_arith)
            requires
                w >= 0,
                h >= 0,
        ;
    }
    let mut weights: Vec<i32> = vec![0i32;scores.len()];
    let mut head: usize = 0;
    while head < heads
        invariant
            head <= heads,
            reliable(*kernels),
            h == heads,
            w == window,
            h > 0,
            scores@.len() == w * h,
            weights@.len() == w * h,
            forall|i: int|
                0 <= i < w * h && i % h < head ==> weights@[i] == #[trigger] weights_of(
                    *kernels,
                    scores@,
                    h,
                    w,
                )[i],
        decreases heads - head,
    {
        let mut column: Vec<i32> = Vec::new();
        let mut s: usize = 0;
        while s < window
            invariant
                s <= window,
                w == window,
                h == heads,
                head < heads,
                scores@.len() == w * h,
                column@.len() == s,
                forall|j: int| 0 <= j < s ==> column@[j] == #[trigger] scores@[j * h + head],
            decreases window - s,
        {
            assert(0 <= s * h && s * h + h <= w * h) by (nonlinear_arith)
                requires
                    0 <= s < w,
                    h >= 0,
            ;
            assert(scores.len() <= usize::MAX);
            column.push(scores[s * heads + head]);
            s += 1;
        }
        assert(column@ =~= head_column(scores@, h, w, head as int));
        let out: Vec<i32> = consult(kernels, KernelCall::Softmax { lanes: column });
        let ghost before = weights@;
        let mut s: usize = 0;
        while s < window
            invariant
                s <= window,
                w == window,
                h == heads,
                h > 0,
                head < heads,
                out@.len() == w,
                weights@.len() == w * h,
                before.len() == w * h,
                forall|i: int| 0 <= i < w * h && i % h != head ==> weights@[i] == before[i],
                forall|i: int|
                    0 <= i < w * h && i % h == head && i / h < s ==> weights@[i] == #[trigger] out@[i / h],
            decreases window - s,
        {
            assert(0 <= s * h && s * h + h <= w * h) by (nonlinear_arith)
                requires
                    0 <= s < w,
                    h >= 0,
            ;
            assert(weights.len() <= usize::MAX);
            proof {
                vstd::arithmetic::div_mod::lemma_fundamental_div_mod_converse(
                    s * h + head,
                    h,
                    s as int,
                    head as int,
                );
            }
            weights.set(s * heads + head, out[s]);
            proof {
                assert forall|i: int|
                    #![trigger weights@[i]]
                    0 <= i < w * h && i % h == head && i / h == s implies i == s * h + head by {
                    vstd::arithmetic::div_mod::lemma_fundamental_div_mod(i, h);
                    assert(h * (i / h) == s * h) by (nonlinear_arith)
                        requires
                            i / h == s,
                    ;
                }
            }
            s += 1;
        }
        assert forall|i: int| 0 <= i < w * h && i % h < head + 1 implies weights@[i]
            == #[trigger] weights_of(*kernels, scores@, h, w)[i] by {
            if i % h == head {
                assert(0 <= i / h < w) by (nonlinear_arith)
                    requires
                        0 <= i < w * h,
                        h > 0,
                ;
                assert(weights@[i] == out@[i / h]);
            }
        }
        head += 1;
    }
    assert forall|i: int| 0 <= i < w * h implies weights@[i] == #[trigger] weights_of(
        *kernels,
        scores@,
        h,
        w,
    )[i] by {
        assert(i % h < h) by (nonlinear_arith)
            requires
                h > 0,
        ;
    }
    assert(weights@ =~= weights_of(*kernels, scores@, h, w));
    WeightVec {
        weights: pack_i32s(weights.as_slice()),
        count: state.window_len,
        error: String::new(),
    }
}

/// `n` zero accumulators.
pub open spec fn wide_zeros(n: nat) -> Seq<i64> {
    Seq::new(n, |i: int| 0i64)
}

/// A zeroed weighted sum: one accumulator per head and lane.
pub fn zero_context(params: &LayerParams) -> (r: CtxAccum)
    requires
        shape_ok(*params),
    ensures
        r@ == (PackedView {
            values: standalone(
                packed_wide(wide_zeros((params.num_heads * params.head_dim) as nat)),
            ),
            error: Seq::empty(),
        }),
{
    let count: u32 = params.num_heads * params.head_dim;
    let lanes: Vec<i64> = vec![0i64;count as usize];
    assert(lanes@ =~= wide_zeros(count as nat));
    CtxAccum { acc: pack_i64s(lanes.as_slice()), error: String::new() }
}

/// A weighted sum with one key's values added in: each lane takes one
/// multiply-accumulate step by its head's weight.
pub open spec fn with_values(
    acc: Seq<i64>,
    weights: Seq<i32>,
    v: Seq<i32>,
    params: LayerParams,
    slot: int,
) -> Seq<i64> {
    let d = params.head_dim as int;
    Seq::new(
        acc.len(),
        |i: int|
            mac_spec(
                acc[i],
                weights[slot * params.num_heads + i / d],
                v[kv_head_of(params, i / d) * d + i % d],
            ),
    )
}

/// The weighted sum after one key. A failed softmax fails the sum; otherwise
/// only keys of the cache that the layer reads, and only keys that the query
/// sees, change it.
pub open spec fn accumulate_context_spec(
    state: PackedView,
    key: KeyView,
    query: QueryView,
    weights: WeightsView,
    params: LayerParams,
    source_layer: i32,
) -> PackedView {
    if state.error.len() > 0 {
        state
    } else if weights.error.len() > 0 {
        PackedView { error: weights.error, ..state }
    } else if params.kv_donor_layer != source_layer || !sees(
        query.position,
        key.position,
        params.sliding_window,
    ) {
        state
    } else {
        match operands(query.q, key.k, key.v, params) {
            Err(e) => PackedView { error: e, ..state },
            Ok((q, k, v)) => PackedView {
                values: standalone(
                    packed_wide(
                        with_values(
                            wide_lanes_of(state.values.bytes)->Ok_0,
                            lanes_of(weights.weights.bytes)->Ok_0,
                            v,
                            params,
                            slot_of(
                                query.position,
                                window_len_of(query.position, params.sliding_window),
                                key.position,
                            ),
                        ),
                    ),
                ),
                error: state.error,
            },
        }
    }
}

/// Softmax weights have the layout their query calls for, unless they failed.
pub open spec fn weights_fit(weights: WeightsView, position: u32, params: LayerParams) -> bool {
    &&& position < u32::MAX
    &&& weights.error.len() == 0 ==> weights.weights.bytes.len() == 4 * (window_len_of(
        position,
        params.sliding_window,
    ) * params.num_heads)
}

/// A weighted sum has one accumulator per head and lane.
pub open spec fn context_fits(state: PackedView, params: LayerParams) -> bool {
    state.values.bytes.len() == 8 * (params.num_heads * params.head_dim)
}

/// Head `head` of a row of heads `d` wide holds lane `lane` at `head * d + lane`.
pub proof fn lemma_lane_split(heads: int, d: int, head: int, lane: int)
    requires
        0 <= head < heads,
        0 <= lane < d,
    ensures
        0 <= head * d + lane < heads * d,
        (head * d + lane) / d == head,
        (head * d + lane) % d == lane,
{
    assert(0 <= head * d && head * d + d <= heads * d) by (nonlinear_arith)
        requires
            0 <= head < heads,
            d > 0,
    ;
    vstd::arithmetic::div_mod::lemma_fundamental_div_mod_converse(head * d + lane, d, head, lane);
}

/// Adds one key's values, weighted by its slot, into every head.
pub fn accumulate_context(
    key: &KeyRow,
    state: CtxAccum,
    query: &QueryRow,
    weights: &WeightVec,
    params: &LayerParams,
    source_layer: i32,
) -> (r: CtxAccum)
    requires
        shape_ok(*params),
        weights_fit(weights@, query.position, *params),
        context_fits(state@, *params),
    ensures
        r@ == accumulate_context_spec(state@, key@, query@, weights@, *params, source_layer),
        context_fits(r@, *params),
{
    let mut state: CtxAccum = state;
    if !state.error.as_str().is_empty() {
        return state;
    }
    if !weights.error.as_str().is_empty() {
        state.error = weights.error.clone();
        return state;
    }
    if params.kv_donor_layer != source_layer {
        return state;
    }
    if !visible(query.position, key.position, params.sliding_window) {
        return state;
    }
    let (_q, _k, v) = match attention_operands(&query.q, &key.k, &key.v, params) {
        Ok(p) => p,
        Err(e) => {
            state.error = e;
            return state;
        },
    };
    let mut acc: Vec<i64> = match unpack_i64s(&state.acc) {
        Ok(lanes) => lanes,
        Err(e) => {
            state.error = e;
            return state;
        },
    };
    let w: Vec<i32> = match unpack_i32s(&weights.weights) {
        Ok(lanes) => lanes,
        Err(e) => {
            state.error = e;
            return state;
        },
    };
    let ghost before = acc@;
    let heads: usize = params.num_heads as usize;
    let d: usize = params.head_dim as usize;
    let group: usize = heads / params.num_kv_heads as usize;
    let window_len: u32 = if params.sliding_window == 0 || query.position + 1
        < params.sliding_window {
        query.position + 1
    } else {
        params.sliding_window
    };
    let slot: u32 = key.position - (query.position + 1 - window_len);
    proof {
        visible_keys_fill_the_window(query.position, params.sliding_window, key.position);
        assert(slot * heads + heads <= window_len * heads && 0 <= slot * heads) by (nonlinear_arith)
            requires
                0 <= slot < window_len,
                heads >= 0,
        ;
    }
    assert(w.len() <= usize::MAX);
    let base: usize = slot as usize * heads;
    let ghost expected = with_values(before, w@, v@, *params, slot as int);
    let mut head: usize = 0;
    while head < heads
        invariant
            head <= heads,
            shape_ok(*params),
            heads == params.num_heads,
            d == params.head_dim,
            group == params.num_heads as int / params.num_kv_heads as int,
            base + heads <= w@.len(),
            base == slot * params.num_heads,
            acc@.len() == heads * d,
            before.len() == heads * d,
            v@.len() == params.num_kv_heads * params.head_dim,
            expected == with_values(before, w@, v@, *params, slot as int),
            forall|i: int| 0 <= i < head * d ==> acc@[i] == #[trigger] expected[i],
            forall|i: int| head * d <= i < before.len() ==> acc@[i] == before[i],
        decreases heads - head,
    {
        proof {
            heads_in_range(*params, head as int);
        }
        assert(w.len() <= usize::MAX && acc.len() <= usize::MAX && v.len() <= usize::MAX);
        let weight: i32 = w[base + head];
        let kv_head: usize = head / group;
        let mut lane: usize = 0;
        while lane < d
            invariant
                lane <= d,
                head < heads,
                shape_ok(*params),
                heads == params.num_heads,
                d == params.head_dim,
                base + heads <= w@.len(),
                base == slot * params.num_heads,
                weight == w@[base + head],
                kv_head == kv_head_of(*params, head as int),
                0 <= head * d,
                head * d + d <= heads * d,
                0 <= kv_head * d,
                kv_head * d + d <= v@.len(),
                acc@.len() == heads * d,
                before.len() == heads * d,
                expected == with_values(before, w@, v@, *params, slot as int),
                forall|i: int| 0 <= i < head * d + lane ==> acc@[i] == #[trigger] expected[i],
                forall|i: int| head * d + lane <= i < before.len() ==> acc@[i] == before[i],
            decreases d - lane,
        {
            proof {
                lemma_lane_split(heads as int, d as int, head as int, lane as int);
            }
            assert(acc.len() <= usize::MAX && v.len() <= usize::MAX);
            let at: usize = head * d + lane;
            let value: i32 = v[kv_head * d + lane];
            let next: i64 = mac_bits(acc[at], weight, value);
            acc.set(at, next);
            assert(next == expected[at as int]);
            lane += 1;
        }
        assert((head + 1) * d == head * d + d) by (nonlinear_arith);
        head += 1;
    }
    assert(acc@ =~= expected);
    state.acc = pack_i64s(acc.as_slice());
    state
}

/// The weighted sum after the first `n` keys of a list.
pub open spec fn accumulated(
    state: PackedView,
    keys: Seq<KeyView>,
    query: QueryView,
    weights: WeightsView,
    params: LayerParams,
    source_layer: i32,
    n: nat,
) -> PackedView
    decreases n,
{
    if n == 0 {
        state
    } else {
        accumulate_context_spec(
            accumulated(state, keys, query, weights, params, source_layer, (n - 1) as nat),
            keys[n - 1],
            query,
            weights,
            params,
            source_layer,
        )
    }
}

/// Adds the values of every key of a list.
pub fn accumulate_keys(
    keys: &Vec<KeyRow>,
    state: CtxAccum,
    query: &QueryRow,
    weights: &WeightVec,
    params: &LayerParams,
    source_layer: i32,
) -> (r: CtxAccum)
    requires
        shape_ok(*params),
        weights_fit(weights@, query.position, *params),
        context_fits(state@, *params),
    ensures
        r@ == accumulated(
            state@,
            views(keys@),
            query@,
            weights@,
            *params,
            source_layer,
            keys@.len(),
        ),
        context_fits(r@, *params),
{
    let ghost start = state;
    let mut state: CtxAccum = state;
    let mut i: usize = 0;
    while i < keys.len()
        invariant
            i <= keys.len(),
            shape_ok(*params),
            weights_fit(weights@, query.position, *params),
            context_fits(state@, *params),
            state@ == accumulated(
                start@,
                views(keys@),
                query@,
                weights@,
                *params,
                source_layer,
                i as nat,
            ),
        decreases keys.len() - i,
    {
        state = accumulate_context(&keys[i], state, query, weights, params, source_layer);
        i += 1;
    }
    state
}

/// The attention context of a weighted sum: every lane requantized once.
pub open spec fn finish_context_spec(state: PackedView) -> PackedView {
    if state.error.len() > 0 {
        bad(Seq::empty(), state.error)
    } else {
        match wide_lanes_of(state.values.bytes) {
            Err(e) => bad(Seq::empty(), e),
            Ok(acc) => good(acc.map_values(|a: i64| requantize_spec(a as int))),
        }
    }
}

/// A vector with a failure and no lanes.
pub fn failed_vec(error: String) -> (r: PackedVec)
    ensures
        r@ == bad(Seq::empty(), error@),
{
    let none: Vec<i32> = Vec::new();
    PackedVec { values: pack_i32s(none.as_slice()), error }
}

/// Requantizes the weighted sum into the attention context.
pub fn finish_context(state: CtxAccum) -> (r: PackedVec)
    ensures
        r@ == finish_context_spec(state@),
{
    if !state.error.as_str().is_empty() {
        return failed_vec(state.error);
    }
    let acc: Vec<i64> = match unpack_i64s(&state.acc) {
        Ok(lanes) => lanes,
        Err(e) => return failed_vec(e),
    };
    let mut lanes: Vec<i32> = Vec::new();
    let mut i: usize = 0;
    while i < acc.len()
        invariant
            i <= acc.len(),
            lanes@.len() == i,
            forall|j: int| 0 <= j < i ==> lanes@[j] == requantize_spec(acc@[j] as int),
        decreases acc.len() - i,
    {
        lanes.push(requantize(acc[i]));
        i += 1;
    }
    assert(lanes@ =~= acc@.map_values(|a: i64| requantize_spec(a as int)));
    PackedVec { values: pack_i32s(lanes.as_slice()), error: String::new() }
}

} // verus!
