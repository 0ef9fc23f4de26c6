//! The stage itself: one token of the second pass, the cache it carries
//! forward, and the whole layer.

use crate::activations::{
    summarise, summary_of, ActivationSequence, ActivationsView, ErrorSummary, KeyRow, KeyView,
    PleLayerInputs, PleRow, RowView,
};
use crate::kernels::{reliable, KernelCall};
use crate::lists::{views, views_of_push};
use crate::pages::{packed_wide, standalone, BytesPage, PageView};
use crate::prefill_range::attend::{
    accumulate_keys, accumulated, finish_context, finish_context_spec, score_keys, scored, sees,
    shape_ok, softmax_scores, softmax_scores_spec, wide_zeros, window_len_of, zero_context,
    zero_scores, zero_scores_spec,
};
use crate::packed::{bad, good, PackedView, ProjAccum};
use crate::prefill_range::input::{
    CtxAccum, KvSequence, LayerParams, PackedVec, QueryRow, QueryView, ScoreAccum,
    TransformerLayer, WeightVec,
};
use crate::prefill_range::layer::{
    attn_residual, attn_residual_spec, finish_layer, gelu_mul, gelu_mul_spec, layer_lanes, mlp_lanes,
    mlp_residual, ple_gate_mul, ple_gate_spec, pre_ff_norm, pre_ff_norm_spec, scaled_result,
    with_row,
};
use crate::prefill_range::matvec::{matvec, matvec_spec};
use crate::prefill_range::project::{
    assert_matrix_bytes, kv_out_len, matrix_check, packed_values, params_error, project_rows,
    projected, q_out_len, validate_layer_params,
};
use crate::text::{dec, decimal, outcome};
use vstd::prelude::*;

verus! {

/// The key lists a layer may attend over: its cache before the stage, the keys
/// of the stage's own tokens, and the caches of the two donor candidates.
pub struct KeyLists {
    pub prior: Vec<KeyRow>,
    pub own: Vec<KeyRow>,
    pub donor_a: Vec<KeyRow>,
    pub donor_b: Vec<KeyRow>,
}

/// The key lists as a mathematical value.
#[verifier::ext_equal]
pub struct KeyListsView {
    pub prior: Seq<KeyView>,
    pub own: Seq<KeyView>,
    pub donor_a: Seq<KeyView>,
    pub donor_b: Seq<KeyView>,
}

impl View for KeyLists {
    type V = KeyListsView;

    open spec fn view(&self) -> KeyListsView {
        KeyListsView {
            prior: views(self.prior@),
            own: views(self.own@),
            donor_a: views(self.donor_a@),
            donor_b: views(self.donor_b@),
        }
    }
}

impl KeyListsView {
    /// How many keys there are in all.
    pub open spec fn total(self) -> nat {
        self.prior.len() + self.own.len() + self.donor_a.len() + self.donor_b.len()
    }
}

/// The cache a layer computes itself, as a source of keys.
pub const OWN_CACHE: i32 = -1;

/// A query's scores against every key list.
pub open spec fn all_scored(lists: KeyListsView, query: QueryView, params: LayerParams)
    -> crate::prefill_range::input::ScoresView {
    let s0 = zero_scores_spec(query.position, params);
    let s1 = scored(s0, lists.prior, query, params, OWN_CACHE, lists.prior.len());
    let s2 = scored(s1, lists.own, query, params, OWN_CACHE, lists.own.len());
    let s3 = scored(s2, lists.donor_a, query, params, params.donor_a_layer, lists.donor_a.len());
    scored(s3, lists.donor_b, query, params, params.donor_b_layer, lists.donor_b.len())
}

/// A query's attention context.
pub open spec fn attention_context<K: Fn(KernelCall) -> Vec<i32>>(
    kernels: K,
    lists: KeyListsView,
    query: QueryView,
    params: LayerParams,
) -> PackedView {
    let weights = softmax_scores_spec(kernels, all_scored(lists, query, params), params);
    let c0 = PackedView {
        values: standalone(packed_wide(wide_zeros((params.num_heads * params.head_dim) as nat))),
        error: Seq::empty(),
    };
    let c1 = accumulated(c0, lists.prior, query, weights, params, OWN_CACHE, lists.prior.len());
    let c2 = accumulated(c1, lists.own, query, weights, params, OWN_CACHE, lists.own.len());
    let c3 = accumulated(
        c2,
        lists.donor_a,
        query,
        weights,
        params,
        params.donor_a_layer,
        lists.donor_a.len(),
    );
    finish_context_spec(
        accumulated(
            c3,
            lists.donor_b,
            query,
            weights,
            params,
            params.donor_b_layer,
            lists.donor_b.len(),
        ),
    )
}

/// The attention arithmetic of a query stays within machine limits.
pub open spec fn query_fits(position: u32, lists: KeyListsView, params: LayerParams) -> bool {
    &&& position < u32::MAX
    &&& window_len_of(position, params.sliding_window) * params.num_heads <= usize::MAX
    &&& lists.total() <= u32::MAX
}

/// Attends over every key list in two sweeps: score, softmax once, then sum
/// the weighted values.
///
/// Each sweep visits every list and exactly one source contributes: a layer that
/// owns its cache reads its prior and own keys, a sharing layer reads the donor
/// that its parameters name.
pub fn attend<K: Fn(KernelCall) -> Vec<i32>>(
    kernels: &K,
    lists: &KeyLists,
    query: &QueryRow,
    params: &LayerParams,
) -> (r: PackedVec)
    requires
        reliable(*kernels),
        shape_ok(*params),
        query_fits(query.position, lists@, *params),
    ensures
        r@ == attention_context(*kernels, lists@, query@, *params),
{
    let scores: ScoreAccum = zero_scores(query, params);
    let scores: ScoreAccum = score_keys(&lists.prior, scores, query, params, OWN_CACHE);
    let scores: ScoreAccum = score_keys(&lists.own, scores, query, params, OWN_CACHE);
    let scores: ScoreAccum = score_keys(
        &lists.donor_a,
        scores,
        query,
        params,
        params.donor_a_layer,
    );
    let scores: ScoreAccum = score_keys(
        &lists.donor_b,
        scores,
        query,
        params,
        params.donor_b_layer,
    );
    let weights: WeightVec = softmax_scores(kernels, scores, query, params);
    let context: CtxAccum = zero_context(params);
    let context: CtxAccum = accumulate_keys(
        &lists.prior,
        context,
        query,
        &weights,
        params,
        OWN_CACHE,
    );
    let context: CtxAccum = accumulate_keys(
        &lists.own,
        context,
        query,
        &weights,
        params,
        OWN_CACHE,
    );
    let context: CtxAccum = accumulate_keys(
        &lists.donor_a,
        context,
        query,
        &weights,
        params,
        params.donor_a_layer,
    );
    let context: CtxAccum = accumulate_keys(
        &lists.donor_b,
        context,
        query,
        &weights,
        params,
        params.donor_b_layer,
    );
    finish_context(context)
}

/// The weight matrices of the second pass, as pages.
#[verifier::ext_equal]
pub struct TailWeights {
    pub w_o: Seq<PageView>,
    pub w_gate: Seq<PageView>,
    pub w_up: Seq<PageView>,
    pub w_down: Seq<PageView>,
    pub ple_input_gate: Seq<PageView>,
    pub ple_layer_projection: Seq<PageView>,
}

/// The second-pass matrices of a layer.
pub open spec fn tail_weights(layer: TransformerLayer) -> TailWeights {
    TailWeights {
        w_o: layer.w_o@.pages,
        w_gate: layer.w_gate@.pages,
        w_up: layer.w_up@.pages,
        w_down: layer.w_down@.pages,
        ple_input_gate: layer.ple_input_gate@.pages,
        ple_layer_projection: layer.ple_layer_projection@.pages,
    }
}

/// The residual stream of one token after its feed-forward block.
pub open spec fn after_mlp<K: Fn(KernelCall) -> Vec<i32>>(
    kernels: K,
    query: QueryView,
    context: PackedView,
    params: LayerParams,
    w: TailWeights,
) -> PackedView {
    let hidden = params.hidden_size;
    let ffn = params.ffn_size;
    let q_len = (params.num_heads * params.head_dim) as u32;
    let attn_proj = matvec_spec(w.w_o, context.values, q_len, hidden);
    let residual = attn_residual_spec(kernels, query, context, attn_proj, params);
    let ff_in = pre_ff_norm_spec(kernels, residual, params);
    let gate = matvec_spec(w.w_gate, ff_in.values, hidden, ffn);
    let up = matvec_spec(w.w_up, ff_in.values, hidden, ffn);
    let gated = gelu_mul_spec(kernels, gate, up);
    let ff = matvec_spec(w.w_down, gated.values, ffn, hidden);
    match mlp_lanes(kernels, residual, ff_in, ff, params) {
        Ok(lanes) => good(lanes),
        Err(e) => bad(Seq::empty(), e),
    }
}

/// The output of one token's layer, or why it has none.
pub open spec fn token_lanes<K: Fn(KernelCall) -> Vec<i32>>(
    kernels: K,
    query: QueryView,
    lists: KeyListsView,
    params: LayerParams,
    w: TailWeights,
    ple: PageView,
) -> Result<Seq<i32>, Seq<char>> {
    let context = attention_context(kernels, lists, query, params);
    let xs = after_mlp(kernels, query, context, params, w);
    let gate = matvec_spec(w.ple_input_gate, xs.values, params.hidden_size, params.ple_width);
    let gated = ple_gate_spec(kernels, gate, ple);
    let projected = matvec_spec(
        w.ple_layer_projection,
        gated.values,
        params.ple_width,
        params.hidden_size,
    );
    scaled_result(layer_lanes(kernels, xs, projected, params), params)
}

fn mlp_block<K: Fn(KernelCall) -> Vec<i32>>(
    kernels: &K,
    query: &QueryRow,
    context: &PackedVec,
    layer: &TransformerLayer,
) -> (r: PackedVec)
    requires
        reliable(*kernels),
        shape_ok(layer.params),
    ensures
        r@ == after_mlp(*kernels, query@, context@, layer.params, tail_weights(*layer)),
{
    let params: &LayerParams = &layer.params;
    let context_values: BytesPage = packed_values(context);
    let q_len: u32 = q_out_len(params);
    let hidden: u32 = params.hidden_size;
    let ffn: u32 = params.ffn_size;
    let attn_proj: ProjAccum = matvec(&layer.w_o.pages, &context_values, q_len, hidden);
    let residual: PackedVec = attn_residual(kernels, query, context, &attn_proj, params);
    let ff_in: PackedVec = pre_ff_norm(kernels, &residual, params);
    let ff_in_values: BytesPage = packed_values(&ff_in);
    let gate: ProjAccum = matvec(&layer.w_gate.pages, &ff_in_values, hidden, ffn);
    let up: ProjAccum = matvec(&layer.w_up.pages, &ff_in_values, hidden, ffn);
    let gated: PackedVec = gelu_mul(kernels, &gate, &up);
    let gated_values: BytesPage = packed_values(&gated);
    let ff: ProjAccum = matvec(&layer.w_down.pages, &gated_values, ffn, hidden);
    mlp_residual(kernels, &residual, &ff_in, &ff, params)
}

/// One query as a step of its own.
pub fn begin_attention(row: QueryRow) -> (r: QueryRow)
    ensures
        r == row,
{
    row
}

/// One token of the second pass: attend, project, run the feed-forward and
/// per-layer-embedding blocks, and append the output row and cache entry.
///
/// The token's own cache entry and per-layer embedding are found by its index
/// within the stage, not by its absolute position.
pub fn attend_token<K: Fn(KernelCall) -> Vec<i32>>(
    kernels: &K,
    query: &QueryRow,
    output: ActivationSequence,
    lists: &KeyLists,
    layer: &TransformerLayer,
    ple_rows: &Vec<PleRow>,
) -> (r: ActivationSequence)
    requires
        reliable(*kernels),
        shape_ok(layer.params),
        query_fits(query.position, lists@, layer.params),
        query.local < lists.own@.len(),
        query.local < ple_rows@.len(),
    ensures
        r@ == with_row(
            output@,
            query@,
            token_lanes(
                *kernels,
                query@,
                lists@,
                layer.params,
                tail_weights(*layer),
                ple_rows@[query.local as int]@,
            ),
            lists.own@[query.local as int]@,
        ),
{
    let params: &LayerParams = &layer.params;
    let context: PackedVec = attend(kernels, lists, query, params);
    let xs: PackedVec = mlp_block(kernels, query, &context, layer);
    let local: usize = query.local as usize;
    let xs_values: BytesPage = packed_values(&xs);
    let gate: ProjAccum = matvec(
        &layer.ple_input_gate.pages,
        &xs_values,
        params.hidden_size,
        params.ple_width,
    );
    let gated: PackedVec = ple_gate_mul(kernels, &gate, &ple_rows[local]);
    let gated_values: BytesPage = packed_values(&gated);
    let projected: ProjAccum = matvec(
        &layer.ple_layer_projection.pages,
        &gated_values,
        params.ple_width,
        params.hidden_size,
    );
    let own_key: KeyRow = lists.own[local].clone();
    finish_layer(kernels, output, query, &xs, &projected, params, own_key)
}

/// Whether a cached key survives the boundary into a stage: it does unless it
/// is already a window or more behind the stage's first position.
pub open spec fn survives(start_position: u32, key_position: u32, sliding_window: u32) -> bool {
    sliding_window == 0 || start_position - key_position < sliding_window
}

/// The layer output with one inherited cache entry carried into it.
pub open spec fn carried(
    output: ActivationsView,
    key: KeyView,
    start_position: u32,
    sliding_window: u32,
) -> ActivationsView {
    if survives(start_position, key.position, sliding_window) {
        ActivationsView { kv: output.kv.push(key), ..output }
    } else {
        output
    }
}

/// Carries one inherited cache entry into the layer output, unless no query of
/// this stage or a later one can see it.
pub fn carry_cached_key(
    key: &KeyRow,
    output: ActivationSequence,
    start_position: u32,
    sliding_window: u32,
) -> (r: ActivationSequence)
    ensures
        r@ == carried(output@, key@, start_position, sliding_window),
{
    broadcast use views_of_push;

    let mut output: ActivationSequence = output;
    if sliding_window == 0 || key.position >= start_position || start_position - key.position
        < sliding_window {
        output.kv.push(key.clone());
    }
    output
}

/// The layer output after the first `n` inherited entries.
pub open spec fn carried_all(
    output: ActivationsView,
    keys: Seq<KeyView>,
    start_position: u32,
    sliding_window: u32,
    n: nat,
) -> ActivationsView
    decreases n,
{
    if n == 0 {
        output
    } else {
        carried(
            carried_all(output, keys, start_position, sliding_window, (n - 1) as nat),
            keys[n - 1],
            start_position,
            sliding_window,
        )
    }
}

/// Opens a layer's output at the stage's first position.
pub fn begin_layer_output(output: ActivationSequence, start_position: u32) -> (r:
    ActivationSequence)
    ensures
        r@ == (ActivationsView { start_position, ..output@ }),
{
    let mut output: ActivationSequence = output;
    output.start_position = start_position;
    output
}

/// The layer output after the first `n` queries.
pub open spec fn attended_rows<K: Fn(KernelCall) -> Vec<i32>>(
    kernels: K,
    output: ActivationsView,
    queries: Seq<QueryView>,
    lists: KeyListsView,
    params: LayerParams,
    w: TailWeights,
    ple: Seq<PageView>,
    n: nat,
) -> ActivationsView
    decreases n,
{
    if n == 0 {
        output
    } else {
        let query = queries[n - 1];
        with_row(
            attended_rows(kernels, output, queries, lists, params, w, ple, (n - 1) as nat),
            query,
            token_lanes(kernels, query, lists, params, w, ple[query.local as int]),
            lists.own[query.local as int],
        )
    }
}

/// Whether a layer's output is complete, and the message if not.
pub open spec fn completeness(
    projection_errors: int,
    first_projection_error: Seq<char>,
    attention_errors: int,
    first_attention_error: Seq<char>,
) -> Result<u32, Seq<char>> {
    if projection_errors > 0 {
        Err(
            dec(projection_errors as nat) + " row(s) failed projection; first: "@
                + first_projection_error,
        )
    } else if attention_errors > 0 {
        Err(
            dec(attention_errors as nat) + " row(s) failed attention/MLP; first: "@
                + first_attention_error,
        )
    } else {
        Ok(0)
    }
}

/// Rejects an incomplete layer output.
pub fn assert_layer_complete(
    projection_errors: u32,
    first_projection_error: &String,
    attention_errors: u32,
    first_attention_error: &String,
) -> (r: Result<u32, String>)
    ensures
        outcome(
            r,
            completeness(
                projection_errors as int,
                first_projection_error@,
                attention_errors as int,
                first_attention_error@,
            ),
        ),
{
    if projection_errors > 0 {
        return Err(
            decimal(projection_errors as u64).concat(" row(s) failed projection; first: ").concat(
                first_projection_error.as_str(),
            ),
        );
    }
    if attention_errors > 0 {
        return Err(
            decimal(attention_errors as u64).concat(
                " row(s) failed attention/MLP; first: ",
            ).concat(first_attention_error.as_str()),
        );
    }
    Ok(0)
}

/// Every declared matrix of a layer has the byte length its shape calls for,
/// and the first message if not.
pub open spec fn matrices_check(layer: TransformerLayer) -> Result<(), Seq<char>> {
    let p = layer.params;
    let hidden = p.hidden_size;
    let ffn = p.ffn_size;
    let q_len = (p.num_heads * p.head_dim) as u32;
    let kv_len = (p.num_kv_heads * p.head_dim) as u32;
    match (
        matrix_check(layer.w_q.byte_len, q_len, hidden),
        matrix_check(layer.w_k.byte_len, kv_len, hidden),
        matrix_check(layer.w_v.byte_len, kv_len, hidden),
        matrix_check(layer.w_o.byte_len, hidden, q_len),
        matrix_check(layer.w_gate.byte_len, ffn, hidden),
        matrix_check(layer.w_up.byte_len, ffn, hidden),
        matrix_check(layer.w_down.byte_len, hidden, ffn),
    ) {
        (Err(e), _, _, _, _, _, _) => Err(e),
        (_, Err(e), _, _, _, _, _) => Err(e),
        (_, _, Err(e), _, _, _, _) => Err(e),
        (_, _, _, Err(e), _, _, _) => Err(e),
        (_, _, _, _, Err(e), _, _) => Err(e),
        (_, _, _, _, _, Err(e), _) => Err(e),
        (_, _, _, _, _, _, Err(e)) => Err(e),
        _ => Ok(()),
    }
}

/// The layer's matrix sizes fit a `u64`.
pub open spec fn sizes_fit(params: LayerParams) -> bool {
    &&& params.num_heads * params.head_dim <= u32::MAX
    &&& params.num_kv_heads * params.head_dim <= u32::MAX
    &&& params.num_heads * params.head_dim * params.hidden_size * 4 <= u64::MAX
    &&& params.hidden_size * (params.num_heads * params.head_dim) * 4 <= u64::MAX
    &&& params.num_kv_heads * params.head_dim * params.hidden_size * 4 <= u64::MAX
    &&& params.ffn_size * params.hidden_size * 4 <= u64::MAX
    &&& params.hidden_size * params.ffn_size * 4 <= u64::MAX
}

fn check_matrices(layer: &TransformerLayer) -> (r: Result<(), String>)
    requires
        sizes_fit(layer.params),
    ensures
        match matrices_check(*layer) {
            Ok(()) => r is Ok,
            Err(e) => r matches Err(s) && s@ == e,
        },
{
    let p: &LayerParams = &layer.params;
    let hidden: u32 = p.hidden_size;
    let ffn: u32 = p.ffn_size;
    let q_len: u32 = q_out_len(p);
    let kv_len: u32 = kv_out_len(p);
    match assert_matrix_bytes(layer.w_q.byte_len, q_len, hidden) {
        Ok(_) => {},
        Err(e) => return Err(e),
    }
    match assert_matrix_bytes(layer.w_k.byte_len, kv_len, hidden) {
        Ok(_) => {},
        Err(e) => return Err(e),
    }
    match assert_matrix_bytes(layer.w_v.byte_len, kv_len, hidden) {
        Ok(_) => {},
        Err(e) => return Err(e),
    }
    match assert_matrix_bytes(layer.w_o.byte_len, hidden, q_len) {
        Ok(_) => {},
        Err(e) => return Err(e),
    }
    match assert_matrix_bytes(layer.w_gate.byte_len, ffn, hidden) {
        Ok(_) => {},
        Err(e) => return Err(e),
    }
    match assert_matrix_bytes(layer.w_up.byte_len, ffn, hidden) {
        Ok(_) => {},
        Err(e) => return Err(e),
    }
    match assert_matrix_bytes(layer.w_down.byte_len, hidden, ffn) {
        Ok(_) => {},
        Err(e) => return Err(e),
    }
    Ok(())
}

/// What a layer makes of a run of activations, or why it is refused.
pub open spec fn layer_result<K: Fn(KernelCall) -> Vec<i32>>(
    kernels: K,
    activations: ActivationsView,
    layer: TransformerLayer,
    prior_kv: ActivationsView,
    donor_a_kv: ActivationsView,
    donor_b_kv: ActivationsView,
    ple: Seq<PageView>,
) -> Result<ActivationsView, Seq<char>> {
    match (params_error(layer.params), matrices_check(layer)) {
        (Some(e), _) => Err(e),
        (None, Err(e)) => Err(e),
        (None, Ok(())) => {
            let kv = projected(
                kernels,
                activations.rows,
                activations.start_position,
                layer.params,
                layer.w_q@.pages,
                layer.w_k@.pages,
                layer.w_v@.pages,
                activations.rows.len(),
            );
            let lists = KeyListsView {
                prior: prior_kv.kv,
                own: kv.keys,
                donor_a: donor_a_kv.kv,
                donor_b: donor_b_kv.kv,
            };
            let opened = carried_all(
                ActivationsView {
                    start_position: activations.start_position,
                    ..crate::activations::no_activations()
                },
                prior_kv.kv,
                activations.start_position,
                layer.params.sliding_window,
                prior_kv.kv.len(),
            );
            let output = attended_rows(
                kernels,
                opened,
                kv.queries,
                lists,
                layer.params,
                tail_weights(layer),
                ple,
                kv.queries.len(),
            );
            let projection = summary_of(kv.errors);
            let attention = summary_of(output.errors);
            match completeness(
                projection.count,
                projection.first,
                attention.count,
                attention.first,
            ) {
                Err(e) => Err(e),
                Ok(_) => Ok(output),
            }
        },
    }
}

/// The first pass yields one key and one query per token that did not fail, and
/// when none failed, token `i` has stage-local index `i` and absolute position
/// `start + i`.
pub proof fn positions_and_indexes_advance_together<K: Fn(KernelCall) -> Vec<i32>>(
    kernels: K,
    rows: Seq<RowView>,
    start: u32,
    params: LayerParams,
    w_q: Seq<PageView>,
    w_k: Seq<PageView>,
    w_v: Seq<PageView>,
    n: nat,
)
    requires
        start + n <= u32::MAX,
    ensures
        ({
            let kv = projected(kernels, rows, start, params, w_q, w_k, w_v, n);
            &&& kv.keys.len() == kv.queries.len()
            &&& kv.keys.len() + kv.errors.len() == n
            &&& kv.errors.len() == 0 ==> forall|i: int|
                0 <= i < n ==> (#[trigger] kv.queries[i]).local == i && kv.queries[i].position
                    == start + i && kv.keys[i].position == start + i
        }),
    decreases n,
{
    if n > 0 {
        positions_and_indexes_advance_together(
            kernels,
            rows,
            start,
            params,
            w_q,
            w_k,
            w_v,
            (n - 1) as nat,
        );
    }
}

fn carry_cached_keys(
    keys: &Vec<KeyRow>,
    output: ActivationSequence,
    start_position: u32,
    sliding_window: u32,
) -> (r: ActivationSequence)
    ensures
        r@ == carried_all(output@, views(keys@), start_position, sliding_window, keys@.len()),
{
    let ghost start = output;
    let mut output: ActivationSequence = output;
    let mut i: usize = 0;
    while i < keys.len()
        invariant
            i <= keys.len(),
            output@ == carried_all(start@, views(keys@), start_position, sliding_window, i as nat),
        decreases keys.len() - i,
    {
        output = carry_cached_key(&keys[i], output, start_position, sliding_window);
        i += 1;
    }
    output
}

proof fn lemma_carried_keeps_errors(
    output: ActivationsView,
    keys: Seq<KeyView>,
    start_position: u32,
    sliding_window: u32,
    n: nat,
)
    ensures
        carried_all(output, keys, start_position, sliding_window, n).errors == output.errors,
    decreases n,
{
    if n > 0 {
        lemma_carried_keeps_errors(output, keys, start_position, sliding_window, (n - 1) as nat);
    }
}

/// The stage's arithmetic stays within machine limits, and every list that is
/// indexed by token has an entry for each.
pub open spec fn stage_fits(
    activations: ActivationsView,
    params: LayerParams,
    prior: nat,
    donor_a: nat,
    donor_b: nat,
    ple: nat,
) -> bool {
    &&& params_error(params) is None ==> sizes_fit(params)
    &&& activations.start_position + activations.rows.len() <= u32::MAX
    &&& activations.rows.len() <= ple
    &&& prior + activations.rows.len() + donor_a + donor_b <= u32::MAX
    &&& forall|p: u32|
        p < activations.start_position + activations.rows.len() ==> #[trigger] window_len_of(
            p,
            params.sliding_window,
        ) * params.num_heads <= usize::MAX
}

/// Runs one transformer layer.
///
/// `prior_kv` carries this layer's cache from before the stage, and the two
/// donor runs carry the caches that a sharing layer may borrow; the layer's own
/// parameters say which source it reads.
pub fn run_layer<K: Fn(KernelCall) -> Vec<i32>>(
    kernels: &K,
    activations: &ActivationSequence,
    layer: TransformerLayer,
    prior_kv: ActivationSequence,
    donor_a_kv: ActivationSequence,
    donor_b_kv: ActivationSequence,
    ple: &PleLayerInputs,
) -> (r: Result<ActivationSequence, String>)
    requires
        reliable(*kernels),
        stage_fits(
            activations@,
            layer.params,
            prior_kv.kv@.len(),
            donor_a_kv.kv@.len(),
            donor_b_kv.kv@.len(),
            ple.rows@.len(),
        ),
    ensures
        outcome(
            r,
            layer_result(
                *kernels,
                activations@,
                layer,
                prior_kv@,
                donor_a_kv@,
                donor_b_kv@,
                ple@.rows,
            ),
        ),
{
    let ghost declared = layer;
    let mut layer: TransformerLayer = layer;
    layer.params = match validate_layer_params(layer.params) {
        Ok(params) => params,
        Err(e) => return Err(e),
    };
    match check_matrices(&layer) {
        Ok(()) => {},
        Err(e) => return Err(e),
    }
    let start_position: u32 = activations.start_position;
    let kv: KvSequence = project_rows(
        kernels,
        &activations.rows,
        start_position,
        &layer.params,
        &layer.w_q.pages,
        &layer.w_k.pages,
        &layer.w_v.pages,
    );
    let ghost kv_view = kv@;
    proof {
        positions_and_indexes_advance_together(
            *kernels,
            activations@.rows,
            start_position,
            layer.params,
            layer.w_q@.pages,
            layer.w_k@.pages,
            layer.w_v@.pages,
            activations@.rows.len(),
        );
    }
    let projection: ErrorSummary = summarise(&kv.errors);
    if projection.count > 0 {
        // No later pass can mend a token that was not projected.
        let none: String = String::new();
        match assert_layer_complete(projection.count, &projection.first, 0, &none) {
            Ok(_) => {},
            Err(e) => return Err(e),
        }
    }
    let KvSequence { keys, queries, errors: _ } = kv;
    let output: ActivationSequence = begin_layer_output(ActivationSequence::empty(), start_position);
    let mut output: ActivationSequence = carry_cached_keys(
        &prior_kv.kv,
        output,
        start_position,
        layer.params.sliding_window,
    );
    let lists: KeyLists = KeyLists {
        prior: prior_kv.kv,
        own: keys,
        donor_a: donor_a_kv.kv,
        donor_b: donor_b_kv.kv,
    };
    let ghost opened = output@;
    proof {
        lemma_carried_keeps_errors(
            ActivationsView { start_position, ..crate::activations::no_activations() },
            views(prior_kv.kv@),
            start_position,
            layer.params.sliding_window,
            prior_kv.kv@.len(),
        );
    }
    let mut i: usize = 0;
    while i < queries.len()
        invariant
            i <= queries.len(),
            reliable(*kernels),
            shape_ok(layer.params),
            start_position == activations@.start_position,
            activations@.start_position + activations@.rows.len() <= u32::MAX,
            activations@.rows.len() <= ple.rows@.len(),
            lists@.total() <= u32::MAX,
            forall|p: u32|
                p < activations@.start_position + activations@.rows.len()
                    ==> #[trigger] window_len_of(p, layer.params.sliding_window)
                    * layer.params.num_heads <= usize::MAX,
            queries@.len() == activations@.rows.len(),
            lists.own@.len() == activations@.rows.len(),
            forall|j: int|
                0 <= j < queries@.len() ==> (#[trigger] views(queries@)[j]).local == j && views(
                    queries@,
                )[j].position == start_position + j,
            output@.errors.len() <= i,
            output@ == attended_rows(
                *kernels,
                opened,
                views(queries@),
                lists@,
                layer.params,
                tail_weights(layer),
                ple@.rows,
                i as nat,
            ),
        decreases queries.len() - i,
    {
        assert(views(queries@)[i as int] == queries@[i as int]@);
        assert(window_len_of(queries@[i as int].position, layer.params.sliding_window)
            * layer.params.num_heads <= usize::MAX);
        output = attend_token(kernels, &queries[i], output, &lists, &layer, &ple.rows);
        i += 1;
    }
    let attention: ErrorSummary = summarise(&output.errors);
    match assert_layer_complete(
        projection.count,
        &projection.first,
        attention.count,
        &attention.first,
    ) {
        Ok(_) => Ok(output),
        Err(e) => Err(e),
    }
}

/// Pruning the cache at a stage boundary never drops a key that a query of the
/// stage, or of any later one, sees.
pub proof fn pruning_keeps_what_is_seen(
    start_position: u32,
    query_position: u32,
    key_position: u32,
    sliding_window: u32,
)
    requires
        start_position <= query_position,
        sees(query_position, key_position, sliding_window),
    ensures
        survives(start_position, key_position, sliding_window),
{
}

} // verus!
