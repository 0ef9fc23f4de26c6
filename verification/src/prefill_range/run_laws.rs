//! What a layer makes of a run of tokens, in terms of the run, the layer's matrices and
//! the caches it is given.

use crate::activations::{ActivationsView, KeyView, RowView};
use crate::kernels::{answer, KernelCall, KernelRequest};
use crate::numerics::rms_norm_result;
use crate::pages::{lanes_of, packed, standalone, unpack_undoes_pack, PageView};
use crate::prefill_range::input::{KvView, LayerParams, QueryView, TokenCursor, TransformerLayer};
use crate::prefill_range::layer::with_row;
use crate::prefill_range::layer_laws::{
    a_sweep_is_the_image, answers_in_width, holds_matrix, image, normalised,
};
use crate::prefill_range::project::{
    head_count, head_of, normed_heads, normed_values, params_error, project_spec, projected, roped,
};
use crate::prefill_range::stage::{
    attended_rows, carried_all, layer_result, matrices_check,
    positions_and_indexes_advance_together, token_lanes, KeyListsView, TailWeights,
};
use vstd::prelude::*;

verus! {

/// A head turned to its position: the rotary kernel's answer in the first `rotary_dim`
/// lanes, the head itself in the others, and at position zero everywhere.
pub open spec fn turned<K: Fn(KernelCall) -> Vec<i32>>(
    kernels: K,
    head: Seq<i32>,
    p: LayerParams,
    position: u32,
) -> Seq<i32> {
    Seq::new(
        head.len(),
        |i: int|
            if i < p.rotary_dim && position > 0 {
                answer(
                    kernels,
                    KernelRequest::Rope {
                        lanes: head.subrange(0, p.rotary_dim as int),
                        freq_base_dim: p.rope_freq_base_dim as usize,
                        base: p.rope_base,
                        position: position as usize,
                    },
                )[i]
            } else {
                head[i]
            },
    )
}

/// Whether `out` is `lanes` head by head: each head normalised by `weights` and then
/// turned to its position.
pub open spec fn normed_and_turned<K: Fn(KernelCall) -> Vec<i32>>(
    kernels: K,
    out: Seq<i32>,
    lanes: Seq<i32>,
    weights: PageView,
    p: LayerParams,
    position: u32,
    heads: int,
) -> bool {
    let d = p.head_dim as int;
    &&& out.len() == heads * d
    &&& forall|h: int|
        0 <= h < heads ==> #[trigger] out.subrange(h * d, (h + 1) * d) == turned(
            kernels,
            normalised(kernels, lanes.subrange(h * d, (h + 1) * d), weights, p.norm_eps),
            p,
            position,
        )
}

/// Whether `out` is `lanes` head by head, each normalised without weights.
pub open spec fn value_normed<K: Fn(KernelCall) -> Vec<i32>>(
    kernels: K,
    out: Seq<i32>,
    lanes: Seq<i32>,
    p: LayerParams,
    heads: int,
) -> bool {
    let d = p.head_dim as int;
    &&& out.len() == heads * d
    &&& forall|h: int|
        0 <= h < heads ==> #[trigger] out.subrange(h * d, (h + 1) * d) == answer(
            kernels,
            KernelRequest::ValueRmsNorm {
                lanes: lanes.subrange(h * d, (h + 1) * d),
                eps: p.norm_eps,
            },
        )
}

proof fn lemma_head_bounds(heads: int, d: int, h: int)
    requires
        0 <= h < heads,
        d > 0,
    ensures
        0 <= h * d,
        (h + 1) * d == h * d + d,
        (h + 1) * d <= heads * d,
{
    assert(0 <= h * d && (h + 1) * d == h * d + d && (h + 1) * d <= heads * d) by (nonlinear_arith)
        requires
            0 <= h < heads,
            d > 0,
    ;
}

proof fn lemma_count(heads: int, d: int)
    requires
        heads >= 0,
        d > 0,
    ensures
        head_count(heads * d, d) == heads,
{
    assert((heads * d + d - 1) / d == heads) by (nonlinear_arith)
        requires
            heads >= 0,
            d > 0,
    ;
}

proof fn lemma_heads<K: Fn(KernelCall) -> Vec<i32>>(
    kernels: K,
    lanes: Seq<i32>,
    weights: PageView,
    p: LayerParams,
    position: u32,
    heads: int,
    n: nat,
)
    requires
        params_error(p) is None,
        answers_in_width(kernels),
        weights.bytes.len() == 4 * p.head_dim,
        lanes.len() == heads * p.head_dim,
        n <= heads,
    ensures
        normed_heads(kernels, lanes, lanes_of(weights.bytes)->Ok_0, p, position, n) is Ok,
        normed_and_turned(
            kernels,
            normed_heads(kernels, lanes, lanes_of(weights.bytes)->Ok_0, p, position, n)->Ok_0,
            lanes,
            weights,
            p,
            position,
            n as int,
        ),
    decreases n,
{
    let d = p.head_dim as int;
    let vector = lanes_of(weights.bytes)->Ok_0;
    if n > 0 {
        let m = (n - 1) as nat;
        lemma_heads(kernels, lanes, weights, p, position, heads, m);
        lemma_head_bounds(heads, d, m as int);
        let done = normed_heads(kernels, lanes, vector, p, position, m)->Ok_0;
        let head = head_of(lanes, d, m as int);
        assert(head =~= lanes.subrange(m * d, (m + 1) * d));
        let normed = normalised(kernels, head, weights, p.norm_eps);
        assert(rms_norm_result(kernels, head, vector, p.norm_eps) == Ok::<Seq<i32>, Seq<char>>(
            normed,
        ));
        assert(normed.take(p.rotary_dim as int) =~= normed.subrange(0, p.rotary_dim as int));
        assert(roped(kernels, normed, p, position) =~= turned(kernels, normed, p, position));
        let out = done + turned(kernels, normed, p, position);
        assert forall|h: int| 0 <= h < n implies #[trigger] out.subrange(h * d, (h + 1) * d)
            == turned(
            kernels,
            normalised(kernels, lanes.subrange(h * d, (h + 1) * d), weights, p.norm_eps),
            p,
            position,
        ) by {
            if h < m {
                lemma_head_bounds(m as int, d, h);
                assert(out.subrange(h * d, (h + 1) * d) =~= done.subrange(h * d, (h + 1) * d));
            } else {
                assert(out.subrange(h * d, (h + 1) * d) =~= turned(kernels, normed, p, position));
            }
        }
    }
}

proof fn lemma_values<K: Fn(KernelCall) -> Vec<i32>>(
    kernels: K,
    lanes: Seq<i32>,
    p: LayerParams,
    heads: int,
    n: nat,
)
    requires
        params_error(p) is None,
        answers_in_width(kernels),
        lanes.len() == heads * p.head_dim,
        n <= heads,
    ensures
        normed_values(kernels, lanes, p, n) is Ok,
        value_normed(kernels, normed_values(kernels, lanes, p, n)->Ok_0, lanes, p, n as int),
    decreases n,
{
    let d = p.head_dim as int;
    if n > 0 {
        let m = (n - 1) as nat;
        lemma_values(kernels, lanes, p, heads, m);
        lemma_head_bounds(heads, d, m as int);
        let done = normed_values(kernels, lanes, p, m)->Ok_0;
        let head = head_of(lanes, d, m as int);
        assert(head =~= lanes.subrange(m * d, (m + 1) * d));
        let normed = answer(
            kernels,
            KernelRequest::ValueRmsNorm { lanes: head, eps: p.norm_eps },
        );
        let out = done + normed;
        assert forall|h: int| 0 <= h < n implies #[trigger] out.subrange(h * d, (h + 1) * d)
            == answer(
            kernels,
            KernelRequest::ValueRmsNorm {
                lanes: lanes.subrange(h * d, (h + 1) * d),
                eps: p.norm_eps,
            },
        ) by {
            if h < m {
                lemma_head_bounds(m as int, d, h);
                assert(out.subrange(h * d, (h + 1) * d) =~= done.subrange(h * d, (h + 1) * d));
            } else {
                assert(out.subrange(h * d, (h + 1) * d) =~= normed);
            }
        }
    }
}

/// Projecting a token: its row is normalised by the input norm; the query heads are
/// `w_q`'s product, each normalised by the query norm and turned to the position; the
/// key heads are `w_k`'s product, each normalised by the key norm and turned; the value
/// heads are `w_v`'s product, each normalised without weights and not turned. The row
/// itself is kept as the residual, and the token's id and position go along.
pub proof fn a_token_is_projected<K: Fn(KernelCall) -> Vec<i32>>(
    kernels: K,
    output: KvView,
    cursor: TokenCursor,
    row: RowView,
    p: LayerParams,
    w_q: Seq<PageView>,
    w_k: Seq<PageView>,
    w_v: Seq<PageView>,
    mq: Seq<i32>,
    mk: Seq<i32>,
    mv: Seq<i32>,
    x: Seq<i32>,
)
    requires
        params_error(p) is None,
        p.num_heads * p.head_dim <= u32::MAX,
        p.num_kv_heads * p.head_dim <= u32::MAX,
        answers_in_width(kernels),
        row.values.bytes == packed(x),
        x.len() == p.hidden_size,
        holds_matrix(w_q, mq, p.num_heads * p.head_dim, p.hidden_size as int),
        holds_matrix(w_k, mk, p.num_kv_heads * p.head_dim, p.hidden_size as int),
        holds_matrix(w_v, mv, p.num_kv_heads * p.head_dim, p.hidden_size as int),
    ensures
        ({
            let r = project_spec(kernels, output, cursor, row, p, w_q, w_k, w_v);
            let n = normalised(kernels, x, p.norm_input@, p.norm_eps);
            let query = r.queries.last();
            let key = r.keys.last();
            let kv_len = p.num_kv_heads * p.head_dim;
            &&& r.errors == output.errors
            &&& r.queries == output.queries.push(query)
            &&& r.keys == output.keys.push(key)
            &&& query.token_id == row.token_id
            &&& query.position == cursor.position
            &&& query.local == cursor.local
            &&& lanes_of(query.residual.bytes) == Ok::<Seq<i32>, Seq<char>>(x)
            &&& key.position == cursor.position
            &&& lanes_of(query.q.bytes) matches Ok(q) && normed_and_turned(
                kernels,
                q,
                image(mq, p.num_heads * p.head_dim, n),
                p.q_norm@,
                p,
                cursor.position,
                p.num_heads as int,
            )
            &&& lanes_of(key.k.bytes) matches Ok(k) && normed_and_turned(
                kernels,
                k,
                image(mk, kv_len, n),
                p.k_norm@,
                p,
                cursor.position,
                p.num_kv_heads as int,
            )
            &&& lanes_of(key.v.bytes) matches Ok(v) && value_normed(
                kernels,
                v,
                image(mv, kv_len, n),
                p,
                p.num_kv_heads as int,
            )
        }),
{
    let d = p.head_dim as int;
    let q_len = (p.num_heads * p.head_dim) as u32;
    let kv_len = (p.num_kv_heads * p.head_dim) as u32;
    unpack_undoes_pack(x);
    assert(lanes_of(p.norm_input@.bytes) is Ok && (lanes_of(p.norm_input@.bytes)->Ok_0).len()
        == p.hidden_size);
    let n = normalised(kernels, x, p.norm_input@, p.norm_eps);
    a_sweep_is_the_image(w_q, mq, q_len, p.hidden_size, n);
    a_sweep_is_the_image(w_k, mk, kv_len, p.hidden_size, n);
    a_sweep_is_the_image(w_v, mv, kv_len, p.hidden_size, n);
    let q = image(mq, q_len as int, n);
    let k = image(mk, kv_len as int, n);
    let v = image(mv, kv_len as int, n);
    unpack_undoes_pack(q);
    unpack_undoes_pack(k);
    unpack_undoes_pack(v);
    lemma_count(p.num_heads as int, d);
    lemma_count(p.num_kv_heads as int, d);
    lemma_heads(
        kernels,
        q,
        p.q_norm@,
        p,
        cursor.position,
        p.num_heads as int,
        p.num_heads as nat,
    );
    lemma_heads(
        kernels,
        k,
        p.k_norm@,
        p,
        cursor.position,
        p.num_kv_heads as int,
        p.num_kv_heads as nat,
    );
    lemma_values(kernels, v, p, p.num_kv_heads as int, p.num_kv_heads as nat);
    unpack_undoes_pack(
        normed_heads(
            kernels,
            q,
            lanes_of(p.q_norm@.bytes)->Ok_0,
            p,
            cursor.position,
            p.num_heads as nat,
        )->Ok_0,
    );
    unpack_undoes_pack(
        normed_heads(
            kernels,
            k,
            lanes_of(p.k_norm@.bytes)->Ok_0,
            p,
            cursor.position,
            p.num_kv_heads as nat,
        )->Ok_0,
    );
    unpack_undoes_pack(normed_values(kernels, v, p, p.num_kv_heads as nat)->Ok_0);
}

/// Nothing projected yet.
pub open spec fn nothing_projected() -> KvView {
    KvView { keys: Seq::empty(), queries: Seq::empty(), errors: Seq::empty() }
}

/// The first pass treats every row on its own: if no row fails, the query and key of
/// token `i` are those of projecting row `i` alone, at the position `i` behind the
/// stage's start.
pub proof fn rows_are_projected_on_their_own<K: Fn(KernelCall) -> Vec<i32>>(
    kernels: K,
    rows: Seq<RowView>,
    start: u32,
    p: LayerParams,
    w_q: Seq<PageView>,
    w_k: Seq<PageView>,
    w_v: Seq<PageView>,
    n: nat,
    i: int,
)
    requires
        start + n <= u32::MAX,
        projected(kernels, rows, start, p, w_q, w_k, w_v, n).errors.len() == 0,
        0 <= i < n,
    ensures
        ({
            let all = projected(kernels, rows, start, p, w_q, w_k, w_v, n);
            let cursor = TokenCursor { position: (start + i) as u32, local: i as u32 };
            let one = project_spec(kernels, nothing_projected(), cursor, rows[i], p, w_q, w_k, w_v);
            &&& all.queries.len() == n
            &&& all.keys.len() == n
            &&& one.errors.len() == 0
            &&& all.queries[i] == one.queries[0]
            &&& all.keys[i] == one.keys[0]
            &&& all.queries[i].token_id == rows[i].token_id
        }),
    decreases n,
{
    positions_and_indexes_advance_together(kernels, rows, start, p, w_q, w_k, w_v, n);
    let m = (n - 1) as nat;
    positions_and_indexes_advance_together(kernels, rows, start, p, w_q, w_k, w_v, m);
    assert(projected(kernels, rows, start, p, w_q, w_k, w_v, m).errors.len() == 0);
    if i < m {
        rows_are_projected_on_their_own(kernels, rows, start, p, w_q, w_k, w_v, m, i);
    }
}

proof fn lemma_carried(
    output: ActivationsView,
    keys: Seq<KeyView>,
    start: u32,
    sliding_window: u32,
    n: nat,
)
    requires
        n <= keys.len(),
    ensures
        carried_all(output, keys, start, sliding_window, n) == (ActivationsView {
            kv: output.kv + keys.take(n as int).filter(
                |key: KeyView| sliding_window == 0 || start - key.position < sliding_window,
            ),
            ..output
        }),
    decreases n,
{
    reveal(Seq::filter);
    let pred = |key: KeyView| sliding_window == 0 || start - key.position < sliding_window;
    let head = keys.take(n as int);
    if n == 0 {
        assert(output.kv + head.filter(pred) =~= output.kv);
    } else {
        lemma_carried(output, keys, start, sliding_window, (n - 1) as nat);
        assert(head.drop_last() =~= keys.take(n - 1));
        assert(head.last() == keys[n - 1]);
        let before = keys.take(n - 1).filter(pred);
        assert((output.kv + before).push(keys[n - 1]) =~= output.kv + before.push(keys[n - 1]));
    }
}

proof fn lemma_row_appended(
    output: ActivationsView,
    query: QueryView,
    lanes: Result<Seq<i32>, Seq<char>>,
    own_key: KeyView,
)
    requires
        with_row(output, query, lanes, own_key).errors.len() == 0,
    ensures
        output.errors.len() == 0,
        lanes is Ok,
        with_row(output, query, lanes, own_key) == (ActivationsView {
            rows: output.rows.push(
                RowView { token_id: query.token_id, values: standalone(packed(lanes->Ok_0)) },
            ),
            errors: output.errors,
            kv: output.kv.push(own_key),
            start_position: output.start_position,
        }),
{
}

/// A run of outcomes appended to an output, each with its token's key.
spec fn appended(
    output: ActivationsView,
    queries: Seq<QueryView>,
    outcomes: Seq<Result<Seq<i32>, Seq<char>>>,
    own: Seq<KeyView>,
    n: nat,
) -> ActivationsView
    decreases n,
{
    if n == 0 {
        output
    } else {
        with_row(
            appended(output, queries, outcomes, own, (n - 1) as nat),
            queries[n - 1],
            outcomes[n - 1],
            own[n - 1],
        )
    }
}

proof fn lemma_appended(
    output: ActivationsView,
    queries: Seq<QueryView>,
    outcomes: Seq<Result<Seq<i32>, Seq<char>>>,
    own: Seq<KeyView>,
    n: nat,
)
    requires
        n <= own.len(),
        appended(output, queries, outcomes, own, n).errors.len() == 0,
        output.rows.len() == 0,
    ensures
        ({
            let r = appended(output, queries, outcomes, own, n);
            &&& output.errors.len() == 0
            &&& r.start_position == output.start_position
            &&& r.kv == output.kv + own.take(n as int)
            &&& r.rows.len() == n
            &&& forall|i: int| 0 <= i < n ==> (#[trigger] outcomes[i]) is Ok
            &&& forall|i: int|
                0 <= i < n ==> (#[trigger] r.rows[i]).token_id == queries[i].token_id
            &&& forall|i: int|
                0 <= i < n ==> (#[trigger] r.rows[i]).values == standalone(
                    packed(outcomes[i]->Ok_0),
                )
        }),
    decreases n,
{
    if n == 0 {
        assert(output.kv + own.take(0) =~= output.kv);
    } else {
        let m = (n - 1) as nat;
        lemma_row_appended(
            appended(output, queries, outcomes, own, m),
            queries[m as int],
            outcomes[m as int],
            own[m as int],
        );
        lemma_appended(output, queries, outcomes, own, m);
        let before = appended(output, queries, outcomes, own, m);
        let r = appended(output, queries, outcomes, own, n);
        let row = RowView {
            token_id: queries[m as int].token_id,
            values: standalone(packed(outcomes[m as int]->Ok_0)),
        };
        assert(r.rows == before.rows.push(row));
        assert(r.kv == before.kv.push(own[m as int]));
        assert(before.kv == output.kv + own.take(m as int));
        assert(r.start_position == output.start_position);
        assert forall|i: int| 0 <= i < n implies (#[trigger] outcomes[i]) is Ok by {}
        assert forall|i: int| 0 <= i < n implies (#[trigger] r.rows[i]).token_id
            == queries[i].token_id && r.rows[i].values == standalone(
            packed(outcomes[i]->Ok_0),
        ) by {
            if i < m {
                assert(r.rows[i] == before.rows[i]);
            }
        }
        assert((output.kv + own.take(m as int)).push(own[m as int]) =~= output.kv + own.take(
            n as int,
        ));
    }
}

/// What the second pass makes of each token of a run.
spec fn outcomes_of<K: Fn(KernelCall) -> Vec<i32>>(
    kernels: K,
    queries: Seq<QueryView>,
    lists: KeyListsView,
    p: LayerParams,
    w: TailWeights,
    ple: Seq<PageView>,
) -> Seq<Result<Seq<i32>, Seq<char>>> {
    Seq::new(
        queries.len(),
        |i: int| token_lanes(kernels, queries[i], lists, p, w, ple[i]),
    )
}

proof fn lemma_attended<K: Fn(KernelCall) -> Vec<i32>>(
    kernels: K,
    output: ActivationsView,
    queries: Seq<QueryView>,
    lists: KeyListsView,
    p: LayerParams,
    w: TailWeights,
    ple: Seq<PageView>,
    n: nat,
)
    requires
        n <= queries.len(),
        forall|i: int| 0 <= i < n ==> (#[trigger] queries[i]).local == i,
    ensures
        attended_rows(kernels, output, queries, lists, p, w, ple, n) == appended(
            output,
            queries,
            outcomes_of(kernels, queries, lists, p, w, ple),
            lists.own,
            n,
        ),
    decreases n,
{
    if n > 0 {
        lemma_attended(kernels, output, queries, lists, p, w, ple, (n - 1) as nat);
        assert(queries[n - 1].local == n - 1);
    }
}

/// A layer that succeeds gives back a run like the one it took: one row per token, in
/// order, under the token's id, at the same start. Row `i` is what the second pass makes
/// of token `i`'s query, over the caches as they were handed in, the layer's own
/// matrices, and the token's own per-layer embedding. The cache it hands on is the one
/// it was given, less the keys that are a window or more behind, followed by one key per
/// token.
pub proof fn a_layer_maps_a_run<K: Fn(KernelCall) -> Vec<i32>>(
    kernels: K,
    activations: ActivationsView,
    layer: TransformerLayer,
    prior_kv: ActivationsView,
    donor_a_kv: ActivationsView,
    donor_b_kv: ActivationsView,
    ple: Seq<PageView>,
)
    requires
        activations.start_position + activations.rows.len() <= u32::MAX,
    ensures
        layer_result(kernels, activations, layer, prior_kv, donor_a_kv, donor_b_kv, ple) matches Ok(
            out,
        ) ==> {
            let first = projected(
                kernels,
                activations.rows,
                activations.start_position,
                layer.params,
                layer.w_q@.pages,
                layer.w_k@.pages,
                layer.w_v@.pages,
                activations.rows.len(),
            );
            let lists = KeyListsView {
                prior: prior_kv.kv,
                own: first.keys,
                donor_a: donor_a_kv.kv,
                donor_b: donor_b_kv.kv,
            };
            let w = TailWeights {
                w_o: layer.w_o@.pages,
                w_gate: layer.w_gate@.pages,
                w_up: layer.w_up@.pages,
                w_down: layer.w_down@.pages,
                ple_input_gate: layer.ple_input_gate@.pages,
                ple_layer_projection: layer.ple_layer_projection@.pages,
            };
            let window = layer.params.sliding_window;
            &&& params_error(layer.params) is None
            &&& matrices_check(layer) is Ok
            &&& first.errors.len() == 0
            &&& first.queries.len() == activations.rows.len()
            &&& first.keys.len() == activations.rows.len()
            &&& out.start_position == activations.start_position
            &&& out.errors.len() == 0
            &&& out.rows.len() == activations.rows.len()
            &&& out.kv == prior_kv.kv.filter(
                |key: KeyView|
                    window == 0 || activations.start_position - key.position < window,
            ) + first.keys
            &&& forall|i: int|
                0 <= i < out.rows.len() ==> (#[trigger] out.rows[i]).token_id
                    == activations.rows[i].token_id && (token_lanes(
                    kernels,
                    first.queries[i],
                    lists,
                    layer.params,
                    w,
                    ple[i],
                ) matches Ok(lanes) && lanes_of(out.rows[i].values.bytes) == Ok::<
                    Seq<i32>,
                    Seq<char>,
                >(lanes))
        },
{
    match layer_result(kernels, activations, layer, prior_kv, donor_a_kv, donor_b_kv, ple) {
        Err(_) => {},
        Ok(out) => {
            let p = layer.params;
            let start = activations.start_position;
            let rows = activations.rows;
            let first = projected(
                kernels,
                rows,
                start,
                p,
                layer.w_q@.pages,
                layer.w_k@.pages,
                layer.w_v@.pages,
                rows.len(),
            );
            let lists = KeyListsView {
                prior: prior_kv.kv,
                own: first.keys,
                donor_a: donor_a_kv.kv,
                donor_b: donor_b_kv.kv,
            };
            let w = TailWeights {
                w_o: layer.w_o@.pages,
                w_gate: layer.w_gate@.pages,
                w_up: layer.w_up@.pages,
                w_down: layer.w_down@.pages,
                ple_input_gate: layer.ple_input_gate@.pages,
                ple_layer_projection: layer.ple_layer_projection@.pages,
            };
            positions_and_indexes_advance_together(
                kernels,
                rows,
                start,
                p,
                layer.w_q@.pages,
                layer.w_k@.pages,
                layer.w_v@.pages,
                rows.len(),
            );
            let empty = ActivationsView {
                start_position: start,
                ..crate::activations::no_activations()
            };
            lemma_carried(empty, prior_kv.kv, start, p.sliding_window, prior_kv.kv.len());
            assert(prior_kv.kv.take(prior_kv.kv.len() as int) =~= prior_kv.kv);
            let opened = carried_all(
                empty,
                prior_kv.kv,
                start,
                p.sliding_window,
                prior_kv.kv.len(),
            );
            let kept = prior_kv.kv.filter(
                |key: KeyView|
                    p.sliding_window == 0 || start - key.position < p.sliding_window,
            );
            assert(empty.kv + kept =~= kept);
            lemma_attended(kernels, opened, first.queries, lists, p, w, ple, first.queries.len());
            lemma_appended(
                opened,
                first.queries,
                outcomes_of(kernels, first.queries, lists, p, w, ple),
                lists.own,
                first.queries.len(),
            );
            assert(lists.own.take(first.queries.len() as int) =~= lists.own);
            assert forall|i: int| 0 <= i < out.rows.len() implies (#[trigger] out.rows[i]).token_id
                == rows[i].token_id && (token_lanes(
                kernels,
                first.queries[i],
                lists,
                p,
                w,
                ple[i],
            ) matches Ok(lanes) && lanes_of(out.rows[i].values.bytes) == Ok::<Seq<i32>, Seq<char>>(
                lanes,
            )) by {
                rows_are_projected_on_their_own(
                    kernels,
                    rows,
                    start,
                    p,
                    layer.w_q@.pages,
                    layer.w_k@.pages,
                    layer.w_v@.pages,
                    rows.len(),
                    i,
                );
                let lanes = token_lanes(kernels, first.queries[i], lists, p, w, ple[i])->Ok_0;
                unpack_undoes_pack(lanes);
            }
        },
    }
}

/// A layer whose shapes are accepted has every matrix at the byte length that its
/// shape calls for, four bytes a weight.
pub proof fn matrices_fit_their_shapes(layer: TransformerLayer)
    requires
        layer.params.num_heads * layer.params.head_dim <= u32::MAX,
        layer.params.num_kv_heads * layer.params.head_dim <= u32::MAX,
    ensures
        matrices_check(layer) is Ok <==> {
            let p = layer.params;
            let q = p.num_heads * p.head_dim;
            let kv = p.num_kv_heads * p.head_dim;
            let h = p.hidden_size as int;
            let f = p.ffn_size as int;
            &&& layer.w_q.byte_len == q * h * 4
            &&& layer.w_k.byte_len == kv * h * 4
            &&& layer.w_v.byte_len == kv * h * 4
            &&& layer.w_o.byte_len == h * q * 4
            &&& layer.w_gate.byte_len == f * h * 4
            &&& layer.w_up.byte_len == f * h * 4
            &&& layer.w_down.byte_len == h * f * 4
        },
{
}

/// A layer's parameters are accepted exactly if its widths are positive, its query
/// heads group evenly, its rotation is possible, its epsilon is not negative and each
/// norm vector has the width of what it normalises.
pub proof fn accepted_parameters(p: LayerParams)
    ensures
        params_error(p) is None <==> {
            &&& p.hidden_size > 0
            &&& p.ffn_size > 0
            &&& p.num_heads > 0
            &&& p.num_kv_heads > 0
            &&& p.head_dim > 0
            &&& p.num_heads as int % p.num_kv_heads as int == 0
            &&& p.rotary_dim as int % 2 == 0
            &&& p.rotary_dim <= p.head_dim
            &&& p.rotary_dim > 0 ==> p.rope_freq_base_dim >= 2 && p.rope_freq_base_dim as int % 2
                == 0 && p.rope_base > 0
            &&& p.norm_eps >= 0
            &&& p.norm_input@.bytes.len() == 4 * p.hidden_size
            &&& p.norm_post_attn@.bytes.len() == 4 * p.hidden_size
            &&& p.norm_pre_ffw@.bytes.len() == 4 * p.hidden_size
            &&& p.norm_post_ffw@.bytes.len() == 4 * p.hidden_size
            &&& p.q_norm@.bytes.len() == 4 * p.head_dim
            &&& p.k_norm@.bytes.len() == 4 * p.head_dim
            &&& p.ple_post_norm@.bytes.len() == 4 * p.hidden_size
        },
{
}

} // verus!
