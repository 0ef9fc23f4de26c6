//! What holds of the attention sweeps as a whole.

use crate::activations::KeyView;
use crate::kernels::KernelCall;
use crate::pages::{lanes_of, unpack_undoes_pack, PageView};
use crate::prefill_range::attend::{
    accumulated, operands, score_key_spec, scored, scores_fit, sees, slot_of,
    softmax_scores_spec, with_key_scores, zero_scores_spec,
};
use crate::packed::PackedView;
use crate::prefill_range::input::{LayerParams, QueryView, ScoresView, WeightsView};
use crate::matvec::{after_pages, Rounding};
use crate::prefill_range::stage::{all_scored, attention_context, KeyListsView, OWN_CACHE};
use vstd::prelude::*;

verus! {

/// An accumulator that carries an error is left as it is by every later page.
pub proof fn a_failed_product_stays_failed(
    rounding: Rounding,
    state: PackedView,
    pages: Seq<PageView>,
    row: PageView,
    in_width: u32,
    n: nat,
)
    requires
        state.error.len() > 0,
    ensures
        after_pages(rounding, state, pages, row, in_width, n) == state,
    decreases n,
{
    if n > 0 {
        a_failed_product_stays_failed(rounding, state, pages, row, in_width, (n - 1) as nat);
    }
}

/// A window that carries an error is left as it is by every later key.
pub proof fn a_failed_window_stays_failed(
    state: ScoresView,
    keys: Seq<KeyView>,
    query: QueryView,
    params: LayerParams,
    source_layer: i32,
    n: nat,
)
    requires
        state.error.len() > 0,
    ensures
        scored(state, keys, query, params, source_layer, n) == state,
    decreases n,
{
    if n > 0 {
        a_failed_window_stays_failed(state, keys, query, params, source_layer, (n - 1) as nat);
    }
}

/// The order in which two keys are scored does not matter: keys of different
/// positions land in different slots.
pub proof fn scoring_order_does_not_matter(
    state: ScoresView,
    a: KeyView,
    b: KeyView,
    query: QueryView,
    params: LayerParams,
    source_layer: i32,
)
    requires
        scores_fit(state, query.position, params),
        params.num_heads > 0,
        a.position != b.position,
        operands(query.q, a.k, a.v, params) is Ok,
        operands(query.q, b.k, b.v, params) is Ok,
    ensures
        score_key_spec(
            score_key_spec(state, a, query, params, source_layer),
            b,
            query,
            params,
            source_layer,
        ) == score_key_spec(
            score_key_spec(state, b, query, params, source_layer),
            a,
            query,
            params,
            source_layer,
        ),
{
    let sees_a = sees(query.position, a.position, params.sliding_window);
    let sees_b = sees(query.position, b.position, params.sliding_window);
    if state.error.len() == 0 && params.kv_donor_layer == source_layer && sees_a && sees_b {
        let w = state.window_len as int;
        let heads = params.num_heads as int;
        let sa = slot_of(query.position, w, a.position);
        let sb = slot_of(query.position, w, b.position);
        let (q, ka, va) = operands(query.q, a.k, a.v, params)->Ok_0;
        let (qb, kb, vb) = operands(query.q, b.k, b.v, params)->Ok_0;
        let lanes = lanes_of(state.scores.bytes)->Ok_0;
        let with_a = with_key_scores(lanes, q, ka, params, sa);
        let with_b = with_key_scores(lanes, q, kb, params, sb);
        unpack_undoes_pack(with_a);
        unpack_undoes_pack(with_b);
        assert(sa * heads + heads <= sb * heads || sb * heads + heads <= sa * heads)
            by (nonlinear_arith)
            requires
                sa != sb,
                heads > 0,
        ;
        assert(with_key_scores(with_a, q, kb, params, sb) =~= with_key_scores(
            with_b,
            q,
            ka,
            params,
            sa,
        ));
    }
}

/// How many of the first `n` keys of a list a query sees.
pub open spec fn seen_count(
    keys: Seq<KeyView>,
    position: u32,
    sliding_window: u32,
    n: nat,
) -> nat
    decreases n,
{
    if n == 0 {
        0
    } else {
        seen_count(keys, position, sliding_window, (n - 1) as nat) + (if sees(
            position,
            keys[n - 1].position,
            sliding_window,
        ) {
            1nat
        } else {
            0nat
        })
    }
}

/// A list of a source that the layer does not read leaves the window alone.
pub proof fn other_sources_do_not_score(
    state: ScoresView,
    keys: Seq<KeyView>,
    query: QueryView,
    params: LayerParams,
    source_layer: i32,
    n: nat,
)
    requires
        params.kv_donor_layer != source_layer,
    ensures
        scored(state, keys, query, params, source_layer, n) == state,
    decreases n,
{
    if n > 0 {
        other_sources_do_not_score(state, keys, query, params, source_layer, (n - 1) as nat);
    }
}

/// Sweeping the list that the layer reads fills one slot per key that the query
/// sees, unless a key is refused.
pub proof fn filled_counts_the_seen_keys(
    state: ScoresView,
    keys: Seq<KeyView>,
    query: QueryView,
    params: LayerParams,
    n: nat,
)
    requires
        state.error.len() == 0,
        state.filled + n <= u32::MAX,
        scored(state, keys, query, params, params.kv_donor_layer, n).error.len() == 0,
    ensures
        scored(state, keys, query, params, params.kv_donor_layer, n).filled == state.filled
            + seen_count(keys, query.position, params.sliding_window, n),
        seen_count(keys, query.position, params.sliding_window, n) <= n,
    decreases n,
{
    if n > 0 {
        let before = scored(state, keys, query, params, params.kv_donor_layer, (n - 1) as nat);
        if before.error.len() > 0 {
            assert(false);
        }
        filled_counts_the_seen_keys(state, keys, query, params, (n - 1) as nat);
    }
}

/// A window with a slot that no key filled is a committed failure, never a
/// distribution over the keys that happen to be there.
pub proof fn an_incomplete_window_fails<K: Fn(KernelCall) -> Vec<i32>>(
    kernels: K,
    state: ScoresView,
    params: LayerParams,
)
    requires
        state.filled != state.window_len,
    ensures
        softmax_scores_spec(kernels, state, params).error.len() > 0,
{
    reveal_strlit("attention window has ");
}

proof fn lemma_failed_weights_fail_the_sum(
    state: PackedView,
    keys: Seq<KeyView>,
    query: QueryView,
    weights: WeightsView,
    params: LayerParams,
    source_layer: i32,
    n: nat,
)
    requires
        weights.error.len() > 0,
        n > 0 || state.error.len() > 0,
    ensures
        accumulated(state, keys, query, weights, params, source_layer, n).error.len() > 0,
    decreases n,
{
    if n > 0 {
        if n > 1 || state.error.len() > 0 {
            lemma_failed_weights_fail_the_sum(
                state,
                keys,
                query,
                weights,
                params,
                source_layer,
                (n - 1) as nat,
            );
        } else {
            assert(accumulated(state, keys, query, weights, params, source_layer, 0) == state);
        }
    }
}

proof fn lemma_failed_sum_stays_failed(
    state: PackedView,
    keys: Seq<KeyView>,
    query: QueryView,
    weights: WeightsView,
    params: LayerParams,
    source_layer: i32,
    n: nat,
)
    requires
        state.error.len() > 0,
    ensures
        accumulated(state, keys, query, weights, params, source_layer, n) == state,
    decreases n,
{
    if n > 0 {
        lemma_failed_sum_stays_failed(
            state,
            keys,
            query,
            weights,
            params,
            source_layer,
            (n - 1) as nat,
        );
    }
}

/// A layer that names a donor which neither donor edge provides fails closed:
/// it attends over nothing, and its context is a failure.
pub proof fn a_wrong_donor_fails_closed<K: Fn(KernelCall) -> Vec<i32>>(
    kernels: K,
    lists: KeyListsView,
    query: QueryView,
    params: LayerParams,
)
    requires
        params.kv_donor_layer != OWN_CACHE,
        params.kv_donor_layer != params.donor_a_layer,
        params.kv_donor_layer != params.donor_b_layer,
        lists.own.len() > 0,
        query.position < u32::MAX,
    ensures
        attention_context(kernels, lists, query, params).error.len() > 0,
{
    let s0 = zero_scores_spec(query.position, params);
    other_sources_do_not_score(s0, lists.prior, query, params, OWN_CACHE, lists.prior.len());
    other_sources_do_not_score(s0, lists.own, query, params, OWN_CACHE, lists.own.len());
    other_sources_do_not_score(
        s0,
        lists.donor_a,
        query,
        params,
        params.donor_a_layer,
        lists.donor_a.len(),
    );
    other_sources_do_not_score(
        s0,
        lists.donor_b,
        query,
        params,
        params.donor_b_layer,
        lists.donor_b.len(),
    );
    assert(all_scored(lists, query, params) == s0);
    an_incomplete_window_fails(kernels, s0, params);
    let weights = softmax_scores_spec(kernels, s0, params);
    let c0 = PackedView {
        values: crate::pages::standalone(
            crate::pages::packed_wide(
                crate::prefill_range::attend::wide_zeros(
                    (params.num_heads * params.head_dim) as nat,
                ),
            ),
        ),
        error: Seq::empty(),
    };
    let c1 = accumulated(c0, lists.prior, query, weights, params, OWN_CACHE, lists.prior.len());
    lemma_failed_weights_fail_the_sum(
        c1,
        lists.own,
        query,
        weights,
        params,
        OWN_CACHE,
        lists.own.len(),
    );
    let c2 = accumulated(c1, lists.own, query, weights, params, OWN_CACHE, lists.own.len());
    lemma_failed_sum_stays_failed(
        c2,
        lists.donor_a,
        query,
        weights,
        params,
        params.donor_a_layer,
        lists.donor_a.len(),
    );
    lemma_failed_sum_stays_failed(
        c2,
        lists.donor_b,
        query,
        weights,
        params,
        params.donor_b_layer,
        lists.donor_b.len(),
    );
}

/// A list of a source that the layer does not read leaves the weighted sum alone.
pub proof fn other_sources_do_not_sum(
    state: PackedView,
    keys: Seq<KeyView>,
    query: QueryView,
    weights: WeightsView,
    params: LayerParams,
    source_layer: i32,
    n: nat,
)
    requires
        params.kv_donor_layer != source_layer,
        weights.error.len() == 0,
    ensures
        accumulated(state, keys, query, weights, params, source_layer, n) == state,
    decreases n,
{
    if n > 0 {
        other_sources_do_not_sum(
            state,
            keys,
            query,
            weights,
            params,
            source_layer,
            (n - 1) as nat,
        );
    }
}

/// A layer that owns its cache attends over its prior and own keys alone: what
/// the donor edges carry does not matter.
pub proof fn an_owning_layer_ignores_donors<K: Fn(KernelCall) -> Vec<i32>>(
    kernels: K,
    a: KeyListsView,
    b: KeyListsView,
    query: QueryView,
    params: LayerParams,
)
    requires
        params.kv_donor_layer == OWN_CACHE,
        params.donor_a_layer != OWN_CACHE,
        params.donor_b_layer != OWN_CACHE,
        a.prior == b.prior,
        a.own == b.own,
        a.own.len() > 0,
    ensures
        attention_context(kernels, a, query, params) == attention_context(kernels, b, query, params),
{
    let s0 = zero_scores_spec(query.position, params);
    let s1 = scored(s0, a.prior, query, params, OWN_CACHE, a.prior.len());
    let s2 = scored(s1, a.own, query, params, OWN_CACHE, a.own.len());
    other_sources_do_not_score(s2, a.donor_a, query, params, params.donor_a_layer, a.donor_a.len());
    other_sources_do_not_score(s2, b.donor_a, query, params, params.donor_a_layer, b.donor_a.len());
    other_sources_do_not_score(s2, a.donor_b, query, params, params.donor_b_layer, a.donor_b.len());
    other_sources_do_not_score(s2, b.donor_b, query, params, params.donor_b_layer, b.donor_b.len());
    let weights = softmax_scores_spec(kernels, s2, params);
    let c0 = PackedView {
        values: crate::pages::standalone(
            crate::pages::packed_wide(
                crate::prefill_range::attend::wide_zeros(
                    (params.num_heads * params.head_dim) as nat,
                ),
            ),
        ),
        error: Seq::empty(),
    };
    let c1 = accumulated(c0, a.prior, query, weights, params, OWN_CACHE, a.prior.len());
    let c2 = accumulated(c1, a.own, query, weights, params, OWN_CACHE, a.own.len());
    if weights.error.len() > 0 {
        lemma_failed_weights_fail_the_sum(c1, a.own, query, weights, params, OWN_CACHE, a.own.len());
        lemma_failed_sum_stays_failed(c2, a.donor_a, query, weights, params, params.donor_a_layer, a.donor_a.len());
        lemma_failed_sum_stays_failed(c2, b.donor_a, query, weights, params, params.donor_a_layer, b.donor_a.len());
        lemma_failed_sum_stays_failed(c2, a.donor_b, query, weights, params, params.donor_b_layer, a.donor_b.len());
        lemma_failed_sum_stays_failed(c2, b.donor_b, query, weights, params, params.donor_b_layer, b.donor_b.len());
    } else {
        other_sources_do_not_sum(c2, a.donor_a, query, weights, params, params.donor_a_layer, a.donor_a.len());
        other_sources_do_not_sum(c2, b.donor_a, query, weights, params, params.donor_a_layer, b.donor_a.len());
        other_sources_do_not_sum(c2, a.donor_b, query, weights, params, params.donor_b_layer, a.donor_b.len());
        other_sources_do_not_sum(c2, b.donor_b, query, weights, params, params.donor_b_layer, b.donor_b.len());
    }
}

} // verus!
