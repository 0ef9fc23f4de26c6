//! The order in which the attention sweeps visit keys carries no meaning.

use crate::activations::KeyView;
use crate::det_num::mac_spec;
use crate::packed::PackedView;
use crate::pages::{lanes_of, packed_wide, standalone, unpack_undoes_pack_wide, wide_lanes_of};
use crate::prefill_range::attend::{
    accumulate_context_spec, accumulated, context_fits, kv_head_of, operands, score_key_spec,
    scored, scores_fit, sees, slot_of, window_len_of, with_values,
};
use crate::prefill_range::input::{LayerParams, QueryView, ScoresView, WeightsView};
use crate::prefill_range::laws::{other_sources_do_not_sum, scoring_order_does_not_matter};
use vstd::prelude::*;
use vstd::seq_lib::{commutative_foldl, lemma_fold_left_permutation};

verus! {

proof fn lemma_scored_prefix(
    state: ScoresView,
    a: Seq<KeyView>,
    b: Seq<KeyView>,
    query: QueryView,
    params: LayerParams,
    source_layer: i32,
    n: nat,
)
    requires
        n <= a.len(),
        n <= b.len(),
        forall|i: int| 0 <= i < n ==> a[i] == b[i],
    ensures
        scored(state, a, query, params, source_layer, n) == scored(
            state,
            b,
            query,
            params,
            source_layer,
            n,
        ),
    decreases n,
{
    if n > 0 {
        lemma_scored_prefix(state, a, b, query, params, source_layer, (n - 1) as nat);
    }
}

proof fn lemma_scores_still_fit(
    state: ScoresView,
    keys: Seq<KeyView>,
    query: QueryView,
    params: LayerParams,
    source_layer: i32,
    n: nat,
)
    requires
        scores_fit(state, query.position, params),
    ensures
        scores_fit(
            scored(state, keys, query, params, source_layer, n),
            query.position,
            params,
        ),
    decreases n,
{
    if n > 0 {
        lemma_scores_still_fit(state, keys, query, params, source_layer, (n - 1) as nat);
        let before = scored(state, keys, query, params, source_layer, (n - 1) as nat);
        assert(0 <= before.window_len * params.num_heads) by (nonlinear_arith);
    }
}

/// Keys of distinct positions, all of the widths that attention needs.
pub open spec fn distinct_and_fit(
    keys: Seq<KeyView>,
    query: QueryView,
    params: LayerParams,
) -> bool {
    &&& forall|i: int, j: int|
        0 <= i < j < keys.len() ==> (#[trigger] keys[i]).position != (
        #[trigger] keys[j]).position
    &&& forall|i: int|
        0 <= i < keys.len() ==> operands(query.q, (#[trigger] keys[i]).k, keys[i].v, params) is Ok
}

/// Any key of a list may as well be scored last.
proof fn lemma_score_last(
    state: ScoresView,
    keys: Seq<KeyView>,
    query: QueryView,
    params: LayerParams,
    source_layer: i32,
    j: int,
)
    requires
        scores_fit(state, query.position, params),
        params.num_heads > 0,
        distinct_and_fit(keys, query, params),
        0 <= j < keys.len(),
    ensures
        scored(state, keys, query, params, source_layer, keys.len()) == score_key_spec(
            scored(
                state,
                keys.remove(j),
                query,
                params,
                source_layer,
                (keys.len() - 1) as nat,
            ),
            keys[j],
            query,
            params,
            source_layer,
        ),
    decreases keys.len(),
{
    let len = keys.len();
    let x = keys[j];
    let y = keys.last();
    let rest = keys.drop_last();
    let m = (len - 1) as nat;
    lemma_scored_prefix(state, keys, rest, query, params, source_layer, m);
    if j == m {
        assert(keys.remove(j) =~= rest);
    } else {
        assert forall|a: int, b: int| 0 <= a < b < rest.len() implies (#[trigger] rest[a]).position
            != (#[trigger] rest[b]).position by {
            assert(keys[a].position != keys[b].position);
        }
        assert forall|i: int| 0 <= i < rest.len() implies operands(
            query.q,
            (#[trigger] rest[i]).k,
            rest[i].v,
            params,
        ) is Ok by {
            assert(keys[i] == rest[i]);
        }
        lemma_score_last(state, rest, query, params, source_layer, j);
        let core = rest.remove(j);
        let k = (len - 2) as nat;
        let base = scored(state, core, query, params, source_layer, k);
        lemma_scores_still_fit(state, core, query, params, source_layer, k);
        assert(keys[j].position != keys[m as int].position);
        assert(operands(query.q, keys[m as int].k, keys[m as int].v, params) is Ok);
        scoring_order_does_not_matter(base, x, y, query, params, source_layer);
        let without = keys.remove(j);
        assert(without =~= core.push(y));
        lemma_scored_prefix(state, without, core, query, params, source_layer, k);
        assert(without[k as int] == y);
    }
}

/// The order of a list of keys does not matter to its scores: any arrangement of keys
/// of distinct positions leaves the same window.
pub proof fn any_order_scores_the_same(
    state: ScoresView,
    keys: Seq<KeyView>,
    other: Seq<KeyView>,
    query: QueryView,
    params: LayerParams,
    source_layer: i32,
)
    requires
        scores_fit(state, query.position, params),
        params.num_heads > 0,
        distinct_and_fit(keys, query, params),
        keys.to_multiset() == other.to_multiset(),
    ensures
        scored(state, keys, query, params, source_layer, keys.len()) == scored(
            state,
            other,
            query,
            params,
            source_layer,
            other.len(),
        ),
    decreases keys.len(),
{
    keys.to_multiset_ensures();
    other.to_multiset_ensures();
    assert(keys.len() == other.len());
    if other.len() > 0 {
        let m = (other.len() - 1) as nat;
        let x = other.last();
        assert(other.contains(x)) by {
            assert(other[m as int] == x);
        }
        assert(other.to_multiset().count(x) > 0);
        assert(keys.contains(x));
        let j = keys.index_of(x);
        assert(0 <= j < keys.len() && keys[j] == x);
        lemma_score_last(state, keys, query, params, source_layer, j);
        let rest = keys.remove(j);
        let head = other.drop_last();
        assert(other.remove(m as int) =~= head);
        assert(rest.to_multiset() =~= keys.to_multiset().remove(x));
        assert(other.remove(m as int).to_multiset() =~= other.to_multiset().remove(x));
        assert forall|a: int, b: int| 0 <= a < b < rest.len() implies (#[trigger] rest[a]).position
            != (#[trigger] rest[b]).position by {
            let p = if a < j {
                a
            } else {
                a + 1
            };
            let q = if b < j {
                b
            } else {
                b + 1
            };
            assert(rest[a] == keys[p] && rest[b] == keys[q]);
        }
        assert forall|i: int| 0 <= i < rest.len() implies operands(
            query.q,
            (#[trigger] rest[i]).k,
            rest[i].v,
            params,
        ) is Ok by {
            let p = if i < j {
                i
            } else {
                i + 1
            };
            assert(rest[i] == keys[p]);
        }
        any_order_scores_the_same(state, rest, head, query, params, source_layer);
        lemma_scored_prefix(state, other, head, query, params, source_layer, m);
    }
}

/// Scoring two lists of one source is scoring their concatenation.
pub proof fn scoring_in_lists_is_scoring_whole(
    state: ScoresView,
    a: Seq<KeyView>,
    b: Seq<KeyView>,
    query: QueryView,
    params: LayerParams,
    source_layer: i32,
    n: nat,
)
    requires
        n <= b.len(),
    ensures
        scored(
            scored(state, a, query, params, source_layer, a.len()),
            b,
            query,
            params,
            source_layer,
            n,
        ) == scored(state, a + b, query, params, source_layer, a.len() + n),
    decreases n,
{
    if n > 0 {
        scoring_in_lists_is_scoring_whole(
            state,
            a,
            b,
            query,
            params,
            source_layer,
            (n - 1) as nat,
        );
        assert((a + b)[a.len() + n - 1] == b[n - 1]);
    } else {
        lemma_scored_prefix(state, a, a + b, query, params, source_layer, a.len());
    }
}

/// What one key adds to one lane of the weighted sum: its value by the weight of its
/// slot, and nothing if the query does not see it.
pub open spec fn addend(
    key: KeyView,
    query: QueryView,
    weights: WeightsView,
    params: LayerParams,
    i: int,
) -> int {
    if sees(query.position, key.position, params.sliding_window) {
        let d = params.head_dim as int;
        let slot = slot_of(
            query.position,
            window_len_of(query.position, params.sliding_window),
            key.position,
        );
        let v = (operands(query.q, key.k, key.v, params)->Ok_0).2;
        (lanes_of(weights.weights.bytes)->Ok_0)[slot * params.num_heads + i / d]
            * v[kv_head_of(params, i / d) * d + i % d]
    } else {
        0
    }
}

/// What the first `n` keys of a list add to one lane.
pub open spec fn addends(
    keys: Seq<KeyView>,
    query: QueryView,
    weights: WeightsView,
    params: LayerParams,
    i: int,
    n: nat,
) -> int
    decreases n,
{
    if n == 0 {
        0
    } else {
        addends(keys, query, weights, params, i, (n - 1) as nat) + addend(
            keys[n - 1],
            query,
            weights,
            params,
            i,
        )
    }
}

/// Whether a number fits an accumulator.
pub open spec fn fits_wide(x: int) -> bool {
    i64::MIN <= x <= i64::MAX
}

/// The order in which two keys are added to the weighted sum does not matter, if each
/// lane takes either of them first without leaving the accumulator's range.
pub proof fn adding_order_does_not_matter(
    state: PackedView,
    a: KeyView,
    b: KeyView,
    query: QueryView,
    weights: WeightsView,
    params: LayerParams,
    source_layer: i32,
)
    requires
        context_fits(state, params),
        operands(query.q, a.k, a.v, params) is Ok,
        operands(query.q, b.k, b.v, params) is Ok,
        forall|i: int|
            #![trigger (wide_lanes_of(state.values.bytes)->Ok_0)[i]]
            0 <= i < params.num_heads * params.head_dim ==> fits_wide(
                (wide_lanes_of(state.values.bytes)->Ok_0)[i] + addend(a, query, weights, params, i),
            ) && fits_wide(
                (wide_lanes_of(state.values.bytes)->Ok_0)[i] + addend(b, query, weights, params, i),
            ),
    ensures
        accumulate_context_spec(
            accumulate_context_spec(state, a, query, weights, params, source_layer),
            b,
            query,
            weights,
            params,
            source_layer,
        ) == accumulate_context_spec(
            accumulate_context_spec(state, b, query, weights, params, source_layer),
            a,
            query,
            weights,
            params,
            source_layer,
        ),
{
    let sees_a = sees(query.position, a.position, params.sliding_window);
    let sees_b = sees(query.position, b.position, params.sliding_window);
    if state.error.len() == 0 && weights.error.len() == 0 && params.kv_donor_layer == source_layer
        && sees_a && sees_b {
        let w = window_len_of(query.position, params.sliding_window);
        let sa = slot_of(query.position, w, a.position);
        let sb = slot_of(query.position, w, b.position);
        let va = (operands(query.q, a.k, a.v, params)->Ok_0).2;
        let vb = (operands(query.q, b.k, b.v, params)->Ok_0).2;
        let acc = wide_lanes_of(state.values.bytes)->Ok_0;
        let lanes = lanes_of(weights.weights.bytes)->Ok_0;
        let with_a = with_values(acc, lanes, va, params, sa);
        let with_b = with_values(acc, lanes, vb, params, sb);
        unpack_undoes_pack_wide(with_a);
        unpack_undoes_pack_wide(with_b);
        let ab = with_values(with_a, lanes, vb, params, sb);
        let ba = with_values(with_b, lanes, va, params, sa);
        assert(0 <= params.num_heads * params.head_dim) by (nonlinear_arith);
        assert(acc.len() == params.num_heads * params.head_dim);
        assert forall|i: int| 0 <= i < acc.len() implies #[trigger] ab[i] == ba[i] by {
            assert(fits_wide(acc[i] + addend(a, query, weights, params, i)));
            assert(with_a[i] == acc[i] + addend(a, query, weights, params, i));
            assert(with_b[i] == acc[i] + addend(b, query, weights, params, i));
        }
        assert(ab =~= ba);
    }
}

/// The state of a weighted sum that has not failed.
pub open spec fn sum_of(acc: Seq<i64>) -> PackedView {
    PackedView { values: standalone(packed_wide(acc)), error: Seq::empty() }
}

/// Whether no lane leaves the accumulator's range while a list is added in its order.
pub open spec fn adds_in_range(
    acc: Seq<i64>,
    keys: Seq<KeyView>,
    query: QueryView,
    weights: WeightsView,
    params: LayerParams,
) -> bool {
    forall|i: int, n: nat|
        0 <= i < acc.len() && n <= keys.len() ==> fits_wide(
            acc[i] + #[trigger] addends(keys, query, weights, params, i, n),
        )
}

/// A list that is added without leaving the range adds exactly: every lane ends with
/// its start plus what each key adds.
pub proof fn a_sum_in_range_is_exact(
    acc: Seq<i64>,
    keys: Seq<KeyView>,
    query: QueryView,
    weights: WeightsView,
    params: LayerParams,
    n: nat,
)
    requires
        n <= keys.len(),
        weights.error.len() == 0,
        forall|i: int|
            0 <= i < keys.len() ==> operands(query.q, (#[trigger] keys[i]).k, keys[i].v, params)
                is Ok,
        adds_in_range(acc, keys, query, weights, params),
    ensures
        accumulated(sum_of(acc), keys, query, weights, params, params.kv_donor_layer, n) == sum_of(
            Seq::new(
                acc.len(),
                |i: int| (acc[i] + addends(keys, query, weights, params, i, n)) as i64,
            ),
        ),
    decreases n,
{
    let after = Seq::new(
        acc.len(),
        |i: int| (acc[i] + addends(keys, query, weights, params, i, n)) as i64,
    );
    if n == 0 {
        assert(after =~= acc);
    } else {
        let m = (n - 1) as nat;
        a_sum_in_range_is_exact(acc, keys, query, weights, params, m);
        let before = Seq::new(
            acc.len(),
            |i: int| (acc[i] + addends(keys, query, weights, params, i, m)) as i64,
        );
        let key = keys[m as int];
        assert(operands(query.q, key.k, key.v, params) is Ok);
        assert forall|i: int| 0 <= i < acc.len() implies before[i] == acc[i] + addends(
            keys,
            query,
            weights,
            params,
            i,
            m,
        ) && #[trigger] after[i] == before[i] + addend(key, query, weights, params, i) by {
            assert(fits_wide(acc[i] + addends(keys, query, weights, params, i, m)));
            assert(fits_wide(acc[i] + addends(keys, query, weights, params, i, n)));
        }
        unpack_undoes_pack_wide(before);
        if sees(query.position, key.position, params.sliding_window) {
            let slot = slot_of(
                query.position,
                window_len_of(query.position, params.sliding_window),
                key.position,
            );
            let v = (operands(query.q, key.k, key.v, params)->Ok_0).2;
            let lanes = lanes_of(weights.weights.bytes)->Ok_0;
            let next = with_values(before, lanes, v, params, slot);
            assert forall|i: int| 0 <= i < acc.len() implies #[trigger] next[i] == after[i] by {
                assert(after[i] == before[i] + addend(key, query, weights, params, i));
                assert(fits_wide(after[i] as int));
                let d = params.head_dim as int;
                assert(next[i] == mac_spec(
                    before[i],
                    lanes[slot * params.num_heads + i / d],
                    v[kv_head_of(params, i / d) * d + i % d],
                ));
            }
            assert(next =~= after);
        } else {
            assert(before =~= after);
        }
    }
}

proof fn lemma_addends_fold(
    keys: Seq<KeyView>,
    query: QueryView,
    weights: WeightsView,
    params: LayerParams,
    i: int,
    n: nat,
)
    requires
        n <= keys.len(),
    ensures
        addends(keys, query, weights, params, i, n) == keys.take(n as int).fold_left(
            0,
            |s: int, key: KeyView| s + addend(key, query, weights, params, i),
        ),
    decreases n,
{
    let head = keys.take(n as int);
    if n > 0 {
        lemma_addends_fold(keys, query, weights, params, i, (n - 1) as nat);
        assert(head.drop_last() =~= keys.take(n - 1));
        assert(head.last() == keys[n - 1]);
    }
    reveal_with_fuel(Seq::fold_left, 2);
}

/// What a list adds to a lane does not depend on its order.
pub proof fn addends_have_no_order(
    keys: Seq<KeyView>,
    other: Seq<KeyView>,
    query: QueryView,
    weights: WeightsView,
    params: LayerParams,
    i: int,
)
    requires
        keys.to_multiset() == other.to_multiset(),
    ensures
        addends(keys, query, weights, params, i, keys.len()) == addends(
            other,
            query,
            weights,
            params,
            i,
            other.len(),
        ),
{
    let f = |s: int, key: KeyView| s + addend(key, query, weights, params, i);
    lemma_addends_fold(keys, query, weights, params, i, keys.len());
    lemma_addends_fold(other, query, weights, params, i, other.len());
    assert(keys.take(keys.len() as int) =~= keys);
    assert(other.take(other.len() as int) =~= other);
    assert(commutative_foldl(f));
    lemma_fold_left_permutation(keys, other, f, 0);
}

proof fn lemma_failed_weights(
    state: PackedView,
    keys: Seq<KeyView>,
    query: QueryView,
    weights: WeightsView,
    params: LayerParams,
    source_layer: i32,
    n: nat,
)
    requires
        state.error.len() == 0,
        weights.error.len() > 0,
    ensures
        accumulated(state, keys, query, weights, params, source_layer, n) == (if n == 0 {
            state
        } else {
            PackedView { error: weights.error, ..state }
        }),
    decreases n,
{
    if n > 0 {
        lemma_failed_weights(state, keys, query, weights, params, source_layer, (n - 1) as nat);
    }
}

/// The order of a list of keys does not matter to the weighted sum: any two
/// arrangements give the same accumulators, if neither leaves their range on the way.
pub proof fn any_order_adds_the_same(
    acc: Seq<i64>,
    keys: Seq<KeyView>,
    other: Seq<KeyView>,
    query: QueryView,
    weights: WeightsView,
    params: LayerParams,
    source_layer: i32,
)
    requires
        keys.to_multiset() == other.to_multiset(),
        forall|i: int|
            0 <= i < keys.len() ==> operands(query.q, (#[trigger] keys[i]).k, keys[i].v, params)
                is Ok,
        adds_in_range(acc, keys, query, weights, params),
        adds_in_range(acc, other, query, weights, params),
    ensures
        accumulated(sum_of(acc), keys, query, weights, params, source_layer, keys.len())
            == accumulated(
            sum_of(acc),
            other,
            query,
            weights,
            params,
            source_layer,
            other.len(),
        ),
{
    let state = sum_of(acc);
    keys.to_multiset_ensures();
    other.to_multiset_ensures();
    if weights.error.len() > 0 {
        lemma_failed_weights(state, keys, query, weights, params, source_layer, keys.len());
        lemma_failed_weights(state, other, query, weights, params, source_layer, other.len());
    } else if params.kv_donor_layer != source_layer {
        other_sources_do_not_sum(state, keys, query, weights, params, source_layer, keys.len());
        other_sources_do_not_sum(state, other, query, weights, params, source_layer, other.len());
    } else {
        assert forall|i: int| 0 <= i < other.len() implies operands(
            query.q,
            (#[trigger] other[i]).k,
            other[i].v,
            params,
        ) is Ok by {
            assert(other.contains(other[i]));
            assert(other.to_multiset().count(other[i]) > 0);
            assert(keys.contains(other[i]));
            let j = keys.index_of(other[i]);
            assert(keys[j] == other[i]);
        }
        a_sum_in_range_is_exact(acc, keys, query, weights, params, keys.len());
        a_sum_in_range_is_exact(acc, other, query, weights, params, other.len());
        assert forall|i: int| 0 <= i < acc.len() implies addends(
            keys,
            query,
            weights,
            params,
            i,
            keys.len(),
        ) == addends(other, query, weights, params, i, other.len()) by {
            addends_have_no_order(keys, other, query, weights, params, i);
        }
        assert(Seq::new(
            acc.len(),
            |i: int| (acc[i] + addends(keys, query, weights, params, i, keys.len())) as i64,
        ) =~= Seq::new(
            acc.len(),
            |i: int| (acc[i] + addends(other, query, weights, params, i, other.len())) as i64,
        ));
    }
}

/// Adding two lists of one source is adding their concatenation.
pub proof fn adding_in_lists_is_adding_whole(
    state: PackedView,
    a: Seq<KeyView>,
    b: Seq<KeyView>,
    query: QueryView,
    weights: WeightsView,
    params: LayerParams,
    source_layer: i32,
    n: nat,
)
    requires
        n <= b.len(),
    ensures
        accumulated(
            accumulated(state, a, query, weights, params, source_layer, a.len()),
            b,
            query,
            weights,
            params,
            source_layer,
            n,
        ) == accumulated(state, a + b, query, weights, params, source_layer, a.len() + n),
    decreases n,
{
    if n > 0 {
        adding_in_lists_is_adding_whole(
            state,
            a,
            b,
            query,
            weights,
            params,
            source_layer,
            (n - 1) as nat,
        );
        assert((a + b)[a.len() + n - 1] == b[n - 1]);
    } else {
        lemma_added_prefix(state, a, a + b, query, weights, params, source_layer, a.len());
    }
}

proof fn lemma_added_prefix(
    state: PackedView,
    a: Seq<KeyView>,
    b: Seq<KeyView>,
    query: QueryView,
    weights: WeightsView,
    params: LayerParams,
    source_layer: i32,
    n: nat,
)
    requires
        n <= a.len(),
        n <= b.len(),
        forall|i: int| 0 <= i < n ==> a[i] == b[i],
    ensures
        accumulated(state, a, query, weights, params, source_layer, n) == accumulated(
            state,
            b,
            query,
            weights,
            params,
            source_layer,
            n,
        ),
    decreases n,
{
    if n > 0 {
        lemma_added_prefix(state, a, b, query, weights, params, source_layer, (n - 1) as nat);
    }
}

} // verus!
