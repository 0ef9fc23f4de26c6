//! What attention computes, in terms of the query's and the keys' lanes: scaled inner
//! products, one softmax per head over the positions that the query sees, and the
//! weighted sum of the values.

use crate::activations::KeyView;
use crate::det_num::{dot_spec, mul_spec, requantize_spec};
use crate::kernels::{answer, KernelCall, KernelRequest};
use crate::packed::good;
use crate::pages::{lanes_of, packed, unpack_undoes_pack, unpack_undoes_pack_wide};
use crate::prefill_range::attend::{
    accumulated, finish_context_spec, head_column, heads_in_range, kv_head_of, operands, score_of,
    scored, sees, shape_ok, slot_of, softmax_scores_spec, weights_of, wide_zeros, with_key_scores,
    zero_scores_spec,
};
use crate::prefill_range::input::{LayerParams, QueryView};
use crate::prefill_range::laws::{other_sources_do_not_score, other_sources_do_not_sum};
use crate::prefill_range::layer_laws::answers_in_width;
use crate::prefill_range::stage::{attention_context, KeyListsView, OWN_CACHE};
use crate::prefill_range::sweep_laws::{
    a_sum_in_range_is_exact, addend, addends, adding_in_lists_is_adding_whole, adds_in_range,
    scoring_in_lists_is_scoring_whole, sum_of,
};
use vstd::prelude::*;

verus! {

/// The first position that a query at position `t` sees: zero without a window, and
/// otherwise the one that makes the window's last `window` positions end at `t`.
pub open spec fn first_seen(t: int, window: int) -> int {
    if window == 0 || t + 1 <= window {
        0
    } else {
        t + 1 - window
    }
}

/// A query sees a key exactly if the key stands at or before it, and on a sliding layer
/// among the last `window` positions up to its own.
pub proof fn a_query_sees_its_window(t: u32, key_position: u32, window: u32)
    ensures
        sees(t, key_position, window) <==> first_seen(t as int, window as int) <= key_position
            <= t,
        window > 0 ==> t - first_seen(t as int, window as int) < window,
{
}

/// Query heads share key/value heads in consecutive groups of one size: head `h` of
/// `heads` reads key/value head `g` exactly if `h` lies in the `g`-th run of
/// `heads / kv_heads` heads.
pub proof fn heads_share_in_groups(p: LayerParams, h: int, g: int)
    requires
        shape_ok(p),
        0 <= h < p.num_heads,
    ensures
        ({
            let group = p.num_heads as int / p.num_kv_heads as int;
            &&& group * p.num_kv_heads == p.num_heads
            &&& kv_head_of(p, h) == g <==> g * group <= h < g * group + group
        }),
{
    heads_in_range(p, h);
    let heads = p.num_heads as int;
    let kv = p.num_kv_heads as int;
    let group = heads / kv;
    vstd::arithmetic::div_mod::lemma_fundamental_div_mod(heads, kv);
    assert(group * kv == kv * group) by (nonlinear_arith);
    vstd::arithmetic::div_mod::lemma_fundamental_div_mod(h, group);
    vstd::arithmetic::div_mod::lemma_mod_bound(h, group);
    let q = h / group;
    assert(group * q == q * group) by (nonlinear_arith);
    if g < q {
        assert(g * group + group <= q * group) by (nonlinear_arith)
            requires
                g + 1 <= q,
                group > 0,
        ;
    } else if g > q {
        assert(q * group + group <= g * group) by (nonlinear_arith)
            requires
                q + 1 <= g,
                group > 0,
        ;
    }
}

/// Lanes `lane * d` up to `(lane + 1) * d` of a row.
pub open spec fn part(row: Seq<i32>, d: int, lane: int) -> Seq<i32> {
    row.subrange(lane * d, (lane + 1) * d)
}

/// A key's score for one query head: the inner product of the two heads, scaled.
pub open spec fn head_dot(q: Seq<i32>, key: KeyView, p: LayerParams, h: int) -> i32 {
    let d = p.head_dim as int;
    let g = h / (p.num_heads as int / p.num_kv_heads as int);
    mul_spec(dot_spec(part(q, d, h), part(lanes_of(key.k.bytes)->Ok_0, d, g)), p.attn_scale)
}

/// One head's softmax weights over the window that ends at position `t`, where
/// `keys[i]` stands at position `base + i`.
pub open spec fn head_weights<K: Fn(KernelCall) -> Vec<i32>>(
    kernels: K,
    q: Seq<i32>,
    keys: Seq<KeyView>,
    base: int,
    t: int,
    p: LayerParams,
    h: int,
) -> Seq<i32> {
    let first = first_seen(t, p.sliding_window as int);
    answer(
        kernels,
        KernelRequest::Softmax {
            lanes: Seq::new(
                (t + 1 - first) as nat,
                |s: int| head_dot(q, keys[first - base + s], p, h),
            ),
        },
    )
}

/// What key `k` adds to lane `i` of the context: its value by its weight, if it is
/// seen.
pub open spec fn share<K: Fn(KernelCall) -> Vec<i32>>(
    kernels: K,
    q: Seq<i32>,
    keys: Seq<KeyView>,
    base: int,
    t: int,
    p: LayerParams,
    i: int,
    k: int,
) -> int {
    let d = p.head_dim as int;
    let h = i / d;
    let g = h / (p.num_heads as int / p.num_kv_heads as int);
    let first = first_seen(t, p.sliding_window as int);
    if first <= base + k <= t {
        head_weights(kernels, q, keys, base, t, p, h)[base + k - first] * (lanes_of(
            keys[k].v.bytes,
        )->Ok_0)[g * d + i % d]
    } else {
        0
    }
}

/// What the first `n` keys add to lane `i`.
pub open spec fn shares<K: Fn(KernelCall) -> Vec<i32>>(
    kernels: K,
    q: Seq<i32>,
    keys: Seq<KeyView>,
    base: int,
    t: int,
    p: LayerParams,
    i: int,
    n: nat,
) -> int
    decreases n,
{
    if n == 0 {
        0
    } else {
        shares(kernels, q, keys, base, t, p, i, (n - 1) as nat) + share(
            kernels,
            q,
            keys,
            base,
            t,
            p,
            i,
            n - 1,
        )
    }
}

/// A list of keys at consecutive positions that covers what a query sees, with rows of
/// the widths that the layer has.
pub open spec fn covers(
    keys: Seq<KeyView>,
    base: int,
    query: QueryView,
    p: LayerParams,
) -> bool {
    let t = query.position as int;
    let q_len = p.num_heads * p.head_dim;
    let kv_len = p.num_kv_heads * p.head_dim;
    &&& 0 <= base <= first_seen(t, p.sliding_window as int)
    &&& t < u32::MAX
    &&& base + keys.len() > t
    &&& lanes_of(query.q.bytes) is Ok
    &&& (lanes_of(query.q.bytes)->Ok_0).len() == q_len
    &&& forall|i: int|
        0 <= i < keys.len() ==> {
            &&& (#[trigger] keys[i]).position == base + i
            &&& lanes_of(keys[i].k.bytes) is Ok
            &&& (lanes_of(keys[i].k.bytes)->Ok_0).len() == kv_len
            &&& lanes_of(keys[i].v.bytes) is Ok
            &&& (lanes_of(keys[i].v.bytes)->Ok_0).len() == kv_len
        }
}

/// The context that attention over a list comes to: every lane rounded once.
pub open spec fn weighted_values<K: Fn(KernelCall) -> Vec<i32>>(
    kernels: K,
    keys: Seq<KeyView>,
    base: int,
    query: QueryView,
    p: LayerParams,
) -> Seq<i32> {
    let q = lanes_of(query.q.bytes)->Ok_0;
    Seq::new(
        (p.num_heads * p.head_dim) as nat,
        |i: int|
            requantize_spec(
                shares(kernels, q, keys, base, query.position as int, p, i, keys.len()),
            ),
    )
}

/// No lane leaves the accumulator's range while the list is added up.
pub open spec fn shares_in_range<K: Fn(KernelCall) -> Vec<i32>>(
    kernels: K,
    keys: Seq<KeyView>,
    base: int,
    query: QueryView,
    p: LayerParams,
) -> bool {
    let q = lanes_of(query.q.bytes)->Ok_0;
    forall|i: int, n: nat|
        0 <= i < p.num_heads * p.head_dim && n <= keys.len() ==> i64::MIN <= #[trigger] shares(
            kernels,
            q,
            keys,
            base,
            query.position as int,
            p,
            i,
            n,
        ) <= i64::MAX
}

/// How many of the first `n` keys are seen.
spec fn seen_among(n: int, base: int, first: int, t: int) -> int {
    if base + n <= first {
        0
    } else if base + n <= t + 1 {
        base + n - first
    } else {
        t + 1 - first
    }
}

spec fn lanes_at_slots(
    lanes: Seq<i32>,
    q: Seq<i32>,
    keys: Seq<KeyView>,
    base: int,
    t: int,
    p: LayerParams,
    n: int,
) -> bool {
    let first = first_seen(t, p.sliding_window as int);
    forall|i: int, h: int|
        0 <= i < n && first <= base + i <= t && 0 <= h < p.num_heads ==> lanes[(base + i - first)
            * p.num_heads + h] == #[trigger] head_dot(q, keys[i], p, h)
}

proof fn lemma_score_is_head_dot(
    query: QueryView,
    key: KeyView,
    p: LayerParams,
    h: int,
)
    requires
        lanes_of(query.q.bytes) is Ok,
        lanes_of(key.k.bytes) is Ok,
    ensures
        score_of(lanes_of(query.q.bytes)->Ok_0, lanes_of(key.k.bytes)->Ok_0, p, h) == head_dot(
            lanes_of(query.q.bytes)->Ok_0,
            key,
            p,
            h,
        ),
{
}

proof fn lemma_scored(
    keys: Seq<KeyView>,
    base: int,
    query: QueryView,
    p: LayerParams,
    n: nat,
)
    requires
        shape_ok(p),
        covers(keys, base, query, p),
        n <= keys.len(),
    ensures
        ({
            let t = query.position as int;
            let first = first_seen(t, p.sliding_window as int);
            let state = scored(
                zero_scores_spec(query.position, p),
                keys,
                query,
                p,
                p.kv_donor_layer,
                n,
            );
            let lanes = lanes_of(state.scores.bytes)->Ok_0;
            &&& state.error.len() == 0
            &&& state.window_len == t + 1 - first
            &&& state.filled == seen_among(n as int, base, first, t)
            &&& lanes_of(state.scores.bytes) is Ok
            &&& lanes.len() == (t + 1 - first) * p.num_heads
            &&& lanes_at_slots(lanes, lanes_of(query.q.bytes)->Ok_0, keys, base, t, p, n as int)
        }),
    decreases n,
{
    let t = query.position as int;
    let first = first_seen(t, p.sliding_window as int);
    let heads = p.num_heads as int;
    let q = lanes_of(query.q.bytes)->Ok_0;
    if n == 0 {
        let w = (t + 1 - first) as int;
        assert(0 <= w * heads) by (nonlinear_arith)
            requires
                w >= 0,
                heads >= 0,
        ;
        unpack_undoes_pack(crate::packed::zeros((w * heads) as nat));
    } else {
        let m = (n - 1) as nat;
        lemma_scored(keys, base, query, p, m);
        let before = scored(
            zero_scores_spec(query.position, p),
            keys,
            query,
            p,
            p.kv_donor_layer,
            m,
        );
        let key = keys[m as int];
        let state = scored(
            zero_scores_spec(query.position, p),
            keys,
            query,
            p,
            p.kv_donor_layer,
            n,
        );
        a_query_sees_its_window(query.position, key.position, p.sliding_window);
        if first <= key.position <= t {
            let slot = slot_of(query.position, before.window_len as int, key.position);
            assert(slot == base + m - first);
            let old = lanes_of(before.scores.bytes)->Ok_0;
            let k = lanes_of(key.k.bytes)->Ok_0;
            let lanes = with_key_scores(old, q, k, p, slot);
            unpack_undoes_pack(lanes);
            assert(slot * heads + heads <= (t + 1 - first) * heads && 0 <= slot * heads)
                by (nonlinear_arith)
                requires
                    0 <= slot < t + 1 - first,
                    heads >= 0,
            ;
            assert forall|i: int, h: int|
                0 <= i < n && first <= base + i <= t && 0 <= h < heads implies lanes[(base + i
                - first) * heads + h] == #[trigger] head_dot(q, keys[i], p, h) by {
                let s = base + i - first;
                assert(0 <= s * heads && s * heads + heads <= (t + 1 - first) * heads)
                    by (nonlinear_arith)
                    requires
                        0 <= s < t + 1 - first,
                        heads >= 0,
                ;
                if i == m {
                    lemma_score_is_head_dot(query, key, p, h);
                } else {
                    assert(s * heads + heads <= slot * heads) by (nonlinear_arith)
                        requires
                            s + 1 <= slot,
                            heads >= 0,
                    ;
                    assert(old[s * heads + h] == head_dot(q, keys[i], p, h));
                }
            }
        }
    }
}

/// The weights and the sum of a sweep over one list that the layer reads.
proof fn lemma_one_list<K: Fn(KernelCall) -> Vec<i32>>(
    kernels: K,
    keys: Seq<KeyView>,
    base: int,
    query: QueryView,
    p: LayerParams,
)
    requires
        shape_ok(p),
        answers_in_width(kernels),
        covers(keys, base, query, p),
        shares_in_range(kernels, keys, base, query, p),
    ensures
        ({
            let state = scored(
                zero_scores_spec(query.position, p),
                keys,
                query,
                p,
                p.kv_donor_layer,
                keys.len(),
            );
            let weights = softmax_scores_spec(kernels, state, p);
            let zero = wide_zeros((p.num_heads * p.head_dim) as nat);
            &&& weights.error.len() == 0
            &&& finish_context_spec(
                accumulated(
                    sum_of(zero),
                    keys,
                    query,
                    weights,
                    p,
                    p.kv_donor_layer,
                    keys.len(),
                ),
            ) == good(weighted_values(kernels, keys, base, query, p))
        }),
{
    let t = query.position as int;
    let first = first_seen(t, p.sliding_window as int);
    let w = t + 1 - first;
    let heads = p.num_heads as int;
    let d = p.head_dim as int;
    let q = lanes_of(query.q.bytes)->Ok_0;
    lemma_scored(keys, base, query, p, keys.len());
    let state = scored(
        zero_scores_spec(query.position, p),
        keys,
        query,
        p,
        p.kv_donor_layer,
        keys.len(),
    );
    let weights = softmax_scores_spec(kernels, state, p);
    let lanes = lanes_of(state.scores.bytes)->Ok_0;
    let table = weights_of(kernels, lanes, heads, w);
    unpack_undoes_pack(table);
    assert(lanes_of(weights.weights.bytes)->Ok_0 == table);
    assert forall|h: int| 0 <= h < heads implies #[trigger] head_column(lanes, heads, w, h)
        == Seq::new(w as nat, |s: int| head_dot(q, keys[first - base + s], p, h)) by {
        let column = Seq::new(w as nat, |s: int| head_dot(q, keys[first - base + s], p, h));
        assert forall|s: int| 0 <= s < w implies head_column(lanes, heads, w, h)[s]
            == #[trigger] column[s] by {
            let i = first - base + s;
            assert(lanes[(base + i - first) * heads + h] == head_dot(q, keys[i], p, h));
        }
        assert(head_column(lanes, heads, w, h) =~= column);
    }
    let zero = wide_zeros((p.num_heads * p.head_dim) as nat);
    assert forall|i: int, k: int| 0 <= i < heads * d && 0 <= k < keys.len() implies addend(
        keys[k],
        query,
        weights,
        p,
        i,
    ) == #[trigger] share(kernels, q, keys, base, t, p, i, k) by {
        let key = keys[k];
        a_query_sees_its_window(query.position, key.position, p.sliding_window);
        if first <= base + k <= t {
            let s = base + k - first;
            assert(d > 0);
            vstd::arithmetic::div_mod::lemma_fundamental_div_mod(i, d);
            vstd::arithmetic::div_mod::lemma_mod_bound(i, d);
            let h = i / d;
            assert(0 <= h < heads) by (nonlinear_arith)
                requires
                    i == d * h + i % d,
                    0 <= i % d < d,
                    0 <= i < heads * d,
                    d > 0,
            ;
            assert(0 <= s * heads + h < w * heads) by (nonlinear_arith)
                requires
                    0 <= s < w,
                    0 <= h < heads,
            ;
            vstd::arithmetic::div_mod::lemma_fundamental_div_mod_converse(
                s * heads + h,
                heads,
                s,
                h,
            );
            assert(table[s * heads + h] == answer(
                kernels,
                KernelRequest::Softmax { lanes: head_column(lanes, heads, w, h) },
            )[s]);
            assert(head_column(lanes, heads, w, h) == Seq::new(
                w as nat,
                |s: int| head_dot(q, keys[first - base + s], p, h),
            ));
            assert(table[s * heads + h] == head_weights(kernels, q, keys, base, t, p, h)[s]);
            assert(operands(query.q, key.k, key.v, p) is Ok);
        }
    }
    assert forall|i: int, n: nat| 0 <= i < heads * d && n <= keys.len() implies #[trigger] addends(
        keys,
        query,
        weights,
        p,
        i,
        n,
    ) == shares(kernels, q, keys, base, t, p, i, n) by {
        lemma_same_sums(kernels, keys, base, query, weights, p, i, n);
    }
    assert(adds_in_range(zero, keys, query, weights, p)) by {
        assert forall|i: int, n: nat|
            0 <= i < zero.len() && n <= keys.len() implies crate::prefill_range::sweep_laws::fits_wide(
            zero[i] + #[trigger] addends(keys, query, weights, p, i, n),
        ) by {
            assert(addends(keys, query, weights, p, i, n) == shares(
                kernels,
                q,
                keys,
                base,
                t,
                p,
                i,
                n,
            ));
        }
    }
    a_sum_in_range_is_exact(zero, keys, query, weights, p, keys.len());
    let total = Seq::new(
        zero.len(),
        |i: int| (zero[i] + addends(keys, query, weights, p, i, keys.len())) as i64,
    );
    unpack_undoes_pack_wide(total);
    let want = weighted_values(kernels, keys, base, query, p);
    assert(total.map_values(|a: i64| requantize_spec(a as int)) =~= want) by {
        assert forall|i: int| 0 <= i < want.len() implies total[i] as int == #[trigger] shares(
            kernels,
            q,
            keys,
            base,
            t,
            p,
            i,
            keys.len(),
        ) by {
            assert(addends(keys, query, weights, p, i, keys.len()) == shares(
                kernels,
                q,
                keys,
                base,
                t,
                p,
                i,
                keys.len(),
            ));
        }
    }
}

proof fn lemma_same_sums<K: Fn(KernelCall) -> Vec<i32>>(
    kernels: K,
    keys: Seq<KeyView>,
    base: int,
    query: QueryView,
    weights: crate::prefill_range::input::WeightsView,
    p: LayerParams,
    i: int,
    n: nat,
)
    requires
        n <= keys.len(),
        forall|k: int|
            0 <= k < keys.len() ==> addend(keys[k], query, weights, p, i) == #[trigger] share(
                kernels,
                lanes_of(query.q.bytes)->Ok_0,
                keys,
                base,
                query.position as int,
                p,
                i,
                k,
            ),
    ensures
        addends(keys, query, weights, p, i, n) == shares(
            kernels,
            lanes_of(query.q.bytes)->Ok_0,
            keys,
            base,
            query.position as int,
            p,
            i,
            n,
        ),
    decreases n,
{
    if n > 0 {
        lemma_same_sums(kernels, keys, base, query, weights, p, i, (n - 1) as nat);
        let k = n - 1;
        assert(addend(keys[k], query, weights, p, i) == share(
            kernels,
            lanes_of(query.q.bytes)->Ok_0,
            keys,
            base,
            query.position as int,
            p,
            i,
            k,
        ));
    }
}

/// A layer that owns its cache attends over its earlier keys and the stage's own: each
/// head's weights are the softmax of its scaled inner products with the keys it sees, and
/// each lane of the context is the sum of the values by those weights, rounded once.
pub proof fn an_owner_attends_to_its_cache<K: Fn(KernelCall) -> Vec<i32>>(
    kernels: K,
    lists: KeyListsView,
    base: int,
    query: QueryView,
    p: LayerParams,
)
    requires
        shape_ok(p),
        answers_in_width(kernels),
        p.kv_donor_layer == -1,
        p.donor_a_layer != -1,
        p.donor_b_layer != -1,
        covers(lists.prior + lists.own, base, query, p),
        shares_in_range(kernels, lists.prior + lists.own, base, query, p),
    ensures
        attention_context(kernels, lists, query, p) == good(
            weighted_values(kernels, lists.prior + lists.own, base, query, p),
        ),
{
    let keys = lists.prior + lists.own;
    lemma_one_list(kernels, keys, base, query, p);
    let s0 = zero_scores_spec(query.position, p);
    scoring_in_lists_is_scoring_whole(
        s0,
        lists.prior,
        lists.own,
        query,
        p,
        p.kv_donor_layer,
        lists.own.len(),
    );
    let s2 = scored(s0, keys, query, p, p.kv_donor_layer, keys.len());
    other_sources_do_not_score(s2, lists.donor_a, query, p, p.donor_a_layer, lists.donor_a.len());
    other_sources_do_not_score(s2, lists.donor_b, query, p, p.donor_b_layer, lists.donor_b.len());
    let weights = softmax_scores_spec(kernels, s2, p);
    let c0 = sum_of(wide_zeros((p.num_heads * p.head_dim) as nat));
    adding_in_lists_is_adding_whole(
        c0,
        lists.prior,
        lists.own,
        query,
        weights,
        p,
        p.kv_donor_layer,
        lists.own.len(),
    );
    let c2 = accumulated(c0, keys, query, weights, p, p.kv_donor_layer, keys.len());
    other_sources_do_not_sum(
        c2,
        lists.donor_a,
        query,
        weights,
        p,
        p.donor_a_layer,
        lists.donor_a.len(),
    );
    other_sources_do_not_sum(
        c2,
        lists.donor_b,
        query,
        weights,
        p,
        p.donor_b_layer,
        lists.donor_b.len(),
    );
}

/// A layer that borrows from its first donor attends over that donor's keys, and no
/// others.
pub proof fn a_borrower_attends_to_its_first_donor<K: Fn(KernelCall) -> Vec<i32>>(
    kernels: K,
    lists: KeyListsView,
    base: int,
    query: QueryView,
    p: LayerParams,
)
    requires
        shape_ok(p),
        answers_in_width(kernels),
        p.kv_donor_layer == p.donor_a_layer,
        p.donor_a_layer != -1,
        p.donor_b_layer != p.donor_a_layer,
        covers(lists.donor_a, base, query, p),
        shares_in_range(kernels, lists.donor_a, base, query, p),
    ensures
        attention_context(kernels, lists, query, p) == good(
            weighted_values(kernels, lists.donor_a, base, query, p),
        ),
{
    let keys = lists.donor_a;
    lemma_one_list(kernels, keys, base, query, p);
    let s0 = zero_scores_spec(query.position, p);
    other_sources_do_not_score(s0, lists.prior, query, p, OWN_CACHE, lists.prior.len());
    other_sources_do_not_score(s0, lists.own, query, p, OWN_CACHE, lists.own.len());
    let s3 = scored(s0, keys, query, p, p.donor_a_layer, keys.len());
    other_sources_do_not_score(s3, lists.donor_b, query, p, p.donor_b_layer, lists.donor_b.len());
    let weights = softmax_scores_spec(kernels, s3, p);
    let c0 = sum_of(wide_zeros((p.num_heads * p.head_dim) as nat));
    other_sources_do_not_sum(c0, lists.prior, query, weights, p, OWN_CACHE, lists.prior.len());
    other_sources_do_not_sum(c0, lists.own, query, weights, p, OWN_CACHE, lists.own.len());
    let c3 = accumulated(c0, keys, query, weights, p, p.donor_a_layer, keys.len());
    other_sources_do_not_sum(
        c3,
        lists.donor_b,
        query,
        weights,
        p,
        p.donor_b_layer,
        lists.donor_b.len(),
    );
}

/// A layer that borrows from its second donor attends over that donor's keys, and no
/// others.
pub proof fn a_borrower_attends_to_its_second_donor<K: Fn(KernelCall) -> Vec<i32>>(
    kernels: K,
    lists: KeyListsView,
    base: int,
    query: QueryView,
    p: LayerParams,
)
    requires
        shape_ok(p),
        answers_in_width(kernels),
        p.kv_donor_layer == p.donor_b_layer,
        p.donor_b_layer != -1,
        p.donor_a_layer != p.donor_b_layer,
        covers(lists.donor_b, base, query, p),
        shares_in_range(kernels, lists.donor_b, base, query, p),
    ensures
        attention_context(kernels, lists, query, p) == good(
            weighted_values(kernels, lists.donor_b, base, query, p),
        ),
{
    let keys = lists.donor_b;
    lemma_one_list(kernels, keys, base, query, p);
    let s0 = zero_scores_spec(query.position, p);
    other_sources_do_not_score(s0, lists.prior, query, p, OWN_CACHE, lists.prior.len());
    other_sources_do_not_score(s0, lists.own, query, p, OWN_CACHE, lists.own.len());
    other_sources_do_not_score(s0, lists.donor_a, query, p, p.donor_a_layer, lists.donor_a.len());
    let s4 = scored(s0, keys, query, p, p.donor_b_layer, keys.len());
    let weights = softmax_scores_spec(kernels, s4, p);
    let c0 = sum_of(wide_zeros((p.num_heads * p.head_dim) as nat));
    other_sources_do_not_sum(c0, lists.prior, query, weights, p, OWN_CACHE, lists.prior.len());
    other_sources_do_not_sum(c0, lists.own, query, weights, p, OWN_CACHE, lists.own.len());
    other_sources_do_not_sum(
        c0,
        lists.donor_a,
        query,
        weights,
        p,
        p.donor_a_layer,
        lists.donor_a.len(),
    );
}

} // verus!
