//! What holds of streaming attention over a whole list of keys.

use crate::activations::{KeyRow, KeyView};
use crate::arith_laws::{a_quotient_is_the_nearest, nearest};
use crate::det_num::{
    add_sat_spec, clamp_int, div_spec, exp_spec, mul_spec, one_is_neutral, round_half_even, ONE,
};
use crate::numeric_laws::exp_keeps_order;
use crate::pages::{lanes_of, packed, standalone, unpack_undoes_pack};
use crate::prefill_range::attend::{
    head_lanes, heads_in_range, kv_head_of, lemma_lane_split, operands, score_of, sees, shape_ok,
};
use crate::prefill_range::attention_laws::{a_query_sees_its_window, first_seen, head_dot, part};
use crate::prefill_range::input::{
    AttnState, AttnView, LayerParams, PackedVec, QueryRow, QueryView,
};
use crate::prefill_range::streaming::{
    attend_kv_chunk, attended, context_of, folded, gap_spec, next_lane, next_max, next_sum, no_keys,
    running, softmax_context, state_fits,
};
use vstd::prelude::*;

verus! {

/// The state after the first `n` keys of a list.
pub open spec fn attended_keys(
    state: AttnView,
    keys: Seq<KeyView>,
    query: QueryView,
    params: LayerParams,
    donor_pass: bool,
    n: nat,
) -> AttnView
    decreases n,
{
    if n == 0 {
        state
    } else {
        attended(
            attended_keys(state, keys, query, params, donor_pass, (n - 1) as nat),
            keys[n - 1],
            query,
            params,
            donor_pass,
        )
    }
}

/// A value row as the query heads read it: every head the lanes of its key/value
/// head.
pub open spec fn value_per_head(v: Seq<i32>, params: LayerParams) -> Seq<i32> {
    Seq::new(
        (params.num_heads * params.head_dim) as nat,
        |i: int|
            v[kv_head_of(params, i / params.head_dim as int) * params.head_dim + i
                % params.head_dim as int],
    )
}

/// A state that carries an error is left as it is by every later key.
pub proof fn a_failed_stream_stays_failed(
    state: AttnView,
    keys: Seq<KeyView>,
    query: QueryView,
    params: LayerParams,
    donor_pass: bool,
    n: nat,
)
    requires
        state.error.len() > 0,
    ensures
        attended_keys(state, keys, query, params, donor_pass, n) == state,
    decreases n,
{
    if n > 0 {
        a_failed_stream_stays_failed(state, keys, query, params, donor_pass, (n - 1) as nat);
    }
}

/// The state after `n` keys of one score and value.
spec fn repeated(n: int, q: Seq<i32>, k: Seq<i32>, v: Seq<i32>, params: LayerParams) -> AttnView {
    AttnView {
        started: true,
        max: standalone(
            packed(Seq::new(params.num_heads as nat, |h: int| score_of(q, k, params, h))),
        ),
        sum: standalone(packed(Seq::new(params.num_heads as nat, |h: int| (n * 65536) as i32))),
        acc: standalone(
            packed(value_per_head(v, params).map_values(|x: i32| (n * x) as i32)),
        ),
        error: Seq::empty(),
    }
}

proof fn lemma_lane_head(i: int, heads: int, d: int)
    requires
        d > 0,
        0 <= i < heads * d,
    ensures
        0 <= i / d < heads,
        0 <= i % d < d,
{
    vstd::arithmetic::div_mod::lemma_fundamental_div_mod(i, d);
    vstd::arithmetic::div_mod::lemma_mod_bound(i, d);
    let h = i / d;
    assert(0 <= h < heads) by (nonlinear_arith)
        requires
            i == d * h + i % d,
            0 <= i % d < d,
            0 <= i < heads * d,
            d > 0,
    ;
}

/// Every lane that a query head reads lies within the value row.
proof fn lemma_value_lane(v: Seq<i32>, params: LayerParams, i: int)
    requires
        shape_ok(params),
        v.len() == params.num_kv_heads * params.head_dim,
        0 <= i < params.num_heads * params.head_dim,
    ensures
        0 <= i / (params.head_dim as int) < params.num_heads,
        0 <= kv_head_of(params, i / (params.head_dim as int)) * params.head_dim + i
            % (params.head_dim as int) < v.len(),
        value_per_head(v, params)[i] == v[kv_head_of(params, i / params.head_dim as int)
            * params.head_dim + i % params.head_dim as int],
{
    let d = params.head_dim as int;
    assert(d > 0) by (nonlinear_arith)
        requires
            0 <= i < params.num_heads * d,
            d >= 0,
    ;
    lemma_lane_head(i, params.num_heads as int, d);
    heads_in_range(params, i / d);
}

proof fn lemma_repeat(
    n: int,
    key: KeyView,
    query: QueryView,
    params: LayerParams,
    q: Seq<i32>,
    k: Seq<i32>,
    v: Seq<i32>,
)
    requires
        shape_ok(params),
        n >= 1,
        operands(query.q, key.k, key.v, params) == Ok::<
            (Seq<i32>, Seq<i32>, Seq<i32>),
            Seq<char>,
        >((q, k, v)),
        (n + 1) * 65536 <= i32::MAX,
        forall|j: int|
            0 <= j < v.len() ==> i32::MIN <= (n + 1) * (#[trigger] v[j]) <= i32::MAX,
    ensures
        folded(repeated(n, q, k, v, params), query, key, params) == Ok::<AttnView, Seq<char>>(
            repeated(n + 1, q, k, v, params),
        ),
{
    let state = repeated(n, q, k, v, params);
    let heads = params.num_heads as nat;
    let lanes = (params.num_heads * params.head_dim) as nat;
    let d = params.head_dim as int;
    let max = Seq::new(heads, |h: int| score_of(q, k, params, h));
    let sum = Seq::new(heads, |h: int| (n * 65536) as i32);
    let acc = value_per_head(v, params).map_values(|x: i32| (n * x) as i32);
    unpack_undoes_pack(max);
    unpack_undoes_pack(sum);
    unpack_undoes_pack(acc);
    exp_keeps_order(0, 0);
    let next = folded(state, query, key, params)->Ok_0;
    let goal = repeated(n + 1, q, k, v, params);
    assert(next.max == goal.max) by {
        assert(Seq::new(
            heads,
            |h: int| next_max(true, max[h], score_of(q, k, params, h)),
        ) =~= max);
    }
    assert(next.sum == goal.sum) by {
        assert(Seq::new(
            heads,
            |h: int| next_sum(true, max[h], sum[h], score_of(q, k, params, h)),
        ) =~= Seq::new(heads, |h: int| ((n + 1) * 65536) as i32));
    }
    assert(next.acc == goal.acc) by {
        let got = Seq::new(
            lanes,
            |i: int|
                next_lane(
                    true,
                    max[i / d],
                    acc[i],
                    score_of(q, k, params, i / d),
                    v[kv_head_of(params, i / d) * d + i % d],
                ),
        );
        let want = value_per_head(v, params).map_values(|x: i32| ((n + 1) * x) as i32);
        assert forall|i: int| 0 <= i < lanes implies #[trigger] got[i] == want[i] by {
            lemma_value_lane(v, params, i);
            let j = kv_head_of(params, i / d) * d + i % d;
            let x = v[j];
            one_is_neutral(x);
            assert(i32::MIN <= (n + 1) * v[j] <= i32::MAX);
            assert((n + 1) * x == n * x + x) by (nonlinear_arith);
            assert(i32::MIN <= n * x <= i32::MAX) by (nonlinear_arith)
                requires
                    i32::MIN <= (n + 1) * x <= i32::MAX,
                    n >= 1,
            ;
            assert(mul_spec(x, exp_spec(gap_spec(max[i / d], max[i / d]))) == x);
        }
        assert(got =~= want);
    }
}

proof fn lemma_repeats(
    keys: Seq<KeyView>,
    query: QueryView,
    params: LayerParams,
    donor_pass: bool,
    q: Seq<i32>,
    k: Seq<i32>,
    v: Seq<i32>,
    n: nat,
)
    requires
        shape_ok(params),
        donor_pass == (params.kv_donor_layer >= 0),
        1 <= n <= keys.len(),
        forall|i: int|
            0 <= i < keys.len() ==> sees(
                query.position,
                (#[trigger] keys[i]).position,
                params.sliding_window,
            ),
        forall|i: int|
            0 <= i < keys.len() ==> operands(query.q, (#[trigger] keys[i]).k, keys[i].v, params)
                == Ok::<(Seq<i32>, Seq<i32>, Seq<i32>), Seq<char>>((q, k, v)),
        n * 65536 <= i32::MAX,
        forall|j: int| 0 <= j < v.len() ==> i32::MIN <= n * (#[trigger] v[j]) <= i32::MAX,
    ensures
        attended_keys(no_keys(), keys, query, params, donor_pass, n) == repeated(
            n as int,
            q,
            k,
            v,
            params,
        ),
    decreases n,
{
    let key = keys[n - 1];
    if n == 1 {
        let next = folded(no_keys(), query, key, params)->Ok_0;
        let goal = repeated(1, q, k, v, params);
        let heads = params.num_heads as nat;
        let lanes = (params.num_heads * params.head_dim) as nat;
        let d = params.head_dim as int;
        let zero_max = crate::packed::zeros(heads);
        let zero_acc = crate::packed::zeros(lanes);
        assert(next.max == goal.max) by {
            assert(Seq::new(
                heads,
                |h: int| next_max(false, zero_max[h], score_of(q, k, params, h)),
            ) =~= Seq::new(heads, |h: int| score_of(q, k, params, h)));
        }
        assert(next.sum == goal.sum) by {
            assert(Seq::new(
                heads,
                |h: int| next_sum(false, zero_max[h], zero_max[h], score_of(q, k, params, h)),
            ) =~= Seq::new(heads, |h: int| (1 * 65536) as i32));
        }
        assert(next.acc == goal.acc) by {
            assert(Seq::new(
                lanes,
                |i: int|
                    next_lane(
                        false,
                        zero_max[i / d],
                        zero_acc[i],
                        score_of(q, k, params, i / d),
                        v[kv_head_of(params, i / d) * d + i % d],
                    ),
            ) =~= value_per_head(v, params).map_values(|x: i32| (1 * x) as i32));
        }
        assert(attended_keys(no_keys(), keys, query, params, donor_pass, 0) == no_keys());
    } else {
        let m = (n - 1) as nat;
        assert forall|j: int| 0 <= j < v.len() implies i32::MIN <= m * (#[trigger] v[j])
            <= i32::MAX by {
            let x = v[j] as int;
            assert(i32::MIN <= n * v[j] <= i32::MAX);
            assert(i32::MIN <= m * x <= i32::MAX) by (nonlinear_arith)
                requires
                    i32::MIN <= n * x <= i32::MAX,
                    n == m + 1,
                    m >= 1,
            ;
        }
        lemma_repeats(keys, query, params, donor_pass, q, k, v, m);
        lemma_repeat(m as int, key, query, params, q, k, v);
    }
}

proof fn lemma_mean(n: int, x: i32)
    requires
        n >= 1,
        n * 65536 <= i32::MAX,
        i32::MIN <= n * x <= i32::MAX,
    ensures
        div_spec((n * x) as i32, (n * 65536) as i32) == x,
{
    let d = n * 65536;
    let a = (n * x) * 65536;
    crate::det_num::rounding_is_to_the_nearest(a, d);
    let r = round_half_even(a, d);
    assert(a - r * d == (x - r) * d) by (nonlinear_arith)
        requires
            a == (n * x) * 65536,
            d == n * 65536,
    ;
    assert(r == x) by (nonlinear_arith)
        requires
            -d <= 2 * ((x - r) * d) <= d,
            d > 0,
    ;
}

/// Attention over keys of one key and one value returns the value, exactly: every
/// head the lanes of its key/value head, and no error. The keys may stand at any
/// visible positions; their number, and the number times every lane, must not leave
/// the range of an activation.
pub proof fn equal_keys_return_their_value(
    keys: Seq<KeyView>,
    query: QueryView,
    params: LayerParams,
    donor_pass: bool,
    q: Seq<i32>,
    k: Seq<i32>,
    v: Seq<i32>,
)
    requires
        shape_ok(params),
        donor_pass == (params.kv_donor_layer >= 0),
        keys.len() >= 1,
        forall|i: int|
            0 <= i < keys.len() ==> sees(
                query.position,
                (#[trigger] keys[i]).position,
                params.sliding_window,
            ),
        forall|i: int|
            0 <= i < keys.len() ==> operands(query.q, (#[trigger] keys[i]).k, keys[i].v, params)
                == Ok::<(Seq<i32>, Seq<i32>, Seq<i32>), Seq<char>>((q, k, v)),
        keys.len() * ONE <= i32::MAX,
        forall|j: int|
            0 <= j < v.len() ==> i32::MIN <= keys.len() * (#[trigger] v[j]) <= i32::MAX,
    ensures
        context_of(
            attended_keys(no_keys(), keys, query, params, donor_pass, keys.len()),
            params,
        ) == Ok::<Seq<i32>, Seq<char>>(value_per_head(v, params)),
{
    let n = keys.len() as int;
    lemma_repeats(keys, query, params, donor_pass, q, k, v, keys.len());
    let heads = params.num_heads as nat;
    let d = params.head_dim as int;
    let sums = Seq::new(heads, |h: int| (n * 65536) as i32);
    let want = value_per_head(v, params);
    let acc = want.map_values(|x: i32| (n * x) as i32);
    unpack_undoes_pack(sums);
    unpack_undoes_pack(acc);
    let state = repeated(n, q, k, v, params);
    let got = context_of(state, params)->Ok_0;
    assert(keys[0] == keys[0]);
    assert(v.len() == params.num_kv_heads * params.head_dim);
    assert forall|i: int| 0 <= i < acc.len() implies #[trigger] got[i] == want[i] by {
        lemma_value_lane(v, params, i);
        let j = kv_head_of(params, i / d) * d + i % d;
        assert(i32::MIN <= keys.len() * v[j] <= i32::MAX);
        lemma_mean(n, v[j]);
    }
    assert(got =~= want);
}

/// How one more key changes a head's running state: the maximum is the greater of the two
/// scores, what was summed is rescaled from the old maximum to the new one, and the key
/// counts by its score's distance from the new one. The first key counts fully.
pub proof fn a_key_counts_by_its_distance_from_the_maximum(
    max: i32,
    sum: i32,
    lane: i32,
    score: i32,
    value: i32,
)
    ensures
        next_max(false, max, score) == score,
        next_sum(false, max, sum, score) == ONE,
        next_lane(false, max, lane, score, value) == value,
        ({
            let peak = if score > max {
                score
            } else {
                max
            };
            let old_weight = exp_spec(clamp_int(max - peak) as i32);
            let new_weight = exp_spec(clamp_int(score - peak) as i32);
            &&& next_max(true, max, score) == peak
            &&& next_sum(true, max, sum, score) == add_sat_spec(
                mul_spec(sum, old_weight),
                new_weight,
            )
            &&& next_lane(true, max, lane, score, value) == add_sat_spec(
                mul_spec(lane, old_weight),
                mul_spec(value, new_weight),
            )
        }),
{
    exp_keeps_order(0, 0);
    one_is_neutral(sum);
    one_is_neutral(lane);
    one_is_neutral(value);
}

/// One key, folded into a started state: every head takes its own score, the inner
/// product of its part of the query with its group's part of the key, scaled, and every
/// lane its own lane of the group's part of the value.
pub proof fn a_key_is_folded_head_by_head(
    state: AttnView,
    query: QueryView,
    key: KeyView,
    p: LayerParams,
    h: int,
    j: int,
)
    requires
        shape_ok(p),
        operands(query.q, key.k, key.v, p) is Ok,
        state_fits(state, p),
        0 <= h < p.num_heads,
        0 <= j < p.head_dim,
    ensures
        ({
            let next = folded(state, query, key, p)->Ok_0;
            let d = p.head_dim as int;
            let g = h / (p.num_heads as int / p.num_kv_heads as int);
            let score = head_dot(lanes_of(query.q.bytes)->Ok_0, key, p, h);
            let value = (lanes_of(key.v.bytes)->Ok_0)[g * d + j];
            let max = (lanes_of(state.max.bytes)->Ok_0)[h];
            let sum = (lanes_of(state.sum.bytes)->Ok_0)[h];
            let lane = (lanes_of(state.acc.bytes)->Ok_0)[h * d + j];
            let peak = if score > max {
                score
            } else {
                max
            };
            let old_weight = exp_spec(clamp_int(max - peak) as i32);
            let new_weight = exp_spec(clamp_int(score - peak) as i32);
            let new_max = (lanes_of(next.max.bytes)->Ok_0)[h];
            let new_sum = (lanes_of(next.sum.bytes)->Ok_0)[h];
            let new_lane = (lanes_of(next.acc.bytes)->Ok_0)[h * d + j];
            &&& folded(state, query, key, p) is Ok
            &&& next.started
            &&& next.error == state.error
            &&& state.started ==> {
                &&& new_max == peak
                &&& new_sum == add_sat_spec(mul_spec(sum, old_weight), new_weight)
                &&& new_lane == add_sat_spec(
                    mul_spec(lane, old_weight),
                    mul_spec(value, new_weight),
                )
            }
            &&& !state.started ==> new_max == score && new_sum == ONE && new_lane == value
        }),
{
    let next = folded(state, query, key, p)->Ok_0;
    let d = p.head_dim as int;
    let (q, k, v) = operands(query.q, key.k, key.v, p)->Ok_0;
    let (max, sum, acc) = running(state, p);
    let score = score_of(q, k, p, h);
    heads_in_range(p, h);
    assert(part(q, d, h) =~= head_lanes(q, d, h));
    assert(part(k, d, kv_head_of(p, h)) =~= head_lanes(k, d, kv_head_of(p, h)));
    lemma_lane_split(p.num_heads as int, d, h, j);
    unpack_undoes_pack(
        Seq::new(
            p.num_heads as nat,
            |i: int| next_max(state.started, max[i], score_of(q, k, p, i)),
        ),
    );
    unpack_undoes_pack(
        Seq::new(
            p.num_heads as nat,
            |i: int| next_sum(state.started, max[i], sum[i], score_of(q, k, p, i)),
        ),
    );
    unpack_undoes_pack(
        Seq::new(
            (p.num_heads * p.head_dim) as nat,
            |i: int|
                next_lane(
                    state.started,
                    max[i / d],
                    acc[i],
                    score_of(q, k, p, i / d),
                    v[kv_head_of(p, i / d) * d + i % d],
                ),
        ),
    );
    let value = v[kv_head_of(p, h) * d + j];
    a_key_counts_by_its_distance_from_the_maximum(max[h], sum[h], acc[h * d + j], score, value);
}

/// A key counts only in its own pass, only where the query sees it, and only until an
/// error; a key that cannot be read is the error.
pub proof fn only_seen_keys_of_the_pass_count(
    state: AttnView,
    key: KeyView,
    query: QueryView,
    p: LayerParams,
    donor_pass: bool,
)
    ensures
        ({
            let counts = state.error.len() == 0 && donor_pass == (p.kv_donor_layer >= 0)
                && first_seen(query.position as int, p.sliding_window as int) <= key.position
                <= query.position;
            let after = attended(state, key, query, p, donor_pass);
            &&& !counts ==> after == state
            &&& counts ==> (match folded(state, query, key, p) {
                Ok(next) => after == next,
                Err(e) => after == (AttnView { error: e, ..state }),
            })
        }),
{
    a_query_sees_its_window(query.position, key.position, p.sliding_window);
}

/// A finished head is its weighted sum over its denominator, to the nearest.
pub proof fn a_context_lane_is_the_weighted_mean(state: AttnView, p: LayerParams, h: int, j: int)
    requires
        shape_ok(p),
        state_fits(state, p),
        state.started,
        state.error.len() == 0,
        lanes_of(state.sum.bytes) is Ok,
        lanes_of(state.acc.bytes) is Ok,
        0 <= h < p.num_heads,
        0 <= j < p.head_dim,
        (lanes_of(state.sum.bytes)->Ok_0)[h] > 0,
    ensures
        context_of(state, p) is Ok,
        ({
            let at = h * p.head_dim + j;
            nearest(
                (context_of(state, p)->Ok_0)[at],
                (lanes_of(state.acc.bytes)->Ok_0)[at] * 65536,
                (lanes_of(state.sum.bytes)->Ok_0)[h] as int,
            )
        }),
{
    let d = p.head_dim as int;
    lemma_lane_split(p.num_heads as int, d, h, j);
    a_quotient_is_the_nearest(
        (lanes_of(state.acc.bytes)->Ok_0)[h * d + j],
        (lanes_of(state.sum.bytes)->Ok_0)[h],
    );
    let sums = lanes_of(state.sum.bytes)->Ok_0;
    let acc = lanes_of(state.acc.bytes)->Ok_0;
    assert(sums.len() == p.num_heads);
    assert(acc.len() == p.num_heads * p.head_dim);
}

/// A state without keys, or with an error, has no context; a head whose denominator is
/// zero has a context of zero.
pub proof fn an_unfinished_state_has_no_context(state: AttnView, p: LayerParams, h: int, j: int)
    requires
        shape_ok(p),
        state_fits(state, p),
        0 <= h < p.num_heads,
        0 <= j < p.head_dim,
    ensures
        state.error.len() > 0 ==> context_of(state, p) == Err::<Seq<i32>, Seq<char>>(state.error),
        state.error.len() == 0 && !state.started ==> context_of(state, p) == Err::<
            Seq<i32>,
            Seq<char>,
        >("attention saw no keys at or before this token"@),
        state.error.len() == 0 && state.started && (lanes_of(state.sum.bytes)->Ok_0)[h] == 0
            ==> context_of(state, p) is Ok && (context_of(state, p)->Ok_0)[h * p.head_dim + j] == 0,
{
    let d = p.head_dim as int;
    lemma_lane_split(p.num_heads as int, d, h, j);
    if state.started {
        assert((lanes_of(state.sum.bytes)->Ok_0).len() == p.num_heads);
        assert((lanes_of(state.acc.bytes)->Ok_0).len() == p.num_heads * p.head_dim);
    }
}

/// What attending to a key returns: the state with the key folded in if it counts, and
/// the state as it was if it does not.
pub proof fn attending_to_a_key(
    key: &KeyRow,
    state: AttnState,
    query: &QueryRow,
    p: &LayerParams,
    donor_pass: bool,
    r: AttnState,
)
    requires
        call_ensures(attend_kv_chunk, (key, state, query, p, donor_pass), r),
    ensures
        ({
            let counts = state@.error.len() == 0 && donor_pass == (p.kv_donor_layer >= 0)
                && first_seen(query@.position as int, p.sliding_window as int) <= key@.position
                <= query@.position;
            &&& !counts ==> r@ == state@
            &&& counts ==> (match folded(state@, query@, key@, *p) {
                Ok(next) => r@ == next,
                Err(e) => r@ == (AttnView { error: e, ..state@ }),
            })
        }),
{
    only_seen_keys_of_the_pass_count(state@, key@, query@, *p, donor_pass);
}

/// What a finished state comes out as: its context, or as many zeros with its error.
pub proof fn finishing_a_state(state: &AttnState, p: &LayerParams, r: PackedVec)
    requires
        call_ensures(softmax_context, (state, p), r),
    ensures
        match context_of(state@, *p) {
            Ok(context) => r@.error.len() == 0 && lanes_of(r@.values.bytes) == Ok::<
                Seq<i32>,
                Seq<char>,
            >(context),
            Err(e) => r@.error == e && lanes_of(r@.values.bytes) == Ok::<Seq<i32>, Seq<char>>(
                Seq::new((p.num_heads * p.head_dim) as nat, |i: int| 0i32),
            ),
        },
{
    let none = crate::packed::zeros((p.num_heads * p.head_dim) as nat);
    unpack_undoes_pack(none);
    assert(none =~= Seq::new((p.num_heads * p.head_dim) as nat, |i: int| 0i32));
    if let Ok(context) = context_of(state@, *p) {
        unpack_undoes_pack(context);
    }
}

} // verus!
