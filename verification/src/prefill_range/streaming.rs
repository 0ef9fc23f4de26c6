//! Streaming softmax attention.
//!
//! One pass over the keys with a running maximum, denominator and weighted sum
//! per head; a larger score rescales what has been accumulated. The state is of
//! fixed width, so a key can be folded in on its own.

use crate::activations::{KeyRow, KeyView};
use crate::det_num::{
    add_sat, add_sat_spec, clamp_i64, clamp_int, div_spec, exp_spec, mul_spec, ONE,
};
use crate::numerics::{div, exp};
use crate::pages::{lanes_of, pack_i32s, packed, standalone, unpack_i32s};
use crate::prefill_range::attend::{
    attention_operands, head_score, heads_in_range, kv_head_of, lemma_lane_split, operands,
    score_of, sees, shape_ok, visible,
};
use crate::packed::{bad, good, zero_lanes, zeros};
use crate::prefill_range::input::{AttnState, AttnView, LayerParams, PackedVec, QueryRow, QueryView};
use crate::text::outcome;
use vstd::prelude::*;

verus! {

/// The state before any key.
pub open spec fn no_keys() -> AttnView {
    AttnView {
        started: false,
        max: standalone(packed(Seq::empty())),
        sum: standalone(packed(Seq::empty())),
        acc: standalone(packed(Seq::empty())),
        error: Seq::empty(),
    }
}

/// Empty streaming-softmax state.
pub fn zero_attn_state() -> (r: AttnState)
    ensures
        r@ == no_keys(),
{
    let none: Vec<i32> = Vec::new();
    AttnState {
        started: false,
        max: pack_i32s(none.as_slice()),
        sum: pack_i32s(none.as_slice()),
        acc: pack_i32s(none.as_slice()),
        error: String::new(),
    }
}

/// A started state has one maximum and denominator per head and one lane per
/// head and lane.
pub open spec fn state_fits(state: AttnView, params: LayerParams) -> bool {
    state.started ==> {
        &&& state.max.bytes.len() == 4 * params.num_heads
        &&& state.sum.bytes.len() == 4 * params.num_heads
        &&& state.acc.bytes.len() == 4 * (params.num_heads * params.head_dim)
    }
}

/// `a - b`, saturated.
pub open spec fn gap_spec(a: i32, b: i32) -> i32 {
    clamp_int(a - b) as i32
}

fn gap(a: i32, b: i32) -> (r: i32)
    ensures
        r == gap_spec(a, b),
{
    clamp_i64(a as i64 - b as i64)
}

/// A head's running maximum after one more score.
pub open spec fn next_max(started: bool, max: i32, score: i32) -> i32 {
    if !started || score > max {
        score
    } else {
        max
    }
}

/// A head's running denominator after one more score.
pub open spec fn next_sum(started: bool, max: i32, sum: i32, score: i32) -> i32 {
    if !started {
        ONE
    } else if score > max {
        add_sat_spec(mul_spec(sum, exp_spec(gap_spec(max, score))), ONE)
    } else {
        add_sat_spec(sum, exp_spec(gap_spec(score, max)))
    }
}

/// One lane of a head's weighted sum after one more value.
pub open spec fn next_lane(started: bool, max: i32, lane: i32, score: i32, value: i32) -> i32 {
    if !started {
        value
    } else if score > max {
        add_sat_spec(mul_spec(lane, exp_spec(gap_spec(max, score))), value)
    } else {
        add_sat_spec(lane, mul_spec(value, exp_spec(gap_spec(score, max))))
    }
}

/// The running maxima, denominators and lanes that a key is folded into.
pub open spec fn running(state: AttnView, params: LayerParams) -> (Seq<i32>, Seq<i32>, Seq<i32>) {
    if state.started {
        (
            lanes_of(state.max.bytes)->Ok_0,
            lanes_of(state.sum.bytes)->Ok_0,
            lanes_of(state.acc.bytes)->Ok_0,
        )
    } else {
        (
            zeros(params.num_heads as nat),
            zeros(params.num_heads as nat),
            zeros((params.num_heads * params.head_dim) as nat),
        )
    }
}

/// The state after one key, or why the key is refused.
pub open spec fn folded(
    state: AttnView,
    query: QueryView,
    key: KeyView,
    params: LayerParams,
) -> Result<AttnView, Seq<char>> {
    match operands(query.q, key.k, key.v, params) {
        Err(e) => Err(e),
        Ok((q, k, v)) => {
            let (max, sum, acc) = running(state, params);
            let d = params.head_dim as int;
            Ok(
                AttnView {
                    started: true,
                    max: standalone(
                        packed(
                            Seq::new(
                                params.num_heads as nat,
                                |h: int| next_max(state.started, max[h], score_of(q, k, params, h)),
                            ),
                        ),
                    ),
                    sum: standalone(
                        packed(
                            Seq::new(
                                params.num_heads as nat,
                                |h: int|
                                    next_sum(
                                        state.started,
                                        max[h],
                                        sum[h],
                                        score_of(q, k, params, h),
                                    ),
                            ),
                        ),
                    ),
                    acc: standalone(
                        packed(
                            Seq::new(
                                (params.num_heads * params.head_dim) as nat,
                                |i: int|
                                    next_lane(
                                        state.started,
                                        max[i / d],
                                        acc[i],
                                        score_of(q, k, params, i / d),
                                        v[kv_head_of(params, i / d) * d + i % d],
                                    ),
                            ),
                        ),
                    ),
                    error: state.error,
                },
            )
        },
    }
}

fn accumulate_key(
    state: &mut AttnState,
    query: &QueryRow,
    key: &KeyRow,
    params: &LayerParams,
) -> (r: Result<(), String>)
    requires
        shape_ok(*params),
        state_fits(old(state)@, *params),
    ensures
        match folded(old(state)@, query@, key@, *params) {
            Ok(next) => r is Ok && final(state)@ == next,
            Err(e) => r matches Err(s) && s@ == e && *final(state) == *old(state),
        },
{
    let (q, k, v) = match attention_operands(&query.q, &key.k, &key.v, params) {
        Ok(p) => p,
        Err(e) => return Err(e),
    };
    let started: bool = state.started;
    let max: Vec<i32> = if started {
        match unpack_i32s(&state.max) {
            Ok(lanes) => lanes,
            Err(e) => return Err(e),
        }
    } else {
        zero_lanes(params.num_heads)
    };
    let sum: Vec<i32> = if started {
        match unpack_i32s(&state.sum) {
            Ok(lanes) => lanes,
            Err(e) => return Err(e),
        }
    } else {
        zero_lanes(params.num_heads)
    };
    let acc: Vec<i32> = if started {
        match unpack_i32s(&state.acc) {
            Ok(lanes) => lanes,
            Err(e) => return Err(e),
        }
    } else {
        zero_lanes(params.num_heads * params.head_dim)
    };
    let heads: usize = params.num_heads as usize;
    let d: usize = params.head_dim as usize;
    let group: usize = heads / params.num_kv_heads as usize;
    let mut new_max: Vec<i32> = Vec::new();
    let mut new_sum: Vec<i32> = Vec::new();
    let mut new_acc: Vec<i32> = Vec::new();
    let mut head: usize = 0;
    while head < heads
        invariant
            head <= heads,
            shape_ok(*params),
            heads == params.num_heads,
            d == params.head_dim,
            group == params.num_heads as int / params.num_kv_heads as int,
            q@.len() == params.num_heads * params.head_dim,
            k@.len() == params.num_kv_heads * params.head_dim,
            v@.len() == params.num_kv_heads * params.head_dim,
            max@.len() == heads,
            sum@.len() == heads,
            acc@.len() == heads * d,
            new_max@.len() == head,
            new_sum@.len() == head,
            new_acc@.len() == head * d,
            forall|h: int|
                0 <= h < head ==> new_max@[h] == next_max(
                    started,
                    max@[h],
                    score_of(q@, k@, *params, h),
                ),
            forall|h: int|
                0 <= h < head ==> new_sum@[h] == next_sum(
                    started,
                    max@[h],
                    sum@[h],
                    score_of(q@, k@, *params, h),
                ),
            forall|i: int|
                0 <= i < head * d ==> new_acc@[i] == next_lane(
                    started,
                    max@[i / (d as int)],
                    acc@[i],
                    score_of(q@, k@, *params, i / (d as int)),
                    v@[kv_head_of(*params, i / (d as int)) * d + i % (d as int)],
                ),
        decreases heads - head,
    {
        proof {
            heads_in_range(*params, head as int);
        }
        let kv_head: usize = head / group;
        let score: i32 = head_score(&q, &k, params, head);
        let old_max: i32 = max[head];
        let grows: bool = started && score > old_max;
        let factor: i32 = if grows {
            exp(gap(old_max, score))
        } else {
            exp(gap(score, old_max))
        };
        let mut lane: usize = 0;
        while lane < d
            invariant
                lane <= d,
                head < heads,
                shape_ok(*params),
                heads == params.num_heads,
                d == params.head_dim,
                old_max == max@[head as int],
                score == score_of(q@, k@, *params, head as int),
                grows == (started && score > old_max),
                factor == (if grows {
                    exp_spec(gap_spec(old_max, score))
                } else {
                    exp_spec(gap_spec(score, old_max))
                }),
                kv_head == kv_head_of(*params, head as int),
                0 <= head * d,
                head * d + d <= heads * d,
                0 <= kv_head * d,
                kv_head * d + d <= v@.len(),
                acc@.len() == heads * d,
                new_acc@.len() == head * d + lane,
                forall|i: int|
                    0 <= i < head * d + lane ==> new_acc@[i] == next_lane(
                        started,
                        max@[i / (d as int)],
                        acc@[i],
                        score_of(q@, k@, *params, i / (d as int)),
                        v@[kv_head_of(*params, i / (d as int)) * d + i % (d as int)],
                    ),
            decreases d - lane,
        {
            proof {
                lemma_lane_split(heads as int, d as int, head as int, lane as int);
            }
            assert(acc.len() <= usize::MAX && v.len() <= usize::MAX);
            let value: i32 = v[kv_head * d + lane];
            let held: i32 = acc[head * d + lane];
            let next: i32 = if !started {
                value
            } else if grows {
                add_sat(crate::numerics::mul(held, factor), value)
            } else {
                add_sat(held, crate::numerics::mul(value, factor))
            };
            new_acc.push(next);
            lane += 1;
        }
        if !started {
            new_max.push(score);
            new_sum.push(ONE);
        } else if grows {
            new_max.push(score);
            new_sum.push(add_sat(crate::numerics::mul(sum[head], factor), ONE));
        } else {
            new_max.push(old_max);
            new_sum.push(add_sat(sum[head], factor));
        }
        assert((head + 1) * d == head * d + d) by (nonlinear_arith);
        head += 1;
    }
    proof {
        let expected = folded(old(state)@, query@, key@, *params)->Ok_0;
        assert(standalone(packed(new_max@)) == expected.max) by {
            assert(new_max@ =~= Seq::new(
                params.num_heads as nat,
                |h: int| next_max(started, max@[h], score_of(q@, k@, *params, h)),
            ));
        }
        assert(standalone(packed(new_sum@)) == expected.sum) by {
            assert(new_sum@ =~= Seq::new(
                params.num_heads as nat,
                |h: int| next_sum(started, max@[h], sum@[h], score_of(q@, k@, *params, h)),
            ));
        }
        assert(standalone(packed(new_acc@)) == expected.acc) by {
            assert(new_acc@ =~= Seq::new(
                (params.num_heads * params.head_dim) as nat,
                |i: int|
                    next_lane(
                        started,
                        max@[i / (d as int)],
                        acc@[i],
                        score_of(q@, k@, *params, i / (d as int)),
                        v@[kv_head_of(*params, i / (d as int)) * d + i % (d as int)],
                    ),
            ));
        }
    }
    state.started = true;
    state.max = pack_i32s(new_max.as_slice());
    state.sum = pack_i32s(new_sum.as_slice());
    state.acc = pack_i32s(new_acc.as_slice());
    Ok(())
}

/// The state after one key of one of the two key lists. Exactly one list
/// counts: the donor's for a layer that borrows its cache, its own otherwise.
pub open spec fn attended(
    state: AttnView,
    key: KeyView,
    query: QueryView,
    params: LayerParams,
    donor_pass: bool,
) -> AttnView {
    if state.error.len() > 0 || (params.kv_donor_layer >= 0) != donor_pass || !sees(
        query.position,
        key.position,
        params.sliding_window,
    ) {
        state
    } else {
        match folded(state, query, key, params) {
            Ok(next) => next,
            Err(e) => AttnView { error: e, ..state },
        }
    }
}

/// Attends one key, streaming-softmax style.
pub fn attend_kv_chunk(
    key: &KeyRow,
    state: AttnState,
    query: &QueryRow,
    params: &LayerParams,
    donor_pass: bool,
) -> (r: AttnState)
    requires
        shape_ok(*params),
        state_fits(state@, *params),
    ensures
        r@ == attended(state@, key@, query@, *params, donor_pass),
        state_fits(r@, *params),
{
    let mut state: AttnState = state;
    if !state.error.as_str().is_empty() {
        return state;
    }
    if (params.kv_donor_layer >= 0) != donor_pass {
        return state;
    }
    if !visible(query.position, key.position, params.sliding_window) {
        return state;
    }
    match accumulate_key(&mut state, query, key, params) {
        Ok(()) => {},
        Err(error) => {
            state.error = error;
        },
    }
    state
}

/// The context of a finished state: every lane over its head's denominator.
pub open spec fn context_of(state: AttnView, params: LayerParams) -> Result<Seq<i32>, Seq<char>> {
    if state.error.len() > 0 {
        Err(state.error)
    } else if !state.started {
        Err("attention saw no keys at or before this token"@)
    } else {
        match (lanes_of(state.sum.bytes), lanes_of(state.acc.bytes)) {
            (Err(e), _) => Err(e),
            (_, Err(e)) => Err(e),
            (Ok(sums), Ok(acc)) => Ok(
                Seq::new(
                    acc.len(),
                    |i: int|
                        {
                            let h = i / params.head_dim as int;
                            div_spec(
                                acc[i],
                                if h < sums.len() {
                                    sums[h]
                                } else {
                                    0
                                },
                            )
                        },
                ),
            ),
        }
    }
}

fn softmax_context_inner(state: &AttnState, params: &LayerParams) -> (r: Result<Vec<i32>, String>)
    requires
        params.head_dim > 0,
    ensures
        outcome(r, context_of(state@, *params)),
{
    if !state.error.as_str().is_empty() {
        return Err(state.error.clone());
    }
    if !state.started {
        return Err(String::from_str("attention saw no keys at or before this token"));
    }
    let d: usize = params.head_dim as usize;
    let sums: Vec<i32> = match unpack_i32s(&state.sum) {
        Ok(lanes) => lanes,
        Err(e) => return Err(e),
    };
    let acc: Vec<i32> = match unpack_i32s(&state.acc) {
        Ok(lanes) => lanes,
        Err(e) => return Err(e),
    };
    let mut context: Vec<i32> = Vec::new();
    let mut i: usize = 0;
    while i < acc.len()
        invariant
            i <= acc.len(),
            d == params.head_dim,
            d > 0,
            context@.len() == i,
            forall|j: int|
                0 <= j < i ==> context@[j] == div_spec(
                    acc@[j],
                    if j / (params.head_dim as int) < sums@.len() {
                        sums@[j / (params.head_dim as int)]
                    } else {
                        0
                    },
                ),
        decreases acc.len() - i,
    {
        let head: usize = i / d;
        let denominator: i32 = if head < sums.len() {
            sums[head]
        } else {
            0
        };
        context.push(div(acc[i], denominator));
        i += 1;
    }
    assert(context@ =~= context_of(state@, *params)->Ok_0);
    Ok(context)
}

/// Divides each head by its softmax denominator.
pub fn softmax_context(state: &AttnState, params: &LayerParams) -> (r: PackedVec)
    requires
        params.head_dim > 0,
        params.num_heads * params.head_dim <= u32::MAX,
    ensures
        r@ == match context_of(state@, *params) {
            Ok(context) => good(context),
            Err(e) => bad(zeros((params.num_heads * params.head_dim) as nat), e),
        },
{
    match softmax_context_inner(state, params) {
        Ok(values) => PackedVec { values: pack_i32s(values.as_slice()), error: String::new() },
        Err(error) => {
            let zeroed: Vec<i32> = zero_lanes(params.num_heads * params.head_dim);
            PackedVec { values: pack_i32s(zeroed.as_slice()), error }
        },
    }
}

} // verus!
