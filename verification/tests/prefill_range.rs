use raster_chain_inference::activations::{
    ActivationRow, ActivationSequence, KeyRow, PleLayerInputs, PleRow,
};
use raster_chain_inference::kernels::KernelCall;
use raster_chain_inference::model_import::externals::{page_of_i32s, paged_i32s};
use raster_chain_inference::model_import::shape::{Scalars, Shape};
use raster_chain_inference::packed::zero_accum;
use raster_chain_inference::pages::{pack_i32s, unpack_i32s, Bytes};
use raster_chain_inference::prefill_range::attend::{
    accumulate_context, finish_context, score_key, softmax_scores, visible, zero_context,
    zero_scores,
};
use raster_chain_inference::prefill_range::input::{LayerParams, QueryRow, TransformerLayer};
use raster_chain_inference::prefill_range::matvec::mac_weight_page;
use raster_chain_inference::prefill_range::project::{apply_rope, validate_layer_params};
use raster_chain_inference::prefill_range::stage::{assert_layer_complete, run_layer};
use raster_chain_inference::prefill_range::streaming::{
    attend_kv_chunk, softmax_context, zero_attn_state,
};

const ONE: i32 = 1 << 16;

/// Every kernel is the identity, but softmax spreads the weight evenly and the
/// rotation changes every lane it is given.
fn plain(call: KernelCall) -> Vec<i32> {
    match call {
        KernelCall::RmsNorm { lanes, .. } => lanes,
        KernelCall::ValueRmsNorm { lanes, .. } => lanes,
        KernelCall::Gelu { value } => vec![value],
        KernelCall::Softcap { value, .. } => vec![value],
        KernelCall::Rope { lanes, position, .. } => {
            lanes.iter().map(|x| x.wrapping_add(position as i32)).collect()
        }
        KernelCall::Softmax { lanes } => {
            let n = lanes.len() as i32;
            lanes.iter().map(|_| ONE / n.max(1)).collect()
        }
    }
}

fn params() -> LayerParams {
    LayerParams {
        layer_idx: 0,
        hidden_size: 2,
        ffn_size: 2,
        num_heads: 1,
        num_kv_heads: 1,
        head_dim: 2,
        sliding_window: 0,
        attn_scale: ONE,
        layer_scalar: 0,
        norm_eps: 0,
        rope_base: 10_000i64 << 32,
        rotary_dim: 2,
        rope_freq_base_dim: 2,
        kv_donor_layer: -1,
        donor_a_layer: -2,
        donor_b_layer: -3,
        norm_input: page_of_i32s(&[ONE, ONE]),
        norm_post_attn: page_of_i32s(&[ONE, ONE]),
        norm_pre_ffw: page_of_i32s(&[ONE, ONE]),
        norm_post_ffw: page_of_i32s(&[ONE, ONE]),
        q_norm: page_of_i32s(&[ONE, ONE]),
        k_norm: page_of_i32s(&[ONE, ONE]),
        ple_width: 1,
        ple_post_norm: page_of_i32s(&[ONE, ONE]),
    }
}

fn identity() -> Vec<i32> {
    vec![ONE, 0, 0, ONE]
}

fn layer(params: LayerParams) -> TransformerLayer {
    TransformerLayer {
        params,
        w_q: paged_i32s(&identity()),
        w_k: paged_i32s(&identity()),
        w_v: paged_i32s(&identity()),
        w_o: paged_i32s(&identity()),
        w_gate: paged_i32s(&[0; 4]),
        w_up: paged_i32s(&[0; 4]),
        w_down: paged_i32s(&[0; 4]),
        ple_input_gate: paged_i32s(&[0, 0]),
        ple_layer_projection: paged_i32s(&[0, 0]),
    }
}

fn run(start: u32, rows: &[[i32; 2]]) -> ActivationSequence {
    ActivationSequence {
        rows: rows
            .iter()
            .enumerate()
            .map(|(i, v)| ActivationRow { token_id: i as u32, values: pack_i32s(v) })
            .collect(),
        errors: vec![],
        kv: vec![],
        start_position: start,
    }
}

fn empty() -> ActivationSequence {
    run(0, &[])
}

fn ple(n: usize) -> PleLayerInputs {
    PleLayerInputs {
        layer_idx: 0,
        rows: (0..n).map(|_| PleRow { values: pack_i32s(&[0]) }).collect(),
        errors: vec![],
    }
}

fn lanes(run: &ActivationSequence) -> Vec<Vec<i32>> {
    run.rows.iter().map(|r| unpack_i32s(&r.values).unwrap()).collect()
}

#[test]
fn a_layer_keeps_its_run_and_fills_its_cache() {
    let input = run(0, &[[2 * ONE, 4 * ONE], [6 * ONE, 0]]);
    let out =
        run_layer(&plain, &input, layer(params()), empty(), empty(), empty(), &ple(2)).unwrap();
    assert_eq!(out.rows.len(), 2);
    assert_eq!(out.start_position, 0);
    assert_eq!(out.kv.len(), 2);
    assert_eq!(out.kv[1].position, 1);
    // The first token sees only itself: value plus residual.
    assert_eq!(lanes(&out)[0], vec![4 * ONE, 8 * ONE]);
    // The second sees both with equal weight.
    assert_eq!(lanes(&out)[1], vec![10 * ONE, 2 * ONE]);
}

#[test]
fn a_decode_step_sees_the_cache() {
    let prefill = run(0, &[[2 * ONE, 4 * ONE], [6 * ONE, 0]]);
    let cache =
        run_layer(&plain, &prefill, layer(params()), empty(), empty(), empty(), &ple(2)).unwrap();
    let step = run(2, &[[ONE, ONE]]);
    let out = run_layer(&plain, &step, layer(params()), cache, empty(), empty(), &ple(1)).unwrap();
    assert_eq!(out.start_position, 2);
    assert_eq!(out.kv.iter().map(|k| k.position).collect::<Vec<_>>(), vec![0, 1, 2]);
    assert_eq!(out.rows.len(), 1);
}

#[test]
fn a_layer_of_a_wrong_size_is_refused() {
    let mut wrong = layer(params());
    wrong.w_o = paged_i32s(&[ONE, 0, 0]);
    let input = run(0, &[[ONE, ONE]]);
    assert!(run_layer(&plain, &input, wrong, empty(), empty(), empty(), &ple(1)).is_err());
}

#[test]
fn a_borrower_without_its_donor_fails() {
    let mut p = params();
    p.kv_donor_layer = 5;
    p.donor_a_layer = 5;
    let input = run(0, &[[ONE, ONE]]);
    assert!(run_layer(&plain, &input, layer(p), empty(), empty(), empty(), &ple(1)).is_err());
    let mut p = params();
    p.kv_donor_layer = 5;
    p.donor_a_layer = 5;
    let mut donor = empty();
    donor.kv.push(KeyRow {
        position: 0,
        k: pack_i32s(&[ONE, ONE]),
        v: pack_i32s(&[3 * ONE, 5 * ONE]),
    });
    let out = run_layer(&plain, &input, layer(p), empty(), donor, empty(), &ple(1)).unwrap();
    assert_eq!(lanes(&out)[0], vec![4 * ONE, 6 * ONE]);
}

#[test]
fn visibility_is_causal_and_windowed() {
    assert!(visible(5, 5, 0));
    assert!(visible(5, 0, 0));
    assert!(!visible(5, 6, 0));
    assert!(visible(5, 3, 3));
    assert!(!visible(5, 2, 3));
}

#[test]
fn bad_layer_parameters_are_refused() {
    assert!(validate_layer_params(params()).is_ok());
    let mut p = params();
    p.num_kv_heads = 0;
    assert!(validate_layer_params(p).is_err());
    let mut p = params();
    p.rotary_dim = 3;
    assert!(validate_layer_params(p).is_err());
    let mut p = params();
    p.ple_post_norm = page_of_i32s(&[ONE]);
    assert_eq!(
        validate_layer_params(p).err().unwrap(),
        "layer 0 ple_post_norm has 4 bytes, expected 8 (2 values)"
    );
    assert_eq!(assert_layer_complete(0, &String::new(), 0, &String::new()), Ok(0));
    assert!(assert_layer_complete(1, &"a".to_string(), 0, &String::new()).is_err());
    assert!(assert_layer_complete(0, &String::new(), 1, &"b".to_string()).is_err());
}

/// Deterministic pseudo-random activations.
fn sample_bits(seed: u64, len: usize) -> Vec<i32> {
    let mut state = seed | 1;
    (0..len)
        .map(|_| {
            state ^= state << 13;
            state ^= state >> 7;
            state ^= state << 17;
            ((state >> 24) as i32) % (8 << 16)
        })
        .collect()
}

#[test]
fn partial_rotary_leaves_the_tail_untouched() {
    // A full-attention layer rotates only `rotary_dim` of a `freq_base_dim`-wide
    // head. Everything past `rotary_dim` must come back byte-identical.
    let (rotary_dim, freq_base_dim) = (128usize, 512usize);
    let bits = sample_bits(0xABCD, freq_base_dim);
    let mut p = params();
    p.head_dim = freq_base_dim as u32;
    p.rotary_dim = rotary_dim as u32;
    p.rope_freq_base_dim = freq_base_dim as u32;
    p.rope_base = 1_000_000i64 << 32;
    let mut head = bits.clone();
    apply_rope(&plain, &mut head, &p, 7);
    for i in 0..rotary_dim {
        assert_ne!(head[i], bits[i], "lane {i} was not rotated");
    }
    for i in rotary_dim..freq_base_dim {
        assert_eq!(head[i], bits[i], "lane {i} past rotary_dim was modified");
    }
    let mut still = bits.clone();
    apply_rope(&plain, &mut still, &p, 0);
    assert_eq!(still, bits);
}

#[test]
fn integer_rope_base_encodes_as_a_plain_shift() {
    let shape = Shape {
        hidden: 4,
        layers: 2,
        heads: 1,
        kv_heads: 1,
        head_dim: 256,
        global_head_dim: 512,
        num_kv_shared_layers: 0,
        vocab: 1,
        ple_width: 1,
        sliding_window: 0,
        layer_types: vec!["sliding_attention".to_string(), "full_attention".to_string()],
    };
    let scalars = Scalars {
        rope_base_sliding: 10_000,
        rope_base_full: 1_000_000,
        full_rotary_dim: 128,
        norm_eps: 0,
        embedding_scale: 0,
        ple_embedding_scale: 0,
        projection_scalar: 0,
        input_scale: 0,
        softcap: 0,
    };
    for (idx, base, rotary_dim, freq_base_dim) in
        [(0usize, 10_000.0f32, 256u32, 256u32), (1, 1_000_000.0, 128, 512)]
    {
        let (bits, rotary, freq) = shape.rope_at(&scalars, idx);
        assert_eq!(bits, (base as f64 * 4_294_967_296.0) as i64);
        assert_eq!(bits, (base as i64) << 32, "base {base} does not encode as a plain shift");
        assert_eq!((rotary, freq), (rotary_dim, freq_base_dim));
    }
}

fn query(position: u32, q: [i32; 2]) -> QueryRow {
    QueryRow {
        position,
        local: 0,
        token_id: 0,
        q: pack_i32s(&q),
        residual: pack_i32s(&[0, 0]),
    }
}

fn key(position: u32, k: [i32; 2], v: [i32; 2]) -> KeyRow {
    KeyRow { position, k: pack_i32s(&k), v: pack_i32s(&v) }
}

#[test]
fn equal_scores_average_the_values() {
    let p = params();
    let q = query(1, [ONE, 0]);
    let first = attend_kv_chunk(&key(0, [ONE, 0], [2 * ONE, 0]), zero_attn_state(), &q, &p, false);
    assert_eq!(unpack_i32s(&first.max).unwrap(), vec![ONE]);
    assert_eq!(unpack_i32s(&first.sum).unwrap(), vec![ONE]);
    assert_eq!(unpack_i32s(&first.acc).unwrap(), vec![2 * ONE, 0]);
    let second = attend_kv_chunk(&key(1, [ONE, 0], [4 * ONE, ONE]), first, &q, &p, false);
    assert_eq!(unpack_i32s(&second.sum).unwrap(), vec![2 * ONE]);
    // A later key and a donor's key leave the state as it was.
    let third = attend_kv_chunk(&key(2, [ONE, 0], [9 * ONE, ONE]), second, &q, &p, false);
    let fourth = attend_kv_chunk(&key(0, [ONE, 0], [9 * ONE, ONE]), third, &q, &p, true);
    let context = softmax_context(&fourth, &p);
    assert_eq!(context.error, "");
    assert_eq!(unpack_i32s(&context.values).unwrap(), vec![3 * ONE, ONE / 2]);
}

#[test]
fn a_key_of_a_wrong_width_fails_the_window() {
    let p = params();
    let q = query(0, [ONE, 0]);
    let short = KeyRow { position: 0, k: pack_i32s(&[ONE]), v: pack_i32s(&[0, 0]) };
    let state = attend_kv_chunk(&short, zero_attn_state(), &q, &p, false);
    assert_ne!(state.error, "");
    let error = state.error.clone();
    let state = attend_kv_chunk(&key(0, [ONE, 0], [ONE, 0]), state, &q, &p, false);
    assert_eq!(state.error, error);
    let context = softmax_context(&state, &p);
    assert_eq!(context.error, error);
    assert_eq!(unpack_i32s(&context.values).unwrap(), vec![0, 0]);
}

#[test]
fn equal_keys_return_their_value() {
    let mut p = params();
    p.sliding_window = 8;
    let q = query(9, [3 * ONE, -ONE]);
    let mut state = zero_attn_state();
    for position in 2..9 {
        let k = key(position, [ONE / 3, 7], [12_345, -98_765]);
        state = attend_kv_chunk(&k, state, &q, &p, false);
    }
    let context = softmax_context(&state, &p);
    assert_eq!(context.error, "");
    assert_eq!(unpack_i32s(&context.values).unwrap(), vec![12_345, -98_765]);
}

#[test]
fn a_score_far_below_the_maximum_weighs_nothing() {
    let p = params();
    let q = query(1, [i32::MAX, 0]);
    let high = key(0, [ONE, 0], [5 * ONE, ONE]);
    let low = key(1, [-ONE, 0], [9 * ONE, 9 * ONE]);
    for order in [[&high, &low], [&low, &high]] {
        let mut state = zero_attn_state();
        for k in order {
            state = attend_kv_chunk(k, state, &q, &p, false);
        }
        let context = softmax_context(&state, &p);
        assert_eq!(unpack_i32s(&context.values).unwrap(), vec![5 * ONE, ONE]);
    }
}

#[test]
fn page_order_does_not_matter() {
    let matrix: Vec<i32> = (1..=6).map(|x| x * ONE).collect();
    let bytes = pack_i32s(&matrix);
    let region = Bytes::paged(bytes.as_slice(), 8);
    assert_eq!(region.pages.len(), 3);
    let row = pack_i32s(&[ONE, 2 * ONE]);
    for order in [[0, 1, 2], [2, 0, 1], [1, 2, 0]] {
        let mut state = zero_accum(3);
        for i in order {
            state = mac_weight_page(&region.pages[i], state, &row, 2);
        }
        assert_eq!(state.error, "");
        assert_eq!(unpack_i32s(&state.values).unwrap(), vec![5 * ONE, 11 * ONE, 17 * ONE]);
    }
}

#[test]
fn sweep_order_does_not_matter() {
    let p = params();
    let q = query(2, [ONE, 0]);
    let keys = [
        key(0, [ONE, 0], [ONE, 10]),
        key(1, [2 * ONE, 0], [2 * ONE, 20]),
        key(2, [3 * ONE, 0], [3 * ONE, 30]),
    ];
    // A weight per slot, so that a key in the wrong slot shows.
    let by_slot = |call: KernelCall| match call {
        KernelCall::Softmax { lanes } => (1..=lanes.len() as i32).map(|i| i * ONE).collect(),
        other => plain(other),
    };
    for order in [[0, 1, 2], [2, 1, 0], [1, 0, 2], [2, 0, 1]] {
        let mut scores = zero_scores(&q, &p);
        for i in order {
            scores = score_key(&keys[i], scores, &q, &p, -1);
        }
        assert_eq!(unpack_i32s(&scores.scores).unwrap(), vec![ONE, 2 * ONE, 3 * ONE]);
        assert_eq!(scores.filled, 3);
        let weights = softmax_scores(&by_slot, scores, &q, &p);
        let mut context = zero_context(&p);
        for i in order {
            context = accumulate_context(&keys[i], context, &q, &weights, &p, -1);
        }
        let context = finish_context(context);
        assert_eq!(context.error, "");
        assert_eq!(unpack_i32s(&context.values).unwrap(), vec![14 * ONE, 140]);
    }
}
