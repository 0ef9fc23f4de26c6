use raster_chain_inference::activations::{ActivationRow, ActivationSequence};
use raster_chain_inference::kernels::KernelCall;
use raster_chain_inference::model_import::externals::{page_of_i32s, paged_i32s};
use raster_chain_inference::pages::pack_i32s;
use raster_chain_inference::prefill_finalize::{
    finalize_prefill, validate_final_head, FinalHead, FinalHeadParams,
};

const ONE: i32 = 1 << 16;

fn plain(call: KernelCall) -> Vec<i32> {
    match call {
        KernelCall::RmsNorm { lanes, .. } => lanes,
        KernelCall::ValueRmsNorm { lanes, .. } => lanes,
        KernelCall::Gelu { value } => vec![value],
        KernelCall::Softcap { value, cap } => vec![value.min(cap)],
        KernelCall::Rope { lanes, .. } => lanes,
        KernelCall::Softmax { lanes } => lanes,
    }
}

fn head(softcap: i32) -> FinalHead {
    FinalHead {
        params: FinalHeadParams {
            hidden_size: 2,
            norm_eps: 0,
            softcap,
            norm_weights: page_of_i32s(&[ONE, ONE]),
        },
        projection: paged_i32s(&[ONE, 0, 0, ONE, ONE, ONE]),
    }
}

fn run(start: u32) -> ActivationSequence {
    ActivationSequence {
        rows: vec![
            ActivationRow { token_id: 4, values: pack_i32s(&[9, 9]) },
            ActivationRow { token_id: 5, values: pack_i32s(&[10 * ONE, -ONE]) },
        ],
        errors: vec![],
        kv: vec![],
        start_position: start,
    }
}

#[test]
fn the_last_row_is_scored_once_per_token() {
    let out = finalize_prefill(&plain, &run(0), head(0)).unwrap();
    assert_eq!(out.decode_position, 2);
    let scores: Vec<(u32, i32)> = out.logits.iter().map(|l| (l.token_id, l.value)).collect();
    assert_eq!(scores, vec![(0, 10 * ONE), (1, -ONE), (2, 9 * ONE)]);
    let later = finalize_prefill(&plain, &run(40), head(0)).unwrap();
    assert_eq!(later.decode_position, 42);
}

#[test]
fn scores_are_softcapped() {
    let out = finalize_prefill(&plain, &run(0), head(5 * ONE)).unwrap();
    let scores: Vec<i32> = out.logits.iter().map(|l| l.value).collect();
    assert_eq!(scores, vec![5 * ONE, -ONE, 5 * ONE]);
}

#[test]
fn an_empty_run_has_no_logits() {
    let mut empty = run(0);
    empty.rows.clear();
    assert!(finalize_prefill(&plain, &empty, head(0)).is_err());
}

#[test]
fn a_bad_head_is_refused() {
    let mut h = head(0);
    h.params.hidden_size = 0;
    assert!(validate_final_head(h.params).is_err());
    let mut h = head(0);
    h.params.norm_weights = page_of_i32s(&[ONE]);
    assert!(finalize_prefill(&plain, &run(0), h).is_err());
}
