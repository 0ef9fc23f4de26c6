use raster_chain_inference::decode::{
    finish_selection, open_transcript, scan_logit_chunk, select_token, ArgmaxState,
};
use raster_chain_inference::decode_embed::{embed_selected, require_selected_token};
use raster_chain_inference::input_embedding::EmbeddingTable;
use raster_chain_inference::model_import::externals::paged_i32s;
use raster_chain_inference::pages::unpack_i32s;
use raster_chain_inference::prefill_finalize::{LogitEntry, PrefillLogits};

fn logits(position: u32, values: &[i32]) -> PrefillLogits {
    PrefillLogits {
        decode_position: position,
        logits: values
            .iter()
            .enumerate()
            .map(|(i, v)| LogitEntry { token_id: i as u32, value: *v })
            .collect(),
        errors: vec![],
    }
}

#[test]
fn the_transcript_starts_empty() {
    let edge = open_transcript();
    assert!(!edge.has_selected);
    assert!(edge.generated_token_ids.is_empty());
}

#[test]
fn the_first_of_equal_scores_is_selected() {
    let edge = select_token(&logits(12, &[3, 9, 9, -1]), &open_transcript()).unwrap();
    assert!(edge.has_selected);
    assert_eq!(edge.token_id, 1);
    assert_eq!(edge.value, 9);
    assert_eq!(edge.decode_position, 12);
    assert_eq!(edge.generated_token_ids, vec![1]);
    let next = select_token(&logits(13, &[3, 9, 10]), &edge).unwrap();
    assert_eq!(next.generated_token_ids, vec![1, 2]);
}

#[test]
fn no_logits_select_nothing() {
    assert!(select_token(&logits(1, &[]), &open_transcript()).is_err());
}

#[test]
fn chunking_does_not_change_the_result() {
    let all = logits(0, &[-5, -3, -9, -3]).logits;
    let start = ArgmaxState { has_value: false, token_id: 0, value: 0 };
    let whole = scan_logit_chunk(&all, start);
    let parts = scan_logit_chunk(&all[2..], scan_logit_chunk(&all[..2], start));
    assert_eq!(whole, parts);
    assert_eq!(finish_selection(whole, 4).unwrap().token_id, 1);
}

#[test]
fn a_decode_run_is_one_row_at_its_position() {
    let one: i32 = 1 << 16;
    let table = EmbeddingTable {
        hidden_size: 2,
        embedding_scale: 2 * one,
        values: paged_i32s(&[1, 2, 3, 4, 5, 6]),
    };
    assert!(require_selected_token(false).is_err());
    let edge = select_token(&logits(7, &[0, 0, 1]), &open_transcript()).unwrap();
    let run = embed_selected(&edge, &table).unwrap();
    assert_eq!(run.start_position, 7);
    assert_eq!(run.rows.len(), 1);
    assert_eq!(unpack_i32s(&run.rows[0].values).unwrap(), vec![10, 12]);
    assert!(embed_selected(&open_transcript(), &table).is_err());
}
