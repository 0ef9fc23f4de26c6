use raster_chain_inference::input_embedding::{
    assert_all_tokens_embedded, embed_prompt, embedding_byte_offset, EmbeddingTable,
    PromptTokenization,
};
use raster_chain_inference::model_import::externals::paged_i32s;
use raster_chain_inference::pages::{unpack_i32s, Bytes};
use raster_chain_inference::model_import::externals::pack_i32_bytes;

const ONE: i32 = 1 << 16;

fn fixture() -> EmbeddingTable {
    let mut values = vec![];
    for id in 0..12 {
        values.extend_from_slice(&[id * 100, id * 100 + 1, id * 100 + 2, id * 100 + 3]);
    }
    EmbeddingTable { hidden_size: 4, embedding_scale: ONE, values: paged_i32s(&values) }
}

#[test]
fn the_fixture_prompt_gathers_its_rows() {
    let run =
        embed_prompt(&PromptTokenization { token_ids: vec![10, 1, 11] }, &fixture()).unwrap();
    assert_eq!(run.start_position, 0);
    assert!(run.kv.is_empty());
    let rows: Vec<Vec<i32>> =
        run.rows.iter().map(|r| unpack_i32s(&r.values).unwrap()).collect();
    assert_eq!(
        rows,
        vec![vec![1000, 1001, 1002, 1003], vec![100, 101, 102, 103], vec![1100, 1101, 1102, 1103]]
    );
    assert_eq!(run.rows[2].token_id, 11);
}

#[test]
fn a_row_that_crosses_pages_fails_the_run() {
    // Pages of one and a half rows.
    let table = EmbeddingTable {
        hidden_size: 2,
        embedding_scale: ONE,
        values: Bytes::paged(&pack_i32_bytes(&[1, 2, 3, 4, 5, 6]), 12),
    };
    let ok = embed_prompt(&PromptTokenization { token_ids: vec![0] }, &table).unwrap();
    assert_eq!(ok.rows.len(), 1);
    assert!(embed_prompt(&PromptTokenization { token_ids: vec![0, 1] }, &table).is_err());
}

#[test]
fn offsets_and_checks() {
    assert_eq!(embedding_byte_offset(3, 4), 48);
    assert_eq!(assert_all_tokens_embedded(0, &String::new()), Ok(0));
    assert!(assert_all_tokens_embedded(2, &"first".to_string()).unwrap_err().contains("first"));
}
