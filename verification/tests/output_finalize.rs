use raster_chain_inference::decode::DecodeEdge;
use raster_chain_inference::output_finalize::{
    advance_finalize_state, byte_fallback, consume_decoder_token, finalize_output,
    finish_finalize_state, hex_nibble, initial_finalize_state, validate_decode_edge, DecoderTable,
    DecoderToken,
};

fn word(text: &str) -> DecoderToken {
    DecoderToken { token: text.to_string(), special: false, terminal: false }
}

fn end_of_turn() -> DecoderToken {
    DecoderToken { token: "<turn|>".to_string(), special: true, terminal: true }
}

#[test]
fn text_ends_at_the_terminal_token_and_the_transcript_does_not() {
    let mut state = initial_finalize_state();
    state = advance_finalize_state(state, 229361, word("ZK"));
    state = advance_finalize_state(state, 106, end_of_turn());
    state = advance_finalize_state(state, 105, word("more"));

    assert!(state.stopped);
    // The answer stops where the model stopped ...
    assert_eq!(state.text, "ZK");
    // ... while every generated id stays in the count and the committed stream.
    assert_eq!(state.count, 3);
    assert_eq!(state.json, "[229361,106,105");
}

#[test]
fn a_run_with_no_terminal_token_stays_open() {
    let mut state = initial_finalize_state();
    state = advance_finalize_state(state, 229361, word("ZK"));

    assert!(!state.stopped);
    assert_eq!(state.text, "ZK");
}

fn table() -> DecoderTable {
    DecoderTable {
        tokens: vec![
            word("\u{2581}hello"),
            word("<0xE2>"),
            word("<0x82>"),
            word("<0xAC>"),
            DecoderToken { token: "<pad>".to_string(), special: true, terminal: false },
            end_of_turn(),
            word("<0xFF>"),
        ],
    }
}

fn edge(ids: Vec<u32>) -> DecodeEdge {
    DecodeEdge {
        has_selected: !ids.is_empty(),
        decode_position: 9,
        token_id: 0,
        value: 0,
        generated_token_ids: ids,
    }
}

#[test]
fn bytes_tokens_decode_together() {
    let out = finalize_output(&edge(vec![0, 1, 2, 3, 4, 0]), &table()).unwrap();
    assert_eq!(out.generated_token_count, 6);
    assert_eq!(out.generated_token_ids, vec![0, 1, 2, 3, 4, 0]);
    assert_eq!(out.generated_text, " hello\u{20ac} hello");
    assert_eq!(out.stop_reason, "max_new_tokens");
}

#[test]
fn an_invalid_byte_is_replaced() {
    let out = finalize_output(&edge(vec![6]), &table()).unwrap();
    assert_eq!(out.generated_text, "\u{fffd}");
}

#[test]
fn a_terminal_token_is_the_stop_reason() {
    let out = finalize_output(&edge(vec![0, 5, 0]), &table()).unwrap();
    assert_eq!(out.generated_text, " hello");
    assert_eq!(out.stop_reason, "eos");
    assert_eq!(out.generated_token_count, 3);
}

#[test]
fn the_digest_is_of_the_id_list() {
    let out = finalize_output(&edge(vec![]), &table()).unwrap();
    assert_eq!(out.generated_token_count, 0);
    assert_eq!(out.generated_text, "");
    // SHA-256 of "[]".
    assert_eq!(
        out.generated_token_ids_sha256,
        "4f53cda18c2baa0c0354bb5f9a3ecbe5ed12ab4d8e11ba873c2f11161202b945"
    );
}

#[test]
fn a_selection_flag_must_agree_with_the_transcript() {
    assert_eq!(validate_decode_edge(true, 2), Ok(2));
    assert_eq!(validate_decode_edge(false, 0), Ok(0));
    assert!(validate_decode_edge(true, 0).is_err());
    assert!(validate_decode_edge(false, 1).is_err());
    let mut wrong = edge(vec![0]);
    wrong.has_selected = false;
    assert!(finalize_output(&wrong, &table()).is_err());
}

#[test]
fn byte_tokens_are_recognised_exactly() {
    assert_eq!(byte_fallback("<0x0A>"), Some(10));
    assert_eq!(byte_fallback("<0xff>"), Some(255));
    assert_eq!(byte_fallback("<0xG0>"), None);
    assert_eq!(byte_fallback("<0x0A"), None);
    assert_eq!(byte_fallback("0x0A"), None);
    assert_eq!(hex_nibble(b'f'), Some(15));
    assert_eq!(hex_nibble(b'F'), Some(15));
    assert_eq!(hex_nibble(b'g'), None);
}

#[test]
fn consuming_in_pieces_gives_the_same_state() {
    let mut a = initial_finalize_state();
    for (id, token) in [(0u32, word("a")), (1, word("<0x41>")), (2, word("b"))] {
        a = consume_decoder_token(a, id, token);
    }
    let a = finish_finalize_state(a);
    assert_eq!(a.text, "aAb");
    assert_eq!(a.json, "[0,1,2]");
}
