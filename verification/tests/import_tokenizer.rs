use raster_chain_inference::model_import::buckets::{bucket_count_for, bucket_stats};
use raster_chain_inference::model_import::json::{read_json, Json, Member};
use raster_chain_inference::model_import::order::Lexicon;
use raster_chain_inference::model_import::prompt::{
    render_gemma_turns, split_prompt, supports_gemma_turns, trim,
};
use raster_chain_inference::model_import::shape::{eos_ids, load_eos_ids, load_shape};
use raster_chain_inference::model_import::tokenizer::{
    parse_merge, plan_tokenizer, tokenizer_source,
};
use raster_chain_inference::output_finalize::byte_fallback;
use raster_chain_inference::prompt_prepare::tokenize_prompt;

fn lexicon(words: &[&str]) -> Lexicon {
    Lexicon::new(words.iter().map(|w| w.to_string()).collect())
}

#[test]
fn documents_are_read() {
    let doc = read_json(br#"{"b": [1, -2, 1.5, "x", null, true], "a": {"k": 18446744073709551615}}"#)
        .unwrap();
    let b = doc.get("b").unwrap().as_list().unwrap();
    assert_eq!(b.iter().map(|j| j.as_u64()).collect::<Vec<_>>(), vec![Some(1), None, None, None, None, None]);
    assert_eq!(b[3].as_text().unwrap(), "x");
    assert!(matches!(b[4], Json::Null));
    assert_eq!(b[5].as_bool(), Some(true));
    assert_eq!(doc.get("a").unwrap().u64_at("k"), Some(u64::MAX));
    assert!(doc.get("c").is_none());
    assert_eq!(doc.as_object().unwrap()[0].key, "a");
    let err = read_json(b"{").err().unwrap();
    assert_eq!(err, "EOF while parsing an object at line 1 column 1");
}

#[test]
fn shapes_come_from_the_text_configuration() {
    let text = br#"{"text_config": {"hidden_size": 4, "num_hidden_layers": 2,
        "num_attention_heads": 2, "num_key_value_heads": 1, "head_dim": 8, "vocab_size": 280,
        "hidden_size_per_layer_input": 2, "num_kv_shared_layers": 1, "sliding_window": 512,
        "layer_types": ["sliding_attention", 7, "full_attention"]}}"#;
    let s = load_shape(text).unwrap();
    assert_eq!((s.hidden, s.layers, s.heads, s.kv_heads), (4, 2, 2, 1));
    assert_eq!((s.head_dim, s.global_head_dim, s.vocab, s.ple_width), (8, 8, 280, 2));
    assert_eq!((s.num_kv_shared_layers, s.sliding_window), (1, 512));
    assert_eq!(s.layer_types, vec!["sliding_attention", "full_attention"]);
    assert!(s.is_sliding(0) && !s.is_sliding(1) && !s.is_sliding(9));
    assert_eq!(load_shape(b"{}").err().unwrap(), "config.json has no text_config");
    assert_eq!(
        load_shape(br#"{"text_config": {"hidden_size": 4}}"#).err().unwrap(),
        "config.json text_config has no num_hidden_layers"
    );
    assert!(load_shape(b"nope").is_err());
}

#[test]
fn end_ids_are_a_set() {
    assert_eq!(load_eos_ids(br#"{"eos_token_id": [106, 1, 106, "x"]}"#), vec![1, 106]);
    assert_eq!(load_eos_ids(br#"{"eos_token_id": 7}"#), vec![7]);
    assert_eq!(load_eos_ids(br#"{"text_config": {"eos_token_id": 3}}"#), vec![3]);
    assert_eq!(
        load_eos_ids(br#"{"eos_token_id": null, "text_config": {"eos_token_id": 3}}"#),
        Vec::<u32>::new()
    );
    assert_eq!(load_eos_ids(b"["), Vec::<u32>::new());
    let doc = Json::Object(vec![Member {
        key: "eos_token_id".to_string(),
        value: Json::Number(Some(5)),
    }]);
    assert_eq!(eos_ids(&doc), vec![5]);
}

#[test]
fn prompts_are_rendered_as_a_turn() {
    assert_eq!(
        render_gemma_turns(" \n What is ZK?\u{3000}"),
        "<bos><|turn>user\nWhat is ZK?<turn|>\n<|turn>model\n"
    );
    assert_eq!(trim("\u{a0}a b\u{2009}"), "a b");
    assert_eq!(trim(" \t "), "");
    assert!(supports_gemma_turns(&lexicon(&["\n", "<turn|>", "<|turn>", "<bos>", "x"])));
    assert!(!supports_gemma_turns(&lexicon(&["<turn|>", "<|turn>", "<bos>", "x"])));
}

#[test]
fn prompts_are_split() {
    let vocab = lexicon(&["a", "\u{2581}", "<|turn>"]);
    let specials = vec!["<|turn>".to_string()];
    assert_eq!(
        split_prompt("a <|turn>a", &vocab, &specials),
        vec!["a", "\u{2581}", "<|turn>", "a", "</w>"]
    );
    assert_eq!(
        split_prompt("\u{20ac}", &vocab, &vec![]),
        vec!["<0xE2>", "<0x82>", "<0xAC>", "</w>"]
    );
    // A space that the vocabulary lacks is spelled as its marker.
    assert_eq!(
        split_prompt(" ", &lexicon(&["a"]), &vec![]),
        vec!["<0xE2>", "<0x96>", "<0x81>", "</w>"]
    );
    assert_eq!(split_prompt("", &vocab, &vec![]), vec!["</w>"]);
    let spelled: Vec<u8> = split_prompt("\u{20ac}", &vocab, &vec![])
        .iter()
        .filter_map(|p| byte_fallback(p))
        .collect();
    assert_eq!(spelled, "\u{20ac}".as_bytes());
}

#[test]
fn merge_rules_come_in_two_forms() {
    let text = parse_merge(4, &Json::Text("he l lo".to_string())).unwrap();
    assert_eq!((text.rank, text.left.as_str(), text.right.as_str()), (4, "he", "l lo"));
    assert_eq!(text.merged, "hel lo");
    let pair = Json::List(vec![Json::Text("a".to_string()), Json::Text(" b".to_string())]);
    assert_eq!(parse_merge(0, &pair).unwrap().merged, "a b");
    assert!(parse_merge(0, &Json::Text("ab".to_string())).is_none());
    assert!(parse_merge(0, &Json::List(vec![Json::Null, Json::Null])).is_none());
    assert!(parse_merge(0, &Json::List(vec![])).is_none());
    assert!(parse_merge(0, &Json::Bool(true)).is_none());
}

const TOKENIZER: &[u8] = br#"{
    "added_tokens": [
        {"id": 2, "content": "<bos>", "special": true},
        {"id": 3, "content": "<|turn>", "special": true},
        {"id": 4, "content": "<turn|>", "special": true},
        {"id": 9, "content": "plain", "special": false}
    ],
    "model": {
        "vocab": {"\n": 1, "<bos>": 2, "<|turn>": 3, "<turn|>": 4, "u": 5, "s": 6, "e": 7,
            "r": 8, "us": 10, "hi": 11, "h": 12, "i": 13},
        "merges": ["u s", "broken", ["h", "i"]]
    }
}"#;

#[test]
fn a_tokenizer_file_becomes_externals() {
    let source = tokenizer_source(&read_json(TOKENIZER).unwrap()).unwrap();
    assert_eq!(source.vocab.iter().map(|e| e.id).collect::<Vec<_>>(), vec![1, 2, 3, 4, 5, 6, 7, 8, 10, 11, 12, 13]);
    assert_eq!(source.special_ids, vec![2, 3, 4]);
    assert_eq!(source.special_tokens, vec!["<turn|>", "<|turn>", "<bos>"]);
    assert_eq!(source.merges.iter().map(|m| m.rank).collect::<Vec<_>>(), vec![0, 2]);
    let plan = plan_tokenizer(source, &vec![4], " hi ", false);
    assert!(plan.templated);
    assert_eq!(plan.rendered, "<bos><|turn>user\nhi<turn|>\n<|turn>model\n");
    assert_eq!(
        &plan.pieces.pieces[..10],
        &["<bos>", "<|turn>", "u", "s", "e", "r", "\n", "h", "i", "<turn|>"]
    );
    assert_eq!(plan.decoder.tokens.len(), 14);
    assert_eq!(plan.decoder.tokens[0].token, "");
    assert_eq!(plan.decoder.tokens[11].token, "hi");
    assert!(plan.decoder.tokens[3].special && !plan.decoder.tokens[3].terminal);
    assert!(plan.decoder.tokens[4].special && plan.decoder.tokens[4].terminal);
    assert!(!plan.decoder.tokens[9].special);
    let ids = tokenize_prompt(&plan.tokenizer, plan.pieces).unwrap();
    assert_eq!(&ids.token_ids[..8], &[2, 3, 10, 7, 8, 1, 11, 4]);
}

#[test]
fn a_raw_prompt_is_committed_as_given() {
    let source = tokenizer_source(&read_json(TOKENIZER).unwrap()).unwrap();
    let plan = plan_tokenizer(source, &vec![], "hi<", true);
    assert!(!plan.templated);
    assert_eq!(plan.rendered, "hi<");
    assert_eq!(plan.pieces.pieces, vec!["h", "i", "<0x3C>", "</w>"]);
}

#[test]
fn a_vocabulary_without_turns_takes_the_bare_prompt() {
    let doc = read_json(br#"{"model": {"vocab": {"b": 1, "a": 1, "c": "x"}}}"#).unwrap();
    let source = tokenizer_source(&doc).unwrap();
    assert_eq!(
        source.vocab.iter().map(|e| (e.token.as_str(), e.id)).collect::<Vec<_>>(),
        vec![("c", 0), ("a", 1), ("b", 1)]
    );
    let plan = plan_tokenizer(source, &vec![], " a", false);
    assert!(!plan.templated);
    assert_eq!(plan.rendered, " a");
    // Of two tokens with one id the later stays.
    assert_eq!(plan.decoder.tokens[1].token, "b");
}

#[test]
fn a_tokenizer_file_without_its_tables_is_refused() {
    let err = |text: &[u8]| tokenizer_source(&read_json(text).unwrap()).err().unwrap();
    assert_eq!(err(b"{}"), "tokenizer.json has no model");
    assert_eq!(err(br#"{"model": {"vocab": []}}"#), "tokenizer.json has no vocab");
}

#[test]
fn buckets_are_counted() {
    assert_eq!(bucket_count_for(0), 1);
    assert_eq!(bucket_count_for(7), 1);
    assert_eq!(bucket_count_for(280), 70);
    let stats = bucket_stats(&vec![3, 0, 5, 1]);
    assert_eq!((stats.total, stats.max, stats.used), (9, 5, 3));
}
