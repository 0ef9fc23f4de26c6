use raster_chain_inference::model_import::buckets::{bucket_merges, bucket_vocab};
use raster_chain_inference::prompt_prepare::{
    assert_merges_converged, fnv1a64, fnv1a64_continue, merge_bucket_of, tokenize_prompt,
    vocab_bucket_of, BpeMerge, BpePieces, MergeBucket, PromptTokenizer, TokenEntry, VocabBucket,
};

fn entry(token: &str, id: u32) -> TokenEntry {
    TokenEntry { token: token.to_string(), id }
}

fn rule(rank: u32, left: &str, right: &str) -> BpeMerge {
    BpeMerge {
        rank,
        left: left.to_string(),
        right: right.to_string(),
        merged: format!("{left}{right}"),
    }
}

fn tokenizer(vocab: Vec<TokenEntry>, merges: Vec<BpeMerge>) -> PromptTokenizer {
    let (vocab_bucket_count, vocab_buckets) = bucket_vocab(vocab);
    let (merge_bucket_count, merge_buckets) = bucket_merges(merges);
    PromptTokenizer { vocab_bucket_count, merge_bucket_count, vocab_buckets, merge_buckets }
}

fn pieces(items: &[&str]) -> BpePieces {
    BpePieces { pieces: items.iter().map(|s| s.to_string()).collect() }
}

#[test]
fn the_fixture_prompt_tokenizes() {
    let t = tokenizer(
        vec![entry("\u{2581}", 1), entry("hello", 10), entry("world", 11)],
        vec![
            rule(0, "h", "e"),
            rule(1, "he", "l"),
            rule(2, "hel", "l"),
            rule(3, "hell", "o"),
            rule(4, "w", "o"),
            rule(5, "wo", "r"),
            rule(6, "wor", "l"),
            rule(7, "worl", "d"),
        ],
    );
    let ids = tokenize_prompt(
        &t,
        pieces(&["h", "e", "l", "l", "o", "\u{2581}", "w", "o", "r", "l", "d", "</w>"]),
    )
    .unwrap();
    assert_eq!(ids.token_ids, vec![10, 1, 11]);
}

#[test]
fn without_rules_every_piece_stands() {
    let vocab = vec![
        entry("\u{2581}", 3),
        entry("r", 5),
        entry("o", 6),
        entry("t", 8),
        entry("h", 9),
        entry("e", 10),
        entry("l", 11),
        entry("a", 14),
        entry("s", 15),
    ];
    let t = tokenizer(vocab, vec![]);
    let ids = tokenize_prompt(
        &t,
        pieces(&["h", "e", "l", "l", "o", "\u{2581}", "r", "a", "s", "t", "e", "r", "</w>"]),
    )
    .unwrap();
    assert_eq!(ids.token_ids, vec![9, 10, 11, 11, 6, 3, 5, 14, 15, 8, 10, 5]);
}

#[test]
fn an_unknown_piece_is_unk() {
    let t = tokenizer(vec![entry("a", 7)], vec![]);
    let ids = tokenize_prompt(&t, pieces(&["a", "?", "</w>"])).unwrap();
    assert_eq!(ids.token_ids, vec![7, 0]);
}

#[test]
fn the_lowest_rank_wins() {
    let t = PromptTokenizer {
        vocab_bucket_count: 1,
        merge_bucket_count: 1,
        vocab_buckets: vec![VocabBucket { entries: vec![entry("ab", 1), entry("AB", 2)] }],
        merge_buckets: vec![MergeBucket {
            rules: vec![
                BpeMerge { merged: "AB".to_string(), ..rule(5, "a", "b") },
                rule(2, "a", "b"),
            ],
        }],
    };
    let ids = tokenize_prompt(&t, pieces(&["a", "b", "</w>"])).unwrap();
    assert_eq!(ids.token_ids, vec![1]);
}

#[test]
fn a_prompt_that_needs_more_rounds_is_refused() {
    // Only the last pair merges in each round: a tail of letters grows by one.
    let letters = ["a", "b", "c", "d", "e", "f", "g", "h", "i", "j", "k"];
    let mut rules = vec![];
    let mut tail = String::from("k");
    for (rank, letter) in letters[..10].iter().rev().enumerate() {
        rules.push(rule(rank as u32, letter, &tail));
        tail = format!("{letter}{tail}");
    }
    let t = tokenizer(vec![entry(&tail, 5)], rules.clone());
    let mut input: Vec<&str> = letters.to_vec();
    input.push("</w>");
    assert_eq!(
        tokenize_prompt(&t, pieces(&input)).err().unwrap(),
        "1 adjacent pair(s) would still merge after the last round; the merge unroll in `main` is too short for this prompt"
    );
    let t = tokenizer(vec![entry("cdefghijk", 5)], rules);
    let ids = tokenize_prompt(&t, pieces(&input[2..])).unwrap();
    assert_eq!(ids.token_ids, vec![5]);
    assert_eq!(assert_merges_converged(0), Ok(0));
    assert!(assert_merges_converged(3).is_err());
}

#[test]
fn hashes_are_fnv1a() {
    assert_eq!(fnv1a64(b""), 0xcbf2_9ce4_8422_2325);
    assert_eq!(fnv1a64(b"a"), 0xaf63_dc4c_8601_ec8c);
    assert_eq!(fnv1a64(b"foobar"), 0x8594_4171_f739_67e8);
    assert_eq!(fnv1a64_continue(fnv1a64(b"foo"), b"bar"), fnv1a64(b"foobar"));
    assert_eq!(vocab_bucket_of("foobar", 10), (0x8594_4171_f739_67e8u64 % 10) as u32);
    assert_eq!(vocab_bucket_of("foobar", 0), 0);
    assert_eq!(merge_bucket_of("foo", "bar", 0), 0);
    assert_ne!(merge_bucket_of("foo", "bar", 1 << 31), merge_bucket_of("fo", "obar", 1 << 31));
}

#[test]
fn bucketing_does_not_change_tokenization() {
    let vocab = || -> Vec<TokenEntry> {
        let mut all: Vec<TokenEntry> =
            (0..300u32).map(|i| entry(&format!("w{i}"), i + 20)).collect();
        all.push(entry("ab", 1));
        all.push(entry("c", 2));
        all
    };
    let rules = || -> Vec<BpeMerge> {
        let mut all: Vec<BpeMerge> = vec![rule(0, "a", "b")];
        all.extend((1..300u32).map(|i| rule(i, &format!("x{i}"), "y")));
        all
    };
    let many = tokenizer(vocab(), rules());
    assert!(many.vocab_bucket_count > 1 && many.merge_bucket_count > 1);
    let one = PromptTokenizer {
        vocab_bucket_count: 1,
        merge_bucket_count: 1,
        vocab_buckets: vec![VocabBucket { entries: vocab() }],
        merge_buckets: vec![MergeBucket { rules: rules() }],
    };
    for prompt in [&["a", "b", "c", "</w>"][..], &["w7", "q", "</w>"][..], &["x3", "y", "</w>"][..]] {
        assert_eq!(
            tokenize_prompt(&many, pieces(prompt)).unwrap().token_ids,
            tokenize_prompt(&one, pieces(prompt)).unwrap().token_ids,
        );
    }
    assert_eq!(
        tokenize_prompt(&many, pieces(&["a", "b", "c", "</w>"])).unwrap().token_ids,
        vec![1, 2]
    );
}
