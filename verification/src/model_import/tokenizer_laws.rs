//! What a tokenizer file and a prompt come to, entry by entry and piece by piece.

use crate::model_import::json::JsonView;
use crate::model_import::order::text_le;
use crate::model_import::prompt::{
    a_byte_token_reads_back, char_pieces, is_space, leading_special, rendered, split, trimmed,
    trimmed_end, trimmed_start,
};
use crate::model_import::tokenizer::{
    committed_pieces, committed_prompt, decoder_row, decoder_rows, entry_le, file_entries,
    first_space, is_special, is_templated, max_id, merge_rule, merge_rules, special_texts,
    tokens_of, tried_before,
};
use crate::output_finalize::{fallback_byte, DecoderView};
use crate::prompt_prepare::{EntryView, RuleView};
use vstd::prelude::*;
use vstd::utf8::encode_utf8;

verus! {

/// White space is the ASCII blanks, the two blanks of Latin-1 and the separators of
/// Unicode.
pub proof fn white_space_is_blanks_and_separators(c: char)
    ensures
        (c as u32) < 0x80 ==> (is_space(c) <==> c == ' ' || c == '\t' || c == '\n' || c == '\r'
            || c == '\u{b}' || c == '\u{c}'),
        0x80 <= (c as u32) < 0x1000 ==> (is_space(c) <==> c == '\u{85}' || c == '\u{a0}'),
        (c as u32) >= 0x1000 ==> (is_space(c) <==> c == '\u{1680}' || '\u{2000}' <= c <= '\u{200a}'
            || c == '\u{2028}' || c == '\u{2029}' || c == '\u{202f}' || c == '\u{205f}' || c
            == '\u{3000}'),
{
}

/// Whether a text is what is left of another without the white space around it.
pub open spec fn is_trimmed(s: Seq<char>, left: Seq<char>, a: int, b: int) -> bool {
    &&& 0 <= a <= b <= s.len()
    &&& left == s.subrange(a, b)
    &&& forall|i: int| 0 <= i < a ==> is_space(#[trigger] s[i])
    &&& forall|i: int| b <= i < s.len() ==> is_space(#[trigger] s[i])
    &&& a < b ==> !is_space(s[a]) && !is_space(s[b - 1])
}

/// Trimming takes the white space around a text and nothing else.
pub proof fn trimming_takes_the_white_space_around(s: Seq<char>)
    ensures
        exists|a: int, b: int| is_trimmed(s, trimmed(s), a, b),
{
    let a = lemma_start(s);
    let rest = trimmed_start(s);
    let n = lemma_end(rest);
    let b = a + n;
    assert(rest.take(n) =~= s.subrange(a, b));
    assert forall|i: int| b <= i < s.len() implies is_space(#[trigger] s[i]) by {
        assert(rest[i - a] == s[i]);
    }
    if a < b {
        assert(rest[0] == s[a]);
        assert(rest[n - 1] == s[b - 1]);
    }
    assert(is_trimmed(s, trimmed(s), a, b));
}

proof fn lemma_start(s: Seq<char>) -> (a: int)
    ensures
        0 <= a <= s.len(),
        trimmed_start(s) == s.skip(a),
        forall|i: int| 0 <= i < a ==> is_space(#[trigger] s[i]),
        a < s.len() ==> !is_space(s[a]),
    decreases s.len(),
{
    if s.len() > 0 && is_space(s[0]) {
        let rest = s.drop_first();
        let k = lemma_start(rest);
        assert(rest.skip(k) =~= s.skip(k + 1));
        assert forall|i: int| 0 <= i < k + 1 implies is_space(#[trigger] s[i]) by {
            if i > 0 {
                assert(rest[i - 1] == s[i]);
            }
        }
        if k + 1 < s.len() {
            assert(rest[k] == s[k + 1]);
        }
        k + 1
    } else {
        assert(s.skip(0) =~= s);
        0
    }
}

proof fn lemma_end(s: Seq<char>) -> (n: int)
    ensures
        0 <= n <= s.len(),
        trimmed_end(s) == s.take(n),
        forall|i: int| n <= i < s.len() ==> is_space(#[trigger] s[i]),
        n > 0 ==> !is_space(s[n - 1]),
    decreases s.len(),
{
    if s.len() > 0 && is_space(s.last()) {
        let rest = s.drop_last();
        let k = lemma_end(rest);
        assert(rest.take(k) =~= s.take(k));
        assert forall|i: int| k <= i < s.len() implies is_space(#[trigger] s[i]) by {
            if i < s.len() - 1 {
                assert(rest[i] == s[i]);
            }
        }
        if k > 0 {
            assert(rest[k - 1] == s[k - 1]);
        }
        k
    } else {
        assert(s.take(s.len() as int) =~= s);
        s.len() as int
    }
}

/// A templated prompt is the trimmed prompt as the user's turn, behind the start of the
/// sequence, and the opening of the model's turn.
pub proof fn a_templated_prompt_is_one_user_turn(prompt: Seq<char>)
    ensures
        exists|a: int, b: int| #[trigger]
            is_trimmed(prompt, prompt.subrange(a, b), a, b) && rendered(prompt)
                == "<bos><|turn>user\n"@ + prompt.subrange(a, b) + "<turn|>\n<|turn>model\n"@,
{
    trimming_takes_the_white_space_around(prompt);
    let (a, b) = choose|a: int, b: int| is_trimmed(prompt, trimmed(prompt), a, b);
    assert(is_trimmed(prompt, prompt.subrange(a, b), a, b));
}

/// A prompt is templated unless it is asked for raw or the vocabulary lacks one of the
/// tokens of the turn format; only a templated prompt is searched for special tokens.
pub proof fn when_a_prompt_is_templated(
    entries: Seq<EntryView>,
    specials: Seq<Seq<char>>,
    prompt: Seq<char>,
    raw: bool,
)
    ensures
        ({
            let words = tokens_of(entries);
            let templated = !raw && words.contains("<bos>"@) && words.contains("<|turn>"@)
                && words.contains("<turn|>"@) && words.contains("\n"@);
            &&& is_templated(entries, raw) == templated
            &&& templated ==> committed_prompt(entries, prompt, raw) == rendered(prompt)
                && committed_pieces(entries, specials, prompt, raw) == split(
                rendered(prompt),
                words,
                specials,
            )
            &&& !templated ==> committed_prompt(entries, prompt, raw) == prompt
                && committed_pieces(entries, specials, prompt, raw) == split(
                prompt,
                words,
                Seq::empty(),
            )
        }),
{
}

/// A character that the vocabulary has is one piece, a space as its mark; any other is
/// one byte token for each byte of its UTF-8.
pub proof fn a_character_is_one_piece_or_its_bytes(c: char, words: Seq<Seq<char>>)
    ensures
        ({
            let mark = if c == ' ' {
                '\u{2581}'
            } else {
                c
            };
            let pieces = char_pieces(c, words);
            let bytes = encode_utf8(seq![mark]);
            &&& words.contains(seq![mark]) ==> pieces == seq![seq![mark]]
            &&& !words.contains(seq![mark]) ==> pieces.len() == bytes.len() && forall|i: int|
                0 <= i < bytes.len() ==> fallback_byte(encode_utf8(#[trigger] pieces[i])) == Some(
                    bytes[i],
                )
        }),
{
    let mark = if c == ' ' {
        '\u{2581}'
    } else {
        c
    };
    let bytes = encode_utf8(seq![mark]);
    if !words.contains(seq![mark]) {
        assert forall|i: int| 0 <= i < bytes.len() implies fallback_byte(
            encode_utf8(#[trigger] char_pieces(c, words)[i]),
        ) == Some(bytes[i]) by {
            a_byte_token_reads_back(bytes[i]);
        }
    }
}

/// How a prompt is split: a special token that it starts with is one piece, else its
/// first character is split off; at the end comes the terminator.
pub proof fn a_prompt_is_split_from_the_left(
    s: Seq<char>,
    words: Seq<Seq<char>>,
    specials: Seq<Seq<char>>,
)
    requires
        forall|i: int| 0 <= i < specials.len() ==> (#[trigger] specials[i]).len() > 0,
    ensures
        s.len() == 0 ==> split(s, words, specials) == seq!["</w>"@],
        s.len() > 0 && leading_special(s, specials) is None ==> split(s, words, specials)
            == char_pieces(s[0], words) + split(s.drop_first(), words, specials),
        leading_special(s, specials) matches Some(token) ==> s.len() > 0 && s == token + s.skip(
            token.len() as int,
        ) && split(s, words, specials) == seq![token] + split(
            s.skip(token.len() as int),
            words,
            specials,
        ),
{
    crate::model_import::prompt::the_first_special_wins(s, specials);
    if let Some(token) = leading_special(s, specials) {
        let k = choose|k: int|
            0 <= k < specials.len() && #[trigger] specials[k] == token
                && crate::model_import::prompt::starts_with(s, token) && forall|j: int|
                0 <= j < k ==> !crate::model_import::prompt::starts_with(s, #[trigger] specials[j]);
        assert(token.len() > 0);
        assert(s =~= s.take(token.len() as int) + s.skip(token.len() as int));
    }
}

/// The vocabulary has an entry for every member of the file's, with its text and its id.
pub proof fn every_member_is_an_entry(doc: JsonView)
    ensures
        match doc.get("model"@) {
            Some(model) => match model.get("vocab"@) {
                Some(JsonView::Object(members)) => file_entries(doc) matches Ok(entries)
                    && entries.len() == members.len() && forall|i: int|
                    0 <= i < members.len() ==> (#[trigger] entries[i]).token == members[i].0 && (
                    members[i].1 matches JsonView::Number(Some(v)) ==> v <= u32::MAX
                        ==> entries[i].id == v),
                _ => file_entries(doc) == Err::<Seq<EntryView>, Seq<char>>(
                    "tokenizer.json has no vocab"@,
                ),
            },
            None => file_entries(doc) == Err::<Seq<EntryView>, Seq<char>>(
                "tokenizer.json has no model"@,
            ),
        },
{
}

/// A merge rule written as one text is cut at its first space, one written as a list is
/// its two texts; either way it makes the two sides one piece.
pub proof fn a_merge_rule_joins_its_sides(rank: u32, left: Seq<char>, right: Seq<char>)
    requires
        !left.contains(' '),
    ensures
        ({
            let rule = RuleView { rank, left, right, merged: left + right };
            &&& merge_rule(rank, JsonView::Text(left + seq![' '] + right)) == Some(rule)
            &&& merge_rule(
                rank,
                JsonView::List(seq![JsonView::Text(left), JsonView::Text(right)]),
            ) == Some(rule)
            &&& merge_rule(rank, JsonView::Text(left)) is None
        }),
{
    let s = left + seq![' '] + right;
    lemma_space_at(s, left.len() as int);
    assert(s.take(left.len() as int) =~= left);
    assert(s.skip(left.len() as int + 1) =~= right);
    lemma_space_at(left, left.len() as int);
}

proof fn lemma_space_at(s: Seq<char>, k: int)
    requires
        0 <= k <= s.len(),
        !s.take(k).contains(' '),
        k < s.len() ==> s[k] == ' ',
    ensures
        first_space(s) == k,
    decreases s.len(),
{
    if k > 0 {
        let head = s.take(k);
        assert(head.contains(head[0]));
        let rest = s.drop_first();
        assert(!rest.take(k - 1).contains(' ')) by {
            if rest.take(k - 1).contains(' ') {
                let j = rest.take(k - 1).index_of(' ');
                assert(head[j + 1] == ' ');
                assert(head.contains(' '));
            }
        }
        lemma_space_at(rest, k - 1);
    }
}

/// Rules are ranked by their place in the list: where every entry is a rule, the rule at
/// a place has that rank.
pub proof fn rules_are_ranked_by_place(items: Seq<JsonView>, n: nat)
    requires
        n <= items.len(),
        n <= u32::MAX,
        forall|i: int| 0 <= i < n ==> merge_rule(i as u32, #[trigger] items[i]) is Some,
    ensures
        merge_rules(items, n).len() == n,
        forall|i: int|
            0 <= i < n ==> merge_rule(i as u32, items[i]) == Some(#[trigger] merge_rules(items, n)[i]),
    decreases n,
{
    if n > 0 {
        rules_are_ranked_by_place(items, (n - 1) as nat);
        assert(merge_rule((n - 1) as u32, items[n - 1]) is Some);
        let rest = merge_rules(items, (n - 1) as nat);
        assert forall|i: int| 0 <= i < n implies merge_rule(i as u32, items[i]) == Some(
            #[trigger] merge_rules(items, n)[i],
        ) by {
            if i < n - 1 {
                assert(merge_rules(items, n)[i] == rest[i]);
            }
        }
    }
}

/// The special texts are the contents of the added tokens that are marked special.
pub proof fn special_texts_are_those_marked(added: Seq<JsonView>, text: Seq<char>)
    ensures
        special_texts(added).contains(text) <==> exists|i: int|
            0 <= i < added.len() && (#[trigger] added[i]).get("special"@) == Some(
                JsonView::Bool(true),
            ) && added[i].get("content"@) == Some(JsonView::Text(text)),
    decreases added.len(),
{
    if added.len() > 0 {
        let rest = added.drop_last();
        let n = added.len() - 1;
        special_texts_are_those_marked(rest, text);
        let before = special_texts(rest);
        let all = special_texts(added);
        if all.contains(text) {
            let k = all.index_of(text);
            if k < before.len() {
                assert(before[k] == text);
                let i = choose|i: int|
                    0 <= i < rest.len() && (#[trigger] rest[i]).get("special"@) == Some(
                        JsonView::Bool(true),
                    ) && rest[i].get("content"@) == Some(JsonView::Text(text));
                assert(added[i] == rest[i]);
            } else {
                assert(added[n].get("content"@) == Some(JsonView::Text(text)));
            }
        }
        if exists|i: int|
            0 <= i < added.len() && (#[trigger] added[i]).get("special"@) == Some(
                JsonView::Bool(true),
            ) && added[i].get("content"@) == Some(JsonView::Text(text)) {
            let i = choose|i: int|
                0 <= i < added.len() && (#[trigger] added[i]).get("special"@) == Some(
                    JsonView::Bool(true),
                ) && added[i].get("content"@) == Some(JsonView::Text(text));
            if i < n {
                assert(rest[i] == added[i]);
                assert(before.contains(text));
                assert(all[before.index_of(text)] == text);
            } else {
                assert(all[before.len() as int] == text);
            }
        }
    }
}

/// An id is special exactly if an added token with that id is marked so.
pub proof fn special_ids_are_those_marked(added: Seq<JsonView>, id: u32)
    requires
        forall|i: int|
            0 <= i < added.len() ==> ((#[trigger] added[i]).u64_at("id"@) matches Some(v) ==> v
                <= u32::MAX),
    ensures
        is_special(added, id) <==> exists|i: int|
            0 <= i < added.len() && (#[trigger] added[i]).get("special"@) == Some(
                JsonView::Bool(true),
            ) && added[i].u64_at("id"@) == Some(id as u64),
{
    if is_special(added, id) {
        let i = choose|i: int|
            0 <= i < added.len() && #[trigger] added[i].flag_at("special"@) && (added[i].u64_at(
                "id"@,
            ) matches Some(v) && crate::model_import::shape::low32(v) == id);
        assert(added[i].get("special"@) == Some(JsonView::Bool(true)));
    }
    if exists|i: int|
        0 <= i < added.len() && (#[trigger] added[i]).get("special"@) == Some(JsonView::Bool(true))
            && added[i].u64_at("id"@) == Some(id as u64) {
        let i = choose|i: int|
            0 <= i < added.len() && (#[trigger] added[i]).get("special"@) == Some(
                JsonView::Bool(true),
            ) && added[i].u64_at("id"@) == Some(id as u64);
        assert(added[i].flag_at("special"@));
    }
}

/// The decoder has a row for every id up to the greatest of the vocabulary; the row of an
/// id that no entry has is empty, neither special nor terminal.
pub proof fn the_decoder_has_a_row_for_every_id(
    entries: Seq<EntryView>,
    special: Seq<u32>,
    eos: Seq<u32>,
)
    ensures
        ({
            let rows = decoder_rows(entries, special, eos);
            &&& forall|i: int| 0 <= i < entries.len() ==> (#[trigger] entries[i]).id < rows.len()
            &&& entries.len() > 0 ==> exists|i: int|
                0 <= i < entries.len() && (#[trigger] entries[i]).id + 1 == rows.len()
            &&& forall|id: int|
                0 <= id < rows.len() && (forall|i: int|
                    0 <= i < entries.len() ==> (#[trigger] entries[i]).id != id)
                    ==> #[trigger] rows[id] == (DecoderView {
                    token: Seq::empty(),
                    special: false,
                    terminal: false,
                })
        }),
{
    lemma_greatest(entries);
    let rows = decoder_rows(entries, special, eos);
    assert forall|id: int|
        0 <= id < rows.len() && (forall|i: int|
            0 <= i < entries.len() ==> (#[trigger] entries[i]).id != id) implies #[trigger] rows[id]
        == (DecoderView { token: Seq::empty(), special: false, terminal: false }) by {
        lemma_no_row(entries, special, eos, id);
    }
}

proof fn lemma_greatest(entries: Seq<EntryView>)
    ensures
        forall|i: int| 0 <= i < entries.len() ==> (#[trigger] entries[i]).id <= max_id(entries),
        entries.len() > 0 ==> exists|i: int|
            0 <= i < entries.len() && (#[trigger] entries[i]).id == max_id(entries),
    decreases entries.len(),
{
    if entries.len() > 0 {
        let rest = entries.drop_last();
        let n = entries.len() - 1;
        lemma_greatest(rest);
        assert forall|i: int| 0 <= i < entries.len() implies (#[trigger] entries[i]).id <= max_id(
            entries,
        ) by {
            if i < n {
                assert(rest[i] == entries[i]);
            }
        }
        if entries[n].id > max_id(rest) || n == 0 {
            assert(entries[n].id == max_id(entries));
        } else {
            let i = choose|i: int|
                0 <= i < rest.len() && (#[trigger] rest[i]).id == max_id(rest);
            assert(entries[i].id == max_id(entries));
        }
    }
}

proof fn lemma_no_row(entries: Seq<EntryView>, special: Seq<u32>, eos: Seq<u32>, id: int)
    requires
        forall|i: int| 0 <= i < entries.len() ==> (#[trigger] entries[i]).id != id,
    ensures
        decoder_row(entries, special, eos, id) == (DecoderView {
            token: Seq::empty(),
            special: false,
            terminal: false,
        }),
    decreases entries.len(),
{
    if entries.len() > 0 {
        assert(entries[entries.len() - 1].id != id);
        lemma_no_row(entries.drop_last(), special, eos, id);
    }
}

/// Vocabulary entries go by id, and by text where two have one id.
pub proof fn entries_go_by_id(a: EntryView, b: EntryView)
    ensures
        a.id < b.id ==> entry_le(a, b) && !entry_le(b, a),
        a.id == b.id ==> (entry_le(a, b) <==> text_le(a.token, b.token)),
{
}

/// Of two special tokens the one with more bytes is tried first, and of two with as many
/// the one that comes first by its text.
pub proof fn longer_tokens_are_tried_first(a: Seq<char>, b: Seq<char>)
    ensures
        encode_utf8(a).len() > encode_utf8(b).len() ==> tried_before(a, b) && !tried_before(b, a),
        encode_utf8(a).len() == encode_utf8(b).len() ==> (tried_before(a, b) <==> text_le(a, b)),
{
}

} // verus!
