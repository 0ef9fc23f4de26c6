//! The tokenizer's and the decoder's externals, out of a model's `tokenizer.json`.

use crate::lists::{views, views_of_empty, views_of_push};
use crate::model_import::buckets::{
    bucket_count, bucket_merges, bucket_vocab, merge_table, vocab_table,
};
use crate::model_import::json::{Json, JsonView, Member};
use crate::model_import::order::{
    same_items_same_views, sorted, text_in_order, text_le, text_le_total, text_le_transitive,
    Lexicon, Ranked,
};
use crate::model_import::prompt::{
    has_turns, leading_special, render_gemma_turns, rendered, split, split_prompt, starts_with,
    supports_gemma_turns, the_first_special_wins,
};
use crate::model_import::shape::{add_id, ascending_ids, low32};
use crate::output_finalize::{DecoderTable, DecoderToken, DecoderView};
use crate::prompt_prepare::{BpeMerge, BpePieces, EntryView, PromptTokenizer, RuleView, TokenEntry};
use crate::text::{chars_of, text_of};
use vstd::prelude::*;
use vstd::utf8::encode_utf8;

verus! {

/// A vocabulary entry of a tokenizer file; a value that is no id stands for zero.
pub open spec fn entry_of(member: (Seq<char>, JsonView)) -> EntryView {
    EntryView {
        token: member.0,
        id: match member.1.as_u64() {
            Some(v) => low32(v),
            None => 0,
        },
    }
}

/// The vocabulary entries of a tokenizer file, as they stand in it, or why it has
/// none.
pub open spec fn file_entries(doc: JsonView) -> Result<Seq<EntryView>, Seq<char>> {
    match doc.get("model"@) {
        None => Err("tokenizer.json has no model"@),
        Some(model) => match model.get("vocab"@) {
            Some(JsonView::Object(members)) => Ok(
                Seq::new(members.len(), |i: int| entry_of(members[i])),
            ),
            _ => Err("tokenizer.json has no vocab"@),
        },
    }
}

/// Order of vocabulary entries: by id, then by token.
pub open spec fn entry_le(a: EntryView, b: EntryView) -> bool {
    a.id < b.id || (a.id == b.id && text_le(a.token, b.token))
}

/// Entries in order.
pub open spec fn entries_ascending(entries: Seq<EntryView>) -> bool {
    forall|i: int, j: int|
        #![trigger entries[i], entries[j]]
        0 <= i < j < entries.len() ==> entry_le(entries[i], entries[j])
}

impl Ranked for TokenEntry {
    /// By id, then by token.
    open spec fn ranks_before(&self, other: &TokenEntry) -> bool {
        entry_le(self@, other@)
    }

    proof fn total(a: &TokenEntry, b: &TokenEntry) {
        text_le_total(a@.token, b@.token);
    }

    proof fn transitive(a: &TokenEntry, b: &TokenEntry, c: &TokenEntry) {
        if a@.id == b@.id && b@.id == c@.id {
            text_le_transitive(a@.token, b@.token, c@.token);
        }
    }

    fn in_order(&self, other: &TokenEntry) -> (r: bool) {
        self.id < other.id || (self.id == other.id && text_in_order(
            self.token.as_str(),
            other.token.as_str(),
        ))
    }
}

/// The vocabulary of a tokenizer file, by id and then by token.
pub fn vocabulary(doc: &Json) -> (r: Result<Vec<TokenEntry>, String>)
    ensures
        match file_entries(doc@) {
            Ok(entries) => r matches Ok(vocab) && entries_ascending(views(vocab@)) && views(
                vocab@,
            ).to_multiset() == entries.to_multiset(),
            Err(e) => r matches Err(s) && s@ == e,
        },
{
    let model: &Json = match doc.get("model") {
        Some(model) => model,
        None => return Err(String::from_str("tokenizer.json has no model")),
    };
    let members: &Vec<Member> = match model.get("vocab") {
        Some(vocab) => match vocab.as_object() {
            Some(members) => members,
            None => return Err(String::from_str("tokenizer.json has no vocab")),
        },
        None => return Err(String::from_str("tokenizer.json has no vocab")),
    };
    let ghost all = file_entries(doc@)->Ok_0;
    let mut vocab: Vec<TokenEntry> = Vec::new();
    let mut i: usize = 0;
    while i < members.len()
        invariant
            i <= members@.len(),
            vocab@.len() == i,
            all.len() == members@.len(),
            forall|j: int| 0 <= j < members@.len() ==> #[trigger] all[j] == entry_of(members@[j]@),
            forall|j: int| 0 <= j < i ==> (#[trigger] vocab@[j])@ == all[j],
        decreases members@.len() - i,
    {
        let id: u32 = match members[i].value.as_u64() {
            Some(v) => (v % 0x1_0000_0000) as u32,
            None => 0,
        };
        vocab.push(TokenEntry { token: String::from_str(members[i].key.as_str()), id });
        assert(vocab@[i as int]@ =~= all[i as int]);
        i += 1;
    }
    assert(views(vocab@) =~= all);
    let ghost start = vocab@;
    let vocab: Vec<TokenEntry> = sorted(vocab);
    proof {
        same_items_same_views(vocab@, start);
        let entries = views(vocab@);
        assert forall|i: int, j: int|
            #![trigger entries[i], entries[j]]
            0 <= i < j < entries.len() implies entry_le(entries[i], entries[j]) by {
            assert(vocab@[i].ranks_before(&vocab@[j]));
        }
    }
    Ok(vocab)
}

/// Whether some added tokens hold a special one with an id.
pub open spec fn is_special(added: Seq<JsonView>, id: u32) -> bool {
    exists|i: int|
        0 <= i < added.len() && #[trigger] added[i].flag_at("special"@) && (added[i].u64_at("id"@)
            matches Some(v) && low32(v) == id)
}

/// The texts of the special tokens among some added tokens, in order.
pub open spec fn special_texts(added: Seq<JsonView>) -> Seq<Seq<char>>
    decreases added.len(),
{
    if added.len() == 0 {
        Seq::empty()
    } else {
        let rest = special_texts(added.drop_last());
        match added.last().text_at("content"@) {
            Some(s) => if added.last().flag_at("special"@) {
                rest.push(s)
            } else {
                rest
            },
            None => rest,
        }
    }
}

/// Order in which special tokens are tried: longer texts first, in bytes, then by
/// text.
pub open spec fn tried_before(a: Seq<char>, b: Seq<char>) -> bool {
    let m = encode_utf8(a).len();
    let n = encode_utf8(b).len();
    m > n || (m == n && text_le(a, b))
}

/// Texts in the order in which they are tried.
pub open spec fn longest_first(tokens: Seq<Seq<char>>) -> bool {
    forall|i: int, j: int|
        #![trigger tokens[i], tokens[j]]
        0 <= i < j < tokens.len() ==> tried_before(tokens[i], tokens[j])
}

/// A special token, ranked by the order in which it is tried.
pub struct SpecialToken {
    pub text: String,
}

impl View for SpecialToken {
    type V = Seq<char>;

    open spec fn view(&self) -> Seq<char> {
        self.text@
    }
}

impl Ranked for SpecialToken {
    /// Longer texts first, then by text.
    open spec fn ranks_before(&self, other: &SpecialToken) -> bool {
        tried_before(self@, other@)
    }

    proof fn total(a: &SpecialToken, b: &SpecialToken) {
        text_le_total(a@, b@);
    }

    proof fn transitive(a: &SpecialToken, b: &SpecialToken, c: &SpecialToken) {
        if encode_utf8(a@).len() == encode_utf8(c@).len() {
            text_le_transitive(a@, b@, c@);
        }
    }

    fn in_order(&self, other: &SpecialToken) -> (r: bool) {
        let m: usize = self.text.as_str().as_bytes().len();
        let n: usize = other.text.as_str().as_bytes().len();
        m > n || (m == n && text_in_order(self.text.as_str(), other.text.as_str()))
    }
}

fn no_items() -> (r: Vec<Json>)
    ensures
        views(r@) == Seq::<JsonView>::empty(),
{
    broadcast use views_of_empty;

    Vec::new()
}

/// The ids of the special tokens of a tokenizer file, in ascending order.
pub fn special_ids(doc: &Json) -> (r: Vec<u32>)
    ensures
        ascending_ids(r@),
        forall|id: u32| #[trigger]
            r@.contains(id) <==> is_special(doc@.items_at("added_tokens"@), id),
{
    let none: Vec<Json> = no_items();
    let added: &Vec<Json> = match doc.get("added_tokens") {
        Some(value) => match value.as_list() {
            Some(items) => items,
            None => &none,
        },
        None => &none,
    };
    let ghost all = views(added@);
    assert(all == doc@.items_at("added_tokens"@));
    let mut ids: Vec<u32> = Vec::new();
    let mut i: usize = 0;
    assert(forall|id: u32| !is_special(all.take(0), id));
    while i < added.len()
        invariant
            i <= added@.len(),
            all == views(added@),
            ascending_ids(ids@),
            forall|id: u32| #[trigger] ids@.contains(id) <==> is_special(all.take(i as int), id),
        decreases added@.len() - i,
    {
        let ghost before = ids@;
        assert(all[i as int] == added@[i as int]@);
        let mut new_id: Option<u32> = None;
        if added[i].flag_at("special") {
            match added[i].u64_at("id") {
                Some(v) => {
                    new_id = Some((v % 0x1_0000_0000) as u32);
                },
                None => {},
            }
        }
        proof {
            let head = all.take(i as int);
            let more = all.take(i + 1);
            assert forall|id: u32| #[trigger] is_special(more, id) <==> is_special(head, id)
                || new_id == Some(id) by {
                if is_special(head, id) {
                    let k = choose|k: int|
                        0 <= k < head.len() && #[trigger] head[k].flag_at("special"@) && (
                        head[k].u64_at("id"@) matches Some(v) && low32(v) == id);
                    assert(more[k].flag_at("special"@));
                }
                if new_id == Some(id) {
                    assert(more[i as int].flag_at("special"@));
                }
                if is_special(more, id) {
                    let k = choose|k: int|
                        0 <= k < more.len() && #[trigger] more[k].flag_at("special"@) && (
                        more[k].u64_at("id"@) matches Some(v) && low32(v) == id);
                    if k < i {
                        assert(head[k].flag_at("special"@));
                    }
                }
            }
        }
        match new_id {
            Some(id) => {
                add_id(&mut ids, id);
            },
            None => {},
        }
        i += 1;
    }
    assert(all.take(i as int) =~= all);
    ids
}

/// The texts of the special tokens of a tokenizer file, longest first.
pub fn special_tokens(doc: &Json) -> (r: Vec<String>)
    ensures
        longest_first(views(r@)),
        views(r@).to_multiset() == special_texts(doc@.items_at("added_tokens"@)).to_multiset(),
{
    broadcast use views_of_push;
    broadcast use views_of_empty;

    let none: Vec<Json> = no_items();
    let added: &Vec<Json> = match doc.get("added_tokens") {
        Some(value) => match value.as_list() {
            Some(items) => items,
            None => &none,
        },
        None => &none,
    };
    let ghost all = views(added@);
    let mut found: Vec<SpecialToken> = Vec::new();
    let mut i: usize = 0;
    assert(all.take(0) =~= Seq::empty());
    while i < added.len()
        invariant
            i <= added@.len(),
            all == views(added@),
            views(found@) == special_texts(all.take(i as int)),
        decreases added@.len() - i,
    {
        broadcast use views_of_push;

        assert(all.take(i + 1).drop_last() =~= all.take(i as int));
        assert(all.take(i + 1).last() == added@[i as int]@);
        if added[i].flag_at("special") {
            match added[i].text_at("content") {
                Some(s) => {
                    found.push(SpecialToken { text: String::from_str(s.as_str()) });
                },
                None => {},
            }
        }
        i += 1;
    }
    assert(all.take(i as int) =~= all);
    let ghost start = found@;
    let found: Vec<SpecialToken> = sorted(found);
    proof {
        same_items_same_views(found@, start);
    }
    let mut r: Vec<String> = Vec::new();
    let mut i: usize = 0;
    while i < found.len()
        invariant
            i <= found@.len(),
            r@.len() == i,
            forall|j: int| 0 <= j < i ==> (#[trigger] r@[j])@ == found@[j]@,
        decreases found@.len() - i,
    {
        r.push(String::from_str(found[i].text.as_str()));
        i += 1;
    }
    proof {
        assert(views(r@) =~= views(found@));
        let tokens = views(r@);
        assert forall|i: int, j: int|
            #![trigger tokens[i], tokens[j]]
            0 <= i < j < tokens.len() implies tried_before(tokens[i], tokens[j]) by {
            assert(found@[i].ranks_before(&found@[j]));
        }
    }
    r
}

/// Of the special tokens that a text starts with, the longest is taken.
pub proof fn the_longest_special_wins(s: Seq<char>, specials: Seq<Seq<char>>, other: int)
    requires
        longest_first(specials),
        0 <= other < specials.len(),
        starts_with(s, specials[other]),
    ensures
        leading_special(s, specials) matches Some(token) && encode_utf8(token).len() >= encode_utf8(
            specials[other],
        ).len(),
{
    the_first_special_wins(s, specials);
    if leading_special(s, specials) is Some {
        let token = leading_special(s, specials)->0;
        let k = choose|k: int|
            0 <= k < specials.len() && #[trigger] specials[k] == token && starts_with(s, token)
                && forall|j: int| 0 <= j < k ==> !starts_with(s, #[trigger] specials[j]);
        if k < other {
            assert(tried_before(specials[k], specials[other]));
        }
    }
}

/// The place of the first space of a text, or its length.
pub open spec fn first_space(s: Seq<char>) -> int
    decreases s.len(),
{
    if s.len() == 0 || s[0] == ' ' {
        0
    } else {
        1 + first_space(s.drop_first())
    }
}

/// A merge rule out of its two sides.
pub open spec fn rule_of(rank: u32, left: Seq<char>, right: Seq<char>) -> RuleView {
    RuleView { rank, left, right, merged: left + right }
}

/// A merge rule of a tokenizer file, written `"left right"` or `["left", "right"]`.
pub open spec fn merge_rule(rank: u32, entry: JsonView) -> Option<RuleView> {
    match entry {
        JsonView::Text(s) => {
            let k = first_space(s);
            if k < s.len() {
                Some(rule_of(rank, s.take(k), s.skip(k + 1)))
            } else {
                None
            }
        },
        JsonView::List(pair) => if pair.len() == 2 {
            match (pair[0].as_text(), pair[1].as_text()) {
                (Some(left), Some(right)) => Some(rule_of(rank, left, right)),
                _ => None,
            }
        } else {
            None
        },
        _ => None,
    }
}

proof fn lemma_first_space(s: Seq<char>, k: int)
    requires
        0 <= k <= s.len(),
        forall|j: int| 0 <= j < k ==> s[j] != ' ',
        k < s.len() ==> s[k] == ' ',
    ensures
        first_space(s) == k,
    decreases s.len(),
{
    if k > 0 {
        assert(s[0] != ' ');
        let rest = s.drop_first();
        assert forall|j: int| 0 <= j < k - 1 implies rest[j] != ' ' by {
            assert(s[j + 1] != ' ');
        }
        lemma_first_space(rest, k - 1);
    }
}

fn made_rule(rank: u32, left: String, right: String) -> (r: BpeMerge)
    ensures
        r@ == rule_of(rank, left@, right@),
{
    let merged: String = String::from_str(left.as_str()).concat(right.as_str());
    BpeMerge { rank, left, right, merged }
}

/// Reads one merge rule.
pub fn parse_merge(rank: u32, entry: &Json) -> (r: Option<BpeMerge>)
    ensures
        match merge_rule(rank, entry@) {
            Some(rule) => r matches Some(found) && found@ == rule,
            None => r is None,
        },
{
    match entry.as_text() {
        Some(text) => {
            let chars: Vec<char> = chars_of(text.as_str());
            let mut k: usize = 0;
            while k < chars.len() && chars[k] != ' '
                invariant
                    k <= chars@.len(),
                    forall|j: int| 0 <= j < k ==> chars@[j] != ' ',
                decreases chars@.len() - k,
            {
                k += 1;
            }
            proof {
                lemma_first_space(chars@, k as int);
            }
            if k == chars.len() {
                return None;
            }
            let left: String = text_of(&chars[0..k]);
            let right: String = text_of(&chars[k + 1..chars.len()]);
            assert(left@ =~= chars@.take(k as int));
            assert(right@ =~= chars@.skip(k + 1));
            return Some(made_rule(rank, left, right));
        },
        None => {},
    }
    match entry.as_list() {
        Some(pair) => {
            if pair.len() != 2 {
                return None;
            }
            let ghost all = views(pair@);
            assert(all[0] == pair@[0]@ && all[1] == pair@[1]@);
            let left: String = match pair[0].as_text() {
                Some(s) => String::from_str(s.as_str()),
                None => return None,
            };
            let right: String = match pair[1].as_text() {
                Some(s) => String::from_str(s.as_str()),
                None => return None,
            };
            Some(made_rule(rank, left, right))
        },
        None => None,
    }
}

/// The merge rules among the first `n` entries of a merge list; an entry's rank is
/// its place, also behind entries that are no rules.
pub open spec fn merge_rules(items: Seq<JsonView>, n: nat) -> Seq<RuleView>
    decreases n,
{
    if n == 0 {
        Seq::empty()
    } else {
        let rest = merge_rules(items, (n - 1) as nat);
        match merge_rule(low32((n - 1) as u64), items[n - 1]) {
            Some(rule) => rest.push(rule),
            None => rest,
        }
    }
}

/// The merge rules of a tokenizer file.
pub open spec fn file_rules(doc: JsonView) -> Seq<RuleView> {
    match doc.get("model"@) {
        Some(model) => merge_rules(model.items_at("merges"@), model.items_at("merges"@).len()),
        None => Seq::empty(),
    }
}

/// The merge rules of a tokenizer file; none where it has no merge list.
pub fn merges(doc: &Json) -> (r: Vec<BpeMerge>)
    ensures
        views(r@) == file_rules(doc@),
{
    broadcast use views_of_push;
    broadcast use views_of_empty;

    let none: Vec<Json> = no_items();
    let items: &Vec<Json> = match doc.get("model") {
        Some(model) => match model.get("merges") {
            Some(value) => match value.as_list() {
                Some(items) => items,
                None => &none,
            },
            None => &none,
        },
        None => &none,
    };
    let ghost all = views(items@);
    assert(file_rules(doc@) == merge_rules(all, all.len())) by {
        assert(none@.len() == views(none@).len());
        match doc@.get("model"@) {
            Some(model) => {
                assert(all == model.items_at("merges"@));
            },
            None => {
                assert(all.len() == 0);
            },
        }
    }
    let mut rules: Vec<BpeMerge> = Vec::new();
    let mut i: usize = 0;
    while i < items.len()
        invariant
            i <= items@.len(),
            all == views(items@),
            views(rules@) == merge_rules(all, i as nat),
        decreases items@.len() - i,
    {
        broadcast use views_of_push;

        assert(all[i as int] == items@[i as int]@);
        match parse_merge((i as u64 % 0x1_0000_0000) as u32, &items[i]) {
            Some(rule) => {
                rules.push(rule);
            },
            None => {},
        }
        i += 1;
    }
    rules
}

/// The greatest id of a vocabulary, zero for an empty one.
pub open spec fn max_id(entries: Seq<EntryView>) -> u32
    decreases entries.len(),
{
    if entries.len() == 0 {
        0
    } else {
        let rest = max_id(entries.drop_last());
        if entries.last().id > rest {
            entries.last().id
        } else {
            rest
        }
    }
}

/// A decoder row: the last entry with the id, or an empty row.
pub open spec fn decoder_row(
    entries: Seq<EntryView>,
    special: Seq<u32>,
    eos: Seq<u32>,
    id: int,
) -> DecoderView
    decreases entries.len(),
{
    if entries.len() == 0 {
        DecoderView { token: Seq::empty(), special: false, terminal: false }
    } else if entries.last().id == id {
        DecoderView {
            token: entries.last().token,
            special: special.contains(entries.last().id),
            terminal: eos.contains(entries.last().id),
        }
    } else {
        decoder_row(entries.drop_last(), special, eos, id)
    }
}

/// The decoder of a vocabulary: a row for each id up to the greatest.
pub open spec fn decoder_rows(entries: Seq<EntryView>, special: Seq<u32>, eos: Seq<u32>) -> Seq<
    DecoderView,
> {
    Seq::new((max_id(entries) + 1) as nat, |id: int| decoder_row(entries, special, eos, id))
}

proof fn lemma_max_id(entries: Seq<EntryView>, i: int)
    requires
        0 <= i < entries.len(),
    ensures
        entries[i].id <= max_id(entries),
    decreases entries.len(),
{
    if i < entries.len() - 1 {
        lemma_max_id(entries.drop_last(), i);
    }
}

/// The decoder knows every token of the vocabulary: the row of an entry's id holds
/// its text, if no later entry has that id.
pub proof fn the_decoder_knows_every_token(
    entries: Seq<EntryView>,
    special: Seq<u32>,
    eos: Seq<u32>,
    i: int,
)
    requires
        0 <= i < entries.len(),
        forall|j: int| i < j < entries.len() ==> #[trigger] entries[j].id != entries[i].id,
    ensures
        ({
            let row = decoder_rows(entries, special, eos)[entries[i].id as int];
            &&& entries[i].id < decoder_rows(entries, special, eos).len()
            &&& row.token == entries[i].token
            &&& row.special == special.contains(entries[i].id)
            &&& row.terminal == eos.contains(entries[i].id)
        }),
{
    lemma_max_id(entries, i);
    lemma_last_entry(entries, special, eos, i);
}

proof fn lemma_last_entry(entries: Seq<EntryView>, special: Seq<u32>, eos: Seq<u32>, i: int)
    requires
        0 <= i < entries.len(),
        forall|j: int| i < j < entries.len() ==> #[trigger] entries[j].id != entries[i].id,
    ensures
        decoder_row(entries, special, eos, entries[i].id as int) == (DecoderView {
            token: entries[i].token,
            special: special.contains(entries[i].id),
            terminal: eos.contains(entries[i].id),
        }),
    decreases entries.len(),
{
    if i < entries.len() - 1 {
        assert(entries[entries.len() - 1].id != entries[i].id);
        lemma_last_entry(entries.drop_last(), special, eos, i);
    }
}

fn holds(ids: &Vec<u32>, id: u32) -> (r: bool)
    ensures
        r == ids@.contains(id),
{
    let mut i: usize = 0;
    while i < ids.len()
        invariant
            i <= ids@.len(),
            forall|j: int| 0 <= j < i ==> ids@[j] != id,
        decreases ids@.len() - i,
    {
        if ids[i] == id {
            return true;
        }
        i += 1;
    }
    false
}

/// The decoder of a vocabulary.
pub fn decoder_table(vocab: &Vec<TokenEntry>, special: &Vec<u32>, eos: &Vec<u32>) -> (r:
    DecoderTable)
    requires
        forall|i: int| 0 <= i < vocab@.len() ==> (#[trigger] vocab@[i]).id < u32::MAX,
    ensures
        views(r.tokens@) == decoder_rows(views(vocab@), special@, eos@),
{
    let ghost all = views(vocab@);
    let mut max: u32 = 0;
    let mut i: usize = 0;
    assert(all.take(0) =~= Seq::empty());
    while i < vocab.len()
        invariant
            i <= vocab@.len(),
            all == views(vocab@),
            max == max_id(all.take(i as int)),
            max < u32::MAX,
            forall|i: int| 0 <= i < vocab@.len() ==> (#[trigger] vocab@[i]).id < u32::MAX,
        decreases vocab@.len() - i,
    {
        assert(all.take(i + 1).drop_last() =~= all.take(i as int));
        assert(all.take(i + 1).last() == vocab@[i as int]@);
        if vocab[i].id > max {
            max = vocab[i].id;
        }
        i += 1;
    }
    assert(all.take(i as int) =~= all);
    let mut tokens: Vec<DecoderToken> = Vec::new();
    let mut k: u32 = 0;
    let rows: u32 = max + 1;
    while k < rows
        invariant
            k <= rows,
            tokens@.len() == k,
            forall|j: int|
                0 <= j < k ==> (#[trigger] tokens@[j])@ == decoder_row(
                    Seq::empty(),
                    special@,
                    eos@,
                    j,
                ),
        decreases rows - k,
    {
        let row: DecoderToken = DecoderToken {
            token: String::new(),
            special: false,
            terminal: false,
        };
        assert(row@ =~= decoder_row(Seq::empty(), special@, eos@, k as int));
        tokens.push(row);
        k += 1;
    }
    let mut i: usize = 0;
    assert(all.take(0) =~= Seq::empty());
    while i < vocab.len()
        invariant
            i <= vocab@.len(),
            all == views(vocab@),
            max == max_id(all),
            tokens@.len() == max + 1,
            forall|j: int|
                0 <= j <= max ==> (#[trigger] tokens@[j])@ == decoder_row(
                    all.take(i as int),
                    special@,
                    eos@,
                    j,
                ),
        decreases vocab@.len() - i,
    {
        proof {
            assert(all.take(i + 1).drop_last() =~= all.take(i as int));
            assert(all.take(i + 1).last() == vocab@[i as int]@);
            assert(all[i as int].id == vocab@[i as int].id);
            lemma_max_id(all, i as int);
        }
        let id: u32 = vocab[i].id;
        let row: DecoderToken = DecoderToken {
            token: String::from_str(vocab[i].token.as_str()),
            special: holds(special, id),
            terminal: holds(eos, id),
        };
        assert(row@ =~= decoder_row(all.take(i + 1), special@, eos@, id as int));
        tokens.set(id as usize, row);
        i += 1;
    }
    assert(all.take(i as int) =~= all);
    assert(views(tokens@) =~= decoder_rows(all, special@, eos@));
    DecoderTable { tokens }
}

/// What a tokenizer file holds.
pub struct TokenizerSource {
    /// By id, then by token.
    pub vocab: Vec<TokenEntry>,
    pub merges: Vec<BpeMerge>,
    pub special_ids: Vec<u32>,
    /// Longest first.
    pub special_tokens: Vec<String>,
}

/// Reads a tokenizer file.
pub fn tokenizer_source(doc: &Json) -> (r: Result<TokenizerSource, String>)
    ensures
        match file_entries(doc@) {
            Ok(entries) => {
                &&& r is Ok
                &&& entries_ascending(views(r->Ok_0.vocab@))
                &&& views(r->Ok_0.vocab@).to_multiset() == entries.to_multiset()
                &&& views(r->Ok_0.merges@) == file_rules(doc@)
                &&& ascending_ids(r->Ok_0.special_ids@)
                &&& forall|id: u32| #[trigger]
                    r->Ok_0.special_ids@.contains(id) <==> is_special(
                        doc@.items_at("added_tokens"@),
                        id,
                    )
                &&& longest_first(views(r->Ok_0.special_tokens@))
                &&& views(r->Ok_0.special_tokens@).to_multiset() == special_texts(
                    doc@.items_at("added_tokens"@),
                ).to_multiset()
            },
            Err(e) => r matches Err(s) && s@ == e,
        },
{
    let vocab: Vec<TokenEntry> = match vocabulary(doc) {
        Ok(vocab) => vocab,
        Err(e) => return Err(e),
    };
    Ok(
        TokenizerSource {
            vocab,
            merges: merges(doc),
            special_ids: special_ids(doc),
            special_tokens: special_tokens(doc),
        },
    )
}

/// The tokens of a vocabulary.
pub open spec fn tokens_of(entries: Seq<EntryView>) -> Seq<Seq<char>> {
    Seq::new(entries.len(), |i: int| entries[i].token)
}

/// The externals of the tokenizing and the finalizing stage.
pub struct TokenizerPlan {
    pub decoder: DecoderTable,
    pub tokenizer: PromptTokenizer,
    pub pieces: BpePieces,
    /// Whether the prompt was rendered as a turn.
    pub templated: bool,
    pub rendered: String,
}

/// Whether a prompt is rendered as a turn: unless the caller or the vocabulary
/// forbids it.
pub open spec fn is_templated(entries: Seq<EntryView>, raw_prompt: bool) -> bool {
    !raw_prompt && has_turns(tokens_of(entries))
}

/// The text that is committed for a prompt.
pub open spec fn committed_prompt(entries: Seq<EntryView>, prompt: Seq<char>, raw_prompt: bool) -> Seq<
    char,
> {
    if is_templated(entries, raw_prompt) {
        rendered(prompt)
    } else {
        prompt
    }
}

/// The pieces that are committed for a prompt: special tokens stay whole where the
/// prompt is rendered as a turn.
pub open spec fn committed_pieces(
    entries: Seq<EntryView>,
    special_tokens: Seq<Seq<char>>,
    prompt: Seq<char>,
    raw_prompt: bool,
) -> Seq<Seq<char>> {
    split(
        committed_prompt(entries, prompt, raw_prompt),
        tokens_of(entries),
        if is_templated(entries, raw_prompt) {
            special_tokens
        } else {
            Seq::empty()
        },
    )
}

proof fn lemma_split_by_set(
    s: Seq<char>,
    a: Seq<Seq<char>>,
    b: Seq<Seq<char>>,
    specials: Seq<Seq<char>>,
)
    requires
        forall|w: Seq<char>| #[trigger] a.contains(w) == b.contains(w),
    ensures
        split(s, a, specials) == split(s, b, specials),
    decreases s.len(),
{
    if s.len() > 0 {
        match leading_special(s, specials) {
            Some(token) => {
                if 0 < token.len() <= s.len() {
                    lemma_split_by_set(s.skip(token.len() as int), a, b, specials);
                }
            },
            None => {
                lemma_split_by_set(s.drop_first(), a, b, specials);
            },
        }
    }
}

fn lexicon_of(vocab: &Vec<TokenEntry>) -> (r: Lexicon)
    ensures
        forall|w: Seq<char>| #[trigger]
            r.words().contains(w) == tokens_of(views(vocab@)).contains(w),
{
    let ghost tokens = tokens_of(views(vocab@));
    let mut words: Vec<String> = Vec::new();
    let mut i: usize = 0;
    while i < vocab.len()
        invariant
            i <= vocab@.len(),
            words@.len() == i,
            tokens == tokens_of(views(vocab@)),
            forall|j: int| 0 <= j < i ==> (#[trigger] words@[j])@ == tokens[j],
        decreases vocab@.len() - i,
    {
        words.push(String::from_str(vocab[i].token.as_str()));
        i += 1;
    }
    assert(views(words@) =~= tokens);
    let r: Lexicon = Lexicon::new(words);
    assert forall|w: Seq<char>| #[trigger] r.words().contains(w) == tokens.contains(w) by {
        vstd::seq_lib::to_multiset_contains(r.words(), w);
        vstd::seq_lib::to_multiset_contains(tokens, w);
    }
    r
}

/// The externals of the tokenizing and the finalizing stage, for one prompt.
pub fn plan_tokenizer(
    source: TokenizerSource,
    eos: &Vec<u32>,
    prompt: &str,
    raw_prompt: bool,
) -> (r: TokenizerPlan)
    requires
        forall|i: int| 0 <= i < source.vocab@.len() ==> (#[trigger] source.vocab@[i]).id < u32::MAX,
        is_templated(views(source.vocab@), raw_prompt) ==> forall|i: int|
            0 <= i < source.special_tokens@.len() ==> (#[trigger] source.special_tokens@[i])@.len()
                > 0,
        bucket_count(source.vocab@.len()) > 0,
        bucket_count(source.merges@.len()) > 0,
    ensures
        views(r.decoder.tokens@) == decoder_rows(
            views(source.vocab@),
            source.special_ids@,
            eos@,
        ),
        r.tokenizer.well_formed(),
        r.tokenizer@.vocab_buckets == vocab_table(
            views(source.vocab@),
            bucket_count(source.vocab@.len()),
        ),
        r.tokenizer@.merge_buckets == merge_table(
            views(source.merges@),
            bucket_count(source.merges@.len()),
        ),
        r.templated == is_templated(views(source.vocab@), raw_prompt),
        r.rendered@ == committed_prompt(views(source.vocab@), prompt@, raw_prompt),
        views(r.pieces.pieces@) == committed_pieces(
            views(source.vocab@),
            views(source.special_tokens@),
            prompt@,
            raw_prompt,
        ),
{
    broadcast use views_of_empty;

    let lexicon: Lexicon = lexicon_of(&source.vocab);
    let decoder: DecoderTable = decoder_table(&source.vocab, &source.special_ids, eos);
    let templated: bool = !raw_prompt && supports_gemma_turns(&lexicon);
    let ghost tokens = tokens_of(views(source.vocab@));
    assert(has_turns(lexicon.words()) == has_turns(tokens));
    let rendered: String = if templated {
        render_gemma_turns(prompt)
    } else {
        String::from_str(prompt)
    };
    let pieces: Vec<String> = if templated {
        split_prompt(rendered.as_str(), &lexicon, &source.special_tokens)
    } else {
        let none: Vec<String> = Vec::new();
        split_prompt(rendered.as_str(), &lexicon, &none)
    };
    proof {
        lemma_split_by_set(
            rendered@,
            lexicon.words(),
            tokens,
            if templated {
                views(source.special_tokens@)
            } else {
                Seq::empty()
            },
        );
    }
    let (vocab_bucket_count, vocab_buckets) = bucket_vocab(source.vocab);
    let (merge_bucket_count, merge_buckets) = bucket_merges(source.merges);
    TokenizerPlan {
        decoder,
        tokenizer: PromptTokenizer {
            vocab_bucket_count,
            merge_bucket_count,
            vocab_buckets,
            merge_buckets,
        },
        pieces: BpePieces { pieces },
        templated,
        rendered,
    }
}

} // verus!
