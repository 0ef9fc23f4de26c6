//! A prompt as the tokenizing stage wants it: rendered as a turn, and split into
//! initial pieces.

use crate::lists::{views, views_of_empty, views_of_push};
use crate::model_import::order::Lexicon;
use crate::output_finalize::fallback_byte;
use crate::text::{chars_of, text_of};
use vstd::prelude::*;
use vstd::utf8::{encode_scalar, encode_utf8};

verus! {

/// Whether a character is white space in the sense of the Unicode property
/// `White_Space`.
pub open spec fn is_space(c: char) -> bool {
    let u = c as u32;
    ||| 0x09 <= u <= 0x0d
    ||| u == 0x20
    ||| u == 0x85
    ||| u == 0xa0
    ||| u == 0x1680
    ||| 0x2000 <= u <= 0x200a
    ||| u == 0x2028
    ||| u == 0x2029
    ||| u == 0x202f
    ||| u == 0x205f
    ||| u == 0x3000
}

/// A text without its leading white space.
pub open spec fn trimmed_start(s: Seq<char>) -> Seq<char>
    decreases s.len(),
{
    if s.len() > 0 && is_space(s[0]) {
        trimmed_start(s.drop_first())
    } else {
        s
    }
}

/// A text without its trailing white space.
pub open spec fn trimmed_end(s: Seq<char>) -> Seq<char>
    decreases s.len(),
{
    if s.len() > 0 && is_space(s.last()) {
        trimmed_end(s.drop_last())
    } else {
        s
    }
}

/// A text without the white space around it.
pub open spec fn trimmed(s: Seq<char>) -> Seq<char> {
    trimmed_end(trimmed_start(s))
}

fn white_space(c: char) -> (r: bool)
    ensures
        r == is_space(c),
{
    let u: u32 = c as u32;
    (0x09 <= u && u <= 0x0d) || u == 0x20 || u == 0x85 || u == 0xa0 || u == 0x1680 || (0x2000 <= u
        && u <= 0x200a) || u == 0x2028 || u == 0x2029 || u == 0x202f || u == 0x205f || u == 0x3000
}

/// A text without the white space around it.
pub fn trim(s: &str) -> (r: String)
    ensures
        r@ == trimmed(s@),
{
    let chars: Vec<char> = chars_of(s);
    let ghost all = chars@;
    let mut start: usize = 0;
    assert(all.skip(0) =~= all);
    while start < chars.len() && white_space(chars[start])
        invariant
            start <= chars@.len(),
            all == chars@,
            trimmed_start(all) == trimmed_start(all.skip(start as int)),
        decreases chars@.len() - start,
    {
        assert(all.skip(start as int).drop_first() =~= all.skip(start + 1));
        start += 1;
    }
    let mut end: usize = chars.len();
    assert(all.subrange(start as int, end as int) =~= all.skip(start as int));
    assert(trimmed_start(all) == all.skip(start as int));
    while end > start && white_space(chars[end - 1])
        invariant
            start <= end <= chars@.len(),
            all == chars@,
            trimmed(all) == trimmed_end(all.subrange(start as int, end as int)),
        decreases end,
    {
        assert(all.subrange(start as int, end as int).drop_last() =~= all.subrange(
            start as int,
            end - 1,
        ));
        end -= 1;
    }
    text_of(&chars[start..end])
}

/// One user message and the opening of the model's own turn.
pub open spec fn rendered(prompt: Seq<char>) -> Seq<char> {
    "<bos><|turn>user\n"@ + trimmed(prompt) + "<turn|>\n<|turn>model\n"@
}

/// Renders one user message plus the generation prompt.
pub fn render_gemma_turns(prompt: &str) -> (r: String)
    ensures
        r@ == rendered(prompt@),
{
    String::from_str("<bos><|turn>user\n").concat(trim(prompt).as_str()).concat(
        "<turn|>\n<|turn>model\n",
    )
}

/// Whether a vocabulary has the tokens that the turn format is made of.
pub open spec fn has_turns(words: Seq<Seq<char>>) -> bool {
    words.contains("<bos>"@) && words.contains("<|turn>"@) && words.contains("<turn|>"@)
        && words.contains("\n"@)
}

/// Whether a vocabulary has the tokens that the turn format is made of.
pub fn supports_gemma_turns(vocab: &Lexicon) -> (r: bool)
    ensures
        r == has_turns(vocab.words()),
{
    vocab.contains("<bos>") && vocab.contains("<|turn>") && vocab.contains("<turn|>")
        && vocab.contains("\n")
}

/// The character of an upper-case hexadecimal digit.
pub open spec fn upper_digit(d: u8) -> char {
    if d < 10 {
        (48 + d) as char
    } else {
        (55 + d) as char
    }
}

/// A byte as the token that stands for it.
pub open spec fn byte_piece(b: u8) -> Seq<char> {
    seq!['<', '0', 'x', upper_digit(b / 16), upper_digit(b % 16), '>']
}

/// A byte string as tokens, one for each byte.
pub open spec fn byte_pieces(bytes: Seq<u8>) -> Seq<Seq<char>> {
    Seq::new(bytes.len(), |i: int| byte_piece(bytes[i]))
}

/// The piece of one character: itself, or the marker that stands for a space.
pub open spec fn char_piece(c: char) -> Seq<char> {
    seq![
        if c == ' ' {
            '\u{2581}'
        } else {
            c
        },
    ]
}

/// The pieces of one character: one if the vocabulary has it, else one for each of
/// its bytes.
pub open spec fn char_pieces(c: char, words: Seq<Seq<char>>) -> Seq<Seq<char>> {
    if words.contains(char_piece(c)) {
        seq![char_piece(c)]
    } else {
        byte_pieces(encode_utf8(char_piece(c)))
    }
}

/// Whether a text starts with a token.
pub open spec fn starts_with(s: Seq<char>, token: Seq<char>) -> bool {
    token.len() <= s.len() && s.take(token.len() as int) == token
}

/// The first of some tokens that a text starts with.
pub open spec fn leading_special(s: Seq<char>, specials: Seq<Seq<char>>) -> Option<Seq<char>>
    decreases specials.len(),
{
    if specials.len() == 0 {
        None
    } else if starts_with(s, specials[0]) {
        Some(specials[0])
    } else {
        leading_special(s, specials.drop_first())
    }
}

/// The piece that ends every prompt.
pub open spec fn end_of_word() -> Seq<char> {
    "</w>"@
}

/// The initial pieces of a prompt: whole special tokens, else one character after
/// another, and the terminator.
pub open spec fn split(s: Seq<char>, words: Seq<Seq<char>>, specials: Seq<Seq<char>>) -> Seq<
    Seq<char>,
>
    decreases s.len(),
{
    if s.len() == 0 {
        seq![end_of_word()]
    } else {
        match leading_special(s, specials) {
            Some(token) => if token.len() == 0 || token.len() > s.len() {
                Seq::empty()
            } else {
                seq![token] + split(s.skip(token.len() as int), words, specials)
            },
            None => char_pieces(s[0], words) + split(s.drop_first(), words, specials),
        }
    }
}

fn upper(d: u8) -> (c: char)
    requires
        d < 16,
    ensures
        c == upper_digit(d),
{
    if d < 10 {
        (48 + d) as char
    } else {
        (55 + d) as char
    }
}

fn byte_token(b: u8) -> (r: String)
    ensures
        r@ == byte_piece(b),
{
    let mut s: String = String::new();
    s.push('<');
    s.push('0');
    s.push('x');
    s.push(upper(b / 16));
    s.push(upper(b % 16));
    s.push('>');
    assert(s@ =~= byte_piece(b));
    s
}

fn starts_at(chars: &Vec<char>, at: usize, token: &Vec<char>) -> (r: bool)
    requires
        at <= chars@.len(),
    ensures
        r == starts_with(chars@.skip(at as int), token@),
{
    if token.len() > chars.len() - at {
        return false;
    }
    let ghost rest = chars@.skip(at as int);
    let len: usize = chars.len();
    let mut i: usize = 0;
    while i < token.len()
        invariant
            i <= token@.len(),
            at + token@.len() <= len,
            len == chars@.len(),
            rest == chars@.skip(at as int),
            forall|j: int| 0 <= j < i ==> rest[j] == #[trigger] token@[j],
        decreases token@.len() - i,
    {
        if chars[at + i] != token[i] {
            assert(rest.take(token@.len() as int)[i as int] != token@[i as int]);
            return false;
        }
        i += 1;
    }
    assert(rest.take(token@.len() as int) =~= token@);
    true
}

fn find_special(chars: &Vec<char>, at: usize, specials: &Vec<Vec<char>>) -> (r: Option<usize>)
    requires
        at <= chars@.len(),
    ensures
        match leading_special(chars@.skip(at as int), views(specials@)) {
            Some(token) => r matches Some(k) && k < specials@.len() && specials@[k as int]@ == token
                && token.len() <= chars@.len() - at,
            None => r is None,
        },
{
    let ghost rest = chars@.skip(at as int);
    let ghost all = views(specials@);
    let mut k: usize = 0;
    assert(all.skip(0) =~= all);
    while k < specials.len()
        invariant
            k <= specials@.len(),
            at <= chars@.len(),
            rest == chars@.skip(at as int),
            all == views(specials@),
            leading_special(rest, all) == leading_special(rest, all.skip(k as int)),
        decreases specials@.len() - k,
    {
        assert(all.skip(k as int)[0] == specials@[k as int]@);
        assert(all.skip(k as int).drop_first() =~= all.skip(k + 1));
        if starts_at(chars, at, &specials[k]) {
            return Some(k);
        }
        k += 1;
    }
    None
}

fn push_char_pieces(pieces: &mut Vec<String>, c: char, vocab: &Lexicon)
    ensures
        views(final(pieces)@) == views(old(pieces)@) + char_pieces(c, vocab.words()),
{
    broadcast use views_of_push;

    let ghost before = views(pieces@);
    let mut piece: String = String::new();
    piece.push(
        if c == ' ' {
            '\u{2581}'
        } else {
            c
        },
    );
    assert(piece@ =~= char_piece(c));
    if vocab.contains(piece.as_str()) {
        pieces.push(piece);
        assert(views(pieces@) =~= before + seq![char_piece(c)]);
    } else {
        let bytes: &[u8] = piece.as_str().as_bytes();
        let ghost all = byte_pieces(bytes@);
        let mut i: usize = 0;
        assert(before + all.take(0) =~= before);
        while i < bytes.len()
            invariant
                i <= bytes@.len(),
                all == byte_pieces(bytes@),
                views(pieces@) == before + all.take(i as int),
            decreases bytes@.len() - i,
        {
            broadcast use views_of_push;

            pieces.push(byte_token(bytes[i]));
            assert(before + all.take(i + 1) =~= (before + all.take(i as int)).push(all[i as int]));
            i += 1;
        }
        assert(all.take(i as int) =~= all);
    }
}

/// Splits a prompt into its initial pieces. The special tokens are tried in order
/// and never split; a character that the vocabulary lacks is spelled in bytes; the
/// last piece is the terminator.
pub fn split_prompt(prompt: &str, vocab: &Lexicon, specials: &Vec<String>) -> (r: Vec<String>)
    requires
        forall|i: int| 0 <= i < specials@.len() ==> (#[trigger] specials@[i])@.len() > 0,
    ensures
        views(r@) == split(prompt@, vocab.words(), views(specials@)),
{
    broadcast use views_of_push;
    broadcast use views_of_empty;

    let ghost words = vocab.words();
    let ghost tokens = views(specials@);
    let chars: Vec<char> = chars_of(prompt);
    let mut special_chars: Vec<Vec<char>> = Vec::new();
    let mut k: usize = 0;
    while k < specials.len()
        invariant
            k <= specials@.len(),
            special_chars@.len() == k,
            tokens == views(specials@),
            forall|j: int| 0 <= j < k ==> (#[trigger] special_chars@[j])@ == tokens[j],
        decreases specials@.len() - k,
    {
        special_chars.push(chars_of(specials[k].as_str()));
        k += 1;
    }
    assert(views(special_chars@) =~= tokens);
    let mut pieces: Vec<String> = Vec::new();
    let mut at: usize = 0;
    let ghost whole = split(chars@, words, tokens);
    assert(chars@.skip(0) =~= chars@);
    assert(views(pieces@) + split(chars@.skip(0), words, tokens) =~= whole);
    while at < chars.len()
        invariant
            at <= chars@.len(),
            words == vocab.words(),
            tokens == views(specials@),
            views(special_chars@) == tokens,
            special_chars@.len() == specials@.len(),
            forall|i: int| 0 <= i < specials@.len() ==> (#[trigger] specials@[i])@.len() > 0,
            views(pieces@) + split(chars@.skip(at as int), words, tokens) == whole,
        decreases chars@.len() - at,
    {
        broadcast use views_of_push;

        let ghost rest = chars@.skip(at as int);
        let ghost before = views(pieces@);
        match find_special(&chars, at, &special_chars) {
            Some(k) => {
                let ghost token = tokens[k as int];
                assert(token == special_chars@[k as int]@);
                assert(token == specials@[k as int]@);
                pieces.push(String::from_str(specials[k].as_str()));
                let len: usize = special_chars[k].len();
                assert(rest.skip(len as int) =~= chars@.skip(at + len));
                assert(before.push(token) + split(rest.skip(len as int), words, tokens) =~= before
                    + (seq![token] + split(rest.skip(len as int), words, tokens)));
                at += len;
            },
            None => {
                push_char_pieces(&mut pieces, chars[at], vocab);
                assert(rest.drop_first() =~= chars@.skip(at + 1));
                let ghost tail = split(rest.drop_first(), words, tokens);
                assert(before + char_pieces(rest[0], words) + tail =~= before + (char_pieces(
                    rest[0],
                    words,
                ) + tail));
                at += 1;
            },
        }
    }
    pieces.push(String::from_str("</w>"));
    assert(chars@.skip(at as int) =~= Seq::empty());
    assert(views(pieces@) =~= whole);
    pieces
}

/// The bytes that a piece stands for: the one byte of a byte token, else its text.
pub open spec fn spelled(piece: Seq<char>) -> Seq<u8> {
    match fallback_byte(encode_utf8(piece)) {
        Some(b) => seq![b],
        None => encode_utf8(piece),
    }
}

/// The bytes that a run of pieces stands for.
pub open spec fn spelled_all(pieces: Seq<Seq<char>>) -> Seq<u8>
    decreases pieces.len(),
{
    if pieces.len() == 0 {
        Seq::empty()
    } else {
        spelled(pieces[0]) + spelled_all(pieces.drop_first())
    }
}

/// A text with the marker in place of each space.
pub open spec fn marked(s: Seq<char>) -> Seq<char> {
    s.map_values(
        |c: char|
            if c == ' ' {
                '\u{2581}'
            } else {
                c
            },
    )
}

proof fn lemma_encode_first(c: char, rest: Seq<char>)
    ensures
        encode_utf8(seq![c] + rest) == encode_scalar(c as u32) + encode_utf8(rest),
{
    assert((seq![c] + rest).drop_first() =~= rest);
}

proof fn lemma_encode_one(c: char)
    ensures
        encode_utf8(seq![c]) == encode_scalar(c as u32),
{
    assert(seq![c].drop_first() =~= Seq::<char>::empty());
    assert(encode_utf8(Seq::<char>::empty()) =~= Seq::<u8>::empty());
    assert(encode_scalar(c as u32) + Seq::<u8>::empty() =~= encode_scalar(c as u32));
}

proof fn lemma_encode_ascii(c: char)
    requires
        c as u32 <= 0x7f,
    ensures
        encode_scalar(c as u32) == seq![c as u8],
{
    let u = c as u32;
    assert(u & 0x7f == u) by (bit_vector)
        requires
            u <= 0x7f,
    ;
}

/// The token of a byte is read back as that byte.
pub proof fn a_byte_token_reads_back(b: u8)
    ensures
        fallback_byte(encode_utf8(byte_piece(b))) == Some(b),
{
    let p = byte_piece(b);
    let high = upper_digit(b / 16);
    let low = upper_digit(b % 16);
    lemma_encode_ascii('<');
    lemma_encode_ascii('0');
    lemma_encode_ascii('x');
    lemma_encode_ascii(high);
    lemma_encode_ascii(low);
    lemma_encode_ascii('>');
    lemma_encode_one('>');
    lemma_encode_first(low, seq!['>']);
    lemma_encode_first(high, seq![low] + seq!['>']);
    lemma_encode_first('x', seq![high] + (seq![low] + seq!['>']));
    lemma_encode_first('0', seq!['x'] + (seq![high] + (seq![low] + seq!['>'])));
    lemma_encode_first('<', seq!['0'] + (seq!['x'] + (seq![high] + (seq![low] + seq!['>']))));
    assert(p =~= seq!['<'] + (seq!['0'] + (seq!['x'] + (seq![high] + (seq![low] + seq!['>'])))));
    let e = encode_utf8(p);
    assert(e =~= seq![60u8, 48u8, 120u8, high as u8, low as u8, 62u8]);
}

proof fn lemma_short_is_no_byte(c: char)
    ensures
        spelled(seq![c]) == encode_utf8(seq![c]),
{
    lemma_encode_one(c);
    assert(encode_scalar(c as u32).len() <= 4);
}

proof fn lemma_spelled_concat(a: Seq<Seq<char>>, b: Seq<Seq<char>>)
    ensures
        spelled_all(a + b) == spelled_all(a) + spelled_all(b),
    decreases a.len(),
{
    if a.len() == 0 {
        assert(a + b =~= b);
        assert(spelled_all(a) + spelled_all(b) =~= spelled_all(b));
    } else {
        lemma_spelled_concat(a.drop_first(), b);
        assert((a + b).drop_first() =~= a.drop_first() + b);
        assert(spelled(a[0]) + (spelled_all(a.drop_first()) + spelled_all(b)) =~= (spelled(a[0])
            + spelled_all(a.drop_first())) + spelled_all(b));
    }
}

proof fn lemma_spelled_one(piece: Seq<char>)
    ensures
        spelled_all(seq![piece]) == spelled(piece),
{
    assert(seq![piece].drop_first() =~= Seq::<Seq<char>>::empty());
    assert(spelled(piece) + spelled_all(Seq::<Seq<char>>::empty()) =~= spelled(piece));
}

proof fn lemma_spelled_bytes(bytes: Seq<u8>)
    ensures
        spelled_all(byte_pieces(bytes)) == bytes,
    decreases bytes.len(),
{
    if bytes.len() == 0 {
        assert(spelled_all(byte_pieces(bytes)) =~= bytes);
    } else {
        assert(byte_pieces(bytes).drop_first() =~= byte_pieces(bytes.drop_first()));
        lemma_spelled_bytes(bytes.drop_first());
        a_byte_token_reads_back(bytes[0]);
        assert(seq![bytes[0]] + bytes.drop_first() =~= bytes);
    }
}

/// The pieces of a prompt spell the prompt: put together, byte tokens read as their
/// bytes, they are its text with each space marked, and the terminator.
pub proof fn the_pieces_spell_the_prompt(s: Seq<char>, words: Seq<Seq<char>>)
    ensures
        spelled_all(split(s, words, Seq::empty())) == encode_utf8(marked(s)) + encode_utf8(
            end_of_word(),
        ),
    decreases s.len(),
{
    if s.len() == 0 {
        assert(marked(s) =~= Seq::<char>::empty());
        lemma_terminator_bytes();
        lemma_spelled_one(end_of_word());
        assert(encode_utf8(marked(s)) =~= Seq::<u8>::empty());
        assert(Seq::<u8>::empty() + encode_utf8(end_of_word()) =~= encode_utf8(end_of_word()));
    } else {
        let rest = s.drop_first();
        let m = char_piece(s[0]);
        the_pieces_spell_the_prompt(rest, words);
        assert(spelled_all(char_pieces(s[0], words)) == encode_utf8(m)) by {
            if words.contains(m) {
                lemma_spelled_one(m);
                lemma_short_is_no_byte(m[0]);
                assert(m =~= seq![m[0]]);
            } else {
                lemma_spelled_bytes(encode_utf8(m));
            }
        }
        lemma_spelled_concat(char_pieces(s[0], words), split(rest, words, Seq::empty()));
        lemma_encode_first(m[0], marked(rest));
        lemma_encode_one(m[0]);
        assert(m =~= seq![m[0]]);
        assert(marked(s) =~= seq![m[0]] + marked(rest));
        assert(encode_utf8(m) + (encode_utf8(marked(rest)) + encode_utf8(end_of_word())) =~= (
        encode_utf8(m) + encode_utf8(marked(rest))) + encode_utf8(end_of_word()));
    }
}

proof fn lemma_terminator_bytes()
    ensures
        end_of_word().len() == 4,
        spelled(end_of_word()) == encode_utf8(end_of_word()),
{
    reveal_strlit("</w>");
    let t = end_of_word();
    lemma_encode_ascii('<');
    lemma_encode_ascii('/');
    lemma_encode_ascii('w');
    lemma_encode_ascii('>');
    lemma_encode_one('>');
    lemma_encode_first('w', seq!['>']);
    lemma_encode_first('/', seq!['w'] + seq!['>']);
    lemma_encode_first('<', seq!['/'] + (seq!['w'] + seq!['>']));
    assert(t =~= seq!['<'] + (seq!['/'] + (seq!['w'] + seq!['>'])));
    assert(encode_utf8(t).len() == 4);
}

/// The last piece is the terminator, and no other piece is.
pub proof fn the_terminator_comes_once_and_last(
    s: Seq<char>,
    words: Seq<Seq<char>>,
    specials: Seq<Seq<char>>,
)
    requires
        forall|i: int|
            0 <= i < specials.len() ==> (#[trigger] specials[i]).len() > 0 && specials[i]
                != end_of_word(),
    ensures
        ({
            let pieces = split(s, words, specials);
            &&& pieces.len() > 0
            &&& pieces.last() == end_of_word()
            &&& forall|i: int| 0 <= i < pieces.len() - 1 ==> #[trigger] pieces[i] != end_of_word()
        }),
    decreases s.len(),
{
    lemma_terminator_bytes();
    if s.len() > 0 {
        let pieces = split(s, words, specials);
        match leading_special(s, specials) {
            Some(token) => {
                the_first_special_wins(s, specials);
                the_terminator_comes_once_and_last(s.skip(token.len() as int), words, specials);
                let tail = split(s.skip(token.len() as int), words, specials);
                assert forall|i: int| 0 <= i < pieces.len() - 1 implies #[trigger] pieces[i]
                    != end_of_word() by {
                    if i > 0 {
                        assert(pieces[i] == tail[i - 1]);
                    }
                }
            },
            None => {
                the_terminator_comes_once_and_last(s.drop_first(), words, specials);
                let head = char_pieces(s[0], words);
                let tail = split(s.drop_first(), words, specials);
                assert forall|i: int| 0 <= i < pieces.len() - 1 implies #[trigger] pieces[i]
                    != end_of_word() by {
                    if i < head.len() {
                        assert(pieces[i] == head[i]);
                        assert(head[i].len() == 1 || head[i].len() == 6);
                    } else {
                        assert(pieces[i] == tail[i - head.len()]);
                    }
                }
            },
        }
    }
}

/// A leading special token is one of the special tokens, the text starts with it,
/// and with none of those before it.
pub proof fn the_first_special_wins(s: Seq<char>, specials: Seq<Seq<char>>)
    ensures
        match leading_special(s, specials) {
            Some(token) => exists|k: int|
                0 <= k < specials.len() && #[trigger] specials[k] == token && starts_with(s, token)
                    && forall|j: int| 0 <= j < k ==> !starts_with(s, #[trigger] specials[j]),
            None => forall|j: int|
                0 <= j < specials.len() ==> !starts_with(s, #[trigger] specials[j]),
        },
    decreases specials.len(),
{
    if specials.len() > 0 {
        if starts_with(s, specials[0]) {
            assert(specials[0] == specials[0]);
        } else {
            let rest = specials.drop_first();
            the_first_special_wins(s, rest);
            match leading_special(s, rest) {
                Some(token) => {
                    let k = choose|k: int|
                        0 <= k < rest.len() && #[trigger] rest[k] == token && starts_with(s, token)
                            && forall|j: int| 0 <= j < k ==> !starts_with(s, #[trigger] rest[j]);
                    assert(specials[k + 1] == token);
                    assert forall|j: int| 0 <= j < k + 1 implies !starts_with(
                        s,
                        #[trigger] specials[j],
                    ) by {
                        if j > 0 {
                            assert(rest[j - 1] == specials[j]);
                        }
                    }
                },
                None => {
                    assert forall|j: int| 0 <= j < specials.len() implies !starts_with(
                        s,
                        #[trigger] specials[j],
                    ) by {
                        if j > 0 {
                            assert(rest[j - 1] == specials[j]);
                        }
                    }
                },
            }
        }
    }
}

} // verus!
