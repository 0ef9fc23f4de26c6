//! What the finalization makes of a transcript, token by token and as a whole.

use crate::decode::{next_edge, no_selection, EdgeView};
use crate::digest::sha256_digest;
use crate::output_finalize::{
    a_run_stops_exactly_at_a_terminal_token, advanced, consumed, fallback_byte, finished,
    generated, initial_state, joined, nibble, spaced, the_commitment_covers_every_id, utf8_lossy,
    DecoderView, FinalizeView,
};
use crate::prefill_finalize::{LogitEntry, LogitsView};
use crate::text::{bool_text, dec, hex, signed_dec};
use vstd::prelude::*;
use vstd::utf8::encode_utf8;

verus! {

/// A token's text has the token's length: it is a space exactly where the token has the
/// space mark or a space, and the token's own character everywhere else.
pub proof fn only_space_marks_are_replaced(token: Seq<char>)
    ensures
        spaced(token).len() == token.len(),
        forall|i: int|
            0 <= i < token.len() ==> ((#[trigger] spaced(token)[i]) == ' ' <==> token[i]
                == '\u{2581}' || token[i] == ' '),
        forall|i: int|
            0 <= i < token.len() && token[i] != '\u{2581}' ==> (#[trigger] spaced(token)[i])
                == token[i],
        !token.contains('\u{2581}') ==> spaced(token) == token,
{
    if !token.contains('\u{2581}') {
        assert forall|i: int| 0 <= i < token.len() implies spaced(token)[i] == token[i] by {
            assert(token.contains(token[i]));
        }
        assert(spaced(token) =~= token);
    }
}

/// A hexadecimal digit is one of ten figures and six letters of either case, and has the
/// value of its place.
pub proof fn hexadecimal_digits_have_their_values(byte: u8, value: u8)
    ensures
        nibble(byte) == Some(value) <==> {
            ||| value < 10 && byte == '0' as int + value
            ||| 10 <= value < 16 && byte == 'a' as int + (value - 10)
            ||| 10 <= value < 16 && byte == 'A' as int + (value - 10)
        },
{
}

/// A token spells a byte exactly if it is `<0x`, two hexadecimal digits and `>`; the
/// first digit counts sixteen times.
pub proof fn a_byte_token_spells_its_byte(bytes: Seq<u8>, value: u8)
    ensures
        fallback_byte(bytes) == Some(value) <==> {
            &&& bytes.len() == 6
            &&& bytes[0] == '<' as int
            &&& bytes[1] == '0' as int
            &&& bytes[2] == 'x' as int
            &&& bytes[5] == '>' as int
            &&& nibble(bytes[3]) is Some
            &&& nibble(bytes[4]) is Some
            &&& value == 16 * nibble(bytes[3])->0 + nibble(bytes[4])->0
        },
{
    if bytes.len() == 6 {
        match (nibble(bytes[3]), nibble(bytes[4])) {
            (Some(h), Some(l)) => {
                hexadecimal_digits_have_their_values(bytes[3], h);
                hexadecimal_digits_have_their_values(bytes[4], l);
                assert(0 <= 16 * h + l < 256);
            },
            _ => {},
        }
    }
}

/// The text that pending bytes come to: what the standard library's lossy decoding makes
/// of them, and nothing of none.
pub open spec fn pending_text(state: FinalizeView) -> Seq<char> {
    if state.pending_bytes.bytes.len() == 0 {
        Seq::empty()
    } else {
        utf8_lossy(state.pending_bytes.bytes)
    }
}

/// What one token does. Every token is counted and committed. After the end nothing else
/// happens. A terminal token decodes what is pending and ends the text; a special token
/// decodes what is pending and adds nothing; a byte token adds its byte to what is
/// pending; any other token decodes what is pending and adds its own characters, with
/// spaces for space marks.
pub proof fn what_a_token_does(state: FinalizeView, token_id: u32, token: DecoderView)
    requires
        state.count < u32::MAX,
    ensures
        ({
            let next = advanced(state, token_id, token);
            let byte = fallback_byte(encode_utf8(token.token));
            &&& next.count == state.count + 1
            &&& next.json == state.json + (if state.count == 0 {
                dec(token_id as nat)
            } else {
                seq![','] + dec(token_id as nat)
            })
            &&& state.stopped ==> next.text == state.text && next.pending_bytes
                == state.pending_bytes && next.stopped
            &&& !state.stopped && token.terminal ==> next.text == state.text + pending_text(state)
                && next.pending_bytes.bytes.len() == 0 && next.stopped
            &&& !state.stopped && !token.terminal ==> !next.stopped
            &&& !state.stopped && !token.terminal && token.special ==> next.text == state.text
                + pending_text(state) && next.pending_bytes.bytes.len() == 0
            &&& !state.stopped && !token.terminal && !token.special ==> (match byte {
                Some(b) => next.text == state.text && next.pending_bytes.bytes
                    == state.pending_bytes.bytes.push(b),
                None => next.pending_bytes.bytes.len() == 0 && next.text == state.text
                    + pending_text(state) + Seq::new(
                    token.token.len(),
                    |i: int|
                        if token.token[i] == '\u{2581}' {
                            ' '
                        } else {
                            token.token[i]
                        },
                ),
            })
        }),
{
    reveal_strlit(",");
    assert(","@ =~= seq![',']);
    assert(state.json + ","@ + dec(token_id as nat) =~= state.json + (seq![','] + dec(
        token_id as nat,
    )));
    assert(state.text + Seq::<char>::empty() =~= state.text);
    assert(spaced(token.token) =~= Seq::new(
        token.token.len(),
        |i: int|
            if token.token[i] == '\u{2581}' {
                ' '
            } else {
                token.token[i]
            },
    ));
}

/// The characters of a run of tokens, one after the other, with spaces for space marks.
pub open spec fn concatenated(ids: Seq<u32>, tokens: Seq<DecoderView>) -> Seq<char>
    decreases ids.len(),
{
    if ids.len() == 0 {
        Seq::empty()
    } else {
        let token = tokens[ids.last() as int].token;
        concatenated(ids.drop_last(), tokens) + Seq::new(
            token.len(),
            |i: int|
                if token[i] == '\u{2581}' {
                    ' '
                } else {
                    token[i]
                },
        )
    }
}

/// A transcript of ordinary tokens reads as their characters one after the other.
pub proof fn ordinary_tokens_are_concatenated(ids: Seq<u32>, tokens: Seq<DecoderView>)
    requires
        ids.len() <= u32::MAX,
        forall|i: int|
            0 <= i < ids.len() ==> {
                let token = tokens[(#[trigger] ids[i]) as int];
                !token.special && !token.terminal && fallback_byte(encode_utf8(token.token)) is None
            },
    ensures
        consumed(initial_state(), ids, tokens).text == concatenated(ids, tokens),
        consumed(initial_state(), ids, tokens).pending_bytes.bytes.len() == 0,
        !consumed(initial_state(), ids, tokens).stopped,
        finished(consumed(initial_state(), ids, tokens)).text == concatenated(ids, tokens),
    decreases ids.len(),
{
    if ids.len() > 0 {
        let rest = ids.drop_last();
        assert forall|i: int| 0 <= i < rest.len() implies ({
            let token = tokens[(#[trigger] rest[i]) as int];
            !token.special && !token.terminal && fallback_byte(encode_utf8(token.token)) is None
        }) by {
            assert(ids[i] == rest[i]);
        }
        ordinary_tokens_are_concatenated(rest, tokens);
        the_commitment_covers_every_id(rest, tokens);
        let before = consumed(initial_state(), rest, tokens);
        assert(ids[ids.len() - 1] == ids.last());
        what_a_token_does(before, ids.last(), tokens[ids.last() as int]);
        assert(before.text + Seq::<char>::empty() =~= before.text);
    }
}

/// The final output of a transcript: its ids as they are, their number, the SHA-256 of
/// their JSON array in hexadecimal, the text with nothing left pending, and `eos` as the
/// reason exactly if a terminal token was generated. A flag that disagrees with the
/// transcript is refused.
pub proof fn the_output_reports_the_transcript(edge: EdgeView, tokens: Seq<DecoderView>)
    requires
        edge.generated_token_ids.len() <= u32::MAX,
    ensures
        ({
            let ids = edge.generated_token_ids;
            let last = consumed(initial_state(), ids, tokens);
            &&& generated(edge, tokens) is Err <==> edge.has_selected != (ids.len() > 0)
            &&& generated(edge, tokens) matches Ok(out) ==> {
                &&& out.generated_token_ids == ids
                &&& out.generated_token_count == ids.len()
                &&& out.generated_token_ids_sha256 == hex(
                    sha256_digest(encode_utf8(seq!['['] + joined(ids) + seq![']'])),
                )
                &&& out.generated_text == last.text + pending_text(last)
                &&& (exists|i: int|
                    0 <= i < ids.len() && (#[trigger] tokens[ids[i] as int]).terminal)
                    ==> out.stop_reason == "eos"@
                &&& !(exists|i: int|
                    0 <= i < ids.len() && (#[trigger] tokens[ids[i] as int]).terminal)
                    ==> out.stop_reason == "max_new_tokens"@
            }
        }),
{
    let ids = edge.generated_token_ids;
    let last = consumed(initial_state(), ids, tokens);
    the_commitment_covers_every_id(ids, tokens);
    a_run_stops_exactly_at_a_terminal_token(initial_state(), ids, tokens);
    reveal_strlit("[");
    reveal_strlit("]");
    assert("["@ =~= seq!['[']);
    assert("]"@ =~= seq![']']);
    assert(last.text + Seq::<char>::empty() =~= last.text);
}

/// The value of a run of decimal figures.
pub open spec fn decimal_value(s: Seq<char>) -> int
    decreases s.len(),
{
    if s.len() == 0 {
        0
    } else {
        10 * decimal_value(s.drop_last()) + (s.last() as int - '0' as int)
    }
}

/// A rendered number reads back as the number, in figures alone and without a leading
/// zero.
pub proof fn a_rendered_number_reads_back(n: nat)
    ensures
        decimal_value(dec(n)) == n,
        dec(n).len() > 0,
        forall|i: int| 0 <= i < dec(n).len() ==> '0' <= (#[trigger] dec(n)[i]) <= '9',
        n > 0 ==> dec(n)[0] != '0',
    decreases n,
{
    if n < 10 {
        assert(dec(n).drop_last() =~= Seq::empty());
        assert(decimal_value(dec(n).drop_last()) == 0);
    } else {
        a_rendered_number_reads_back(n / 10);
        assert(dec(n).drop_last() =~= dec(n / 10));
    }
}

/// A byte is rendered as two lower-case hexadecimal digits, the high one first.
pub proof fn a_rendered_byte_reads_back(bytes: Seq<u8>, i: int)
    requires
        0 <= i < bytes.len(),
    ensures
        hex(bytes).len() == 2 * bytes.len(),
        ({
            let high = hex(bytes)[2 * i] as int;
            let low = hex(bytes)[2 * i + 1] as int;
            let value = |c: int|
                if c < 'a' as int {
                    c - '0' as int
                } else {
                    c - 'a' as int + 10
                };
            &&& '0' as int <= high <= '9' as int || 'a' as int <= high <= 'f' as int
            &&& '0' as int <= low <= '9' as int || 'a' as int <= low <= 'f' as int
            &&& bytes[i] == 16 * value(high) + value(low)
        }),
{
    assert((2 * i) / 2 == i && (2 * i) % 2 == 0);
    assert((2 * i + 1) / 2 == i && (2 * i + 1) % 2 == 1);
}

/// Truth values are rendered as words.
pub proof fn truth_values_are_words()
    ensures
        bool_text(true) == "true"@,
        bool_text(false) == "false"@,
{
}

/// A generation starts with nothing selected, at position zero, with no tokens.
pub proof fn a_generation_starts_empty()
    ensures
        !no_selection().has_selected,
        no_selection().decode_position == 0,
        no_selection().token_id == 0,
        no_selection().value == 0,
        no_selection().generated_token_ids.len() == 0,
{
}

/// A decode step selects the first of the highest scores, publishes it at the position
/// the scores are for, and appends it to the transcript; without scores there is no
/// selection.
pub proof fn a_step_selects_the_first_highest_score(logits: LogitsView, prior: EdgeView)
    ensures
        next_edge(logits, prior) is Err <==> logits.logits.len() == 0,
        next_edge(logits, prior) matches Ok(edge) ==> {
            &&& edge.has_selected
            &&& edge.decode_position == logits.decode_position
            &&& edge.generated_token_ids == prior.generated_token_ids.push(edge.token_id)
            &&& exists|i: int|
                #![trigger logits.logits[i]]
                0 <= i < logits.logits.len() && logits.logits[i] == (LogitEntry {
                    token_id: edge.token_id,
                    value: edge.value,
                }) && (forall|j: int|
                    0 <= j < logits.logits.len() ==> (#[trigger] logits.logits[j]).value
                        <= edge.value) && (forall|j: int|
                    0 <= j < i ==> (#[trigger] logits.logits[j]).value < edge.value)
        },
{
    if logits.logits.len() > 0 {
        crate::decode::the_first_highest_score_wins(logits.logits);
    } else {
        assert(crate::decode::argmax_from(crate::decode::no_argmax(), logits.logits)
            == crate::decode::no_argmax());
    }
}

/// A signed number is its magnitude, behind a minus sign if it is negative.
pub proof fn a_signed_number_has_its_sign(n: int)
    ensures
        n >= 0 ==> signed_dec(n) == dec(n as nat),
        n < 0 ==> signed_dec(n) == seq!['-'] + dec((-n) as nat),
{
    reveal_strlit("-");
    assert("-"@ =~= seq!['-']);
}

} // verus!
