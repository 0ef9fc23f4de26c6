//! Stage `output_finalize`: the generated transcript as ids, commitment and
//! text.
//!
//! Every generated id is counted and committed. The text ends at the first
//! terminal token, because the decode loop runs to its full count whatever the
//! model emitted.

use crate::decode::{DecodeEdge, EdgeView};
use crate::digest::{sha256, sha256_digest};
use crate::lists::views;
use crate::pages::{standalone, BytesPage, PageView};
use crate::text::{bool_text, boolean, chars_of, dec, decimal, hex, hexadecimal, outcome};
use vstd::prelude::*;
use vstd::slice::slice_to_vec;
use vstd::utf8::{decode_utf8, encode_utf8, valid_utf8};

verus! {

/// The text that `String::from_utf8_lossy` makes of a byte string.
pub uninterp spec fn utf8_lossy(bytes: Seq<u8>) -> Seq<char>;

/// `String::from_utf8_lossy` of the standard library: decodes UTF-8, replacing
/// what is not. Valid UTF-8 decodes to itself; how malformed bytes are grouped
/// into replacement characters is left to the name [`utf8_lossy`].
#[verifier::external_body]
pub(crate) fn decode_lossy(bytes: &[u8]) -> (text: String)
    ensures
        text@ == utf8_lossy(bytes@),
        valid_utf8(bytes@) ==> text@ == decode_utf8(bytes@),
{
    String::from_utf8_lossy(bytes).into_owned()
}

/// One decoder-table row. Its list position is its token id.
pub struct DecoderToken {
    pub token: String,
    pub special: bool,
    /// Whether the token ends the model's answer.
    pub terminal: bool,
}

/// A decoder row as a mathematical value.
#[verifier::ext_equal]
pub struct DecoderView {
    pub token: Seq<char>,
    pub special: bool,
    pub terminal: bool,
}

impl View for DecoderToken {
    type V = DecoderView;

    open spec fn view(&self) -> DecoderView {
        DecoderView { token: self.token@, special: self.special, terminal: self.terminal }
    }
}

impl Clone for DecoderToken {
    fn clone(&self) -> (r: DecoderToken)
        ensures
            r@ == self@,
    {
        DecoderToken {
            token: self.token.clone(),
            special: self.special,
            terminal: self.terminal,
        }
    }
}

/// The tokenizer data that output finalization needs.
pub struct DecoderTable {
    pub tokens: Vec<DecoderToken>,
}

/// Loop state of the finalization.
pub struct FinalizeState {
    pub count: u32,
    pub json: String,
    pub text: String,
    /// A run of byte-fallback tokens that has not been decoded yet.
    pub pending_bytes: BytesPage,
    /// Set by the first terminal token.
    pub stopped: bool,
}

/// Loop state as a mathematical value.
#[verifier::ext_equal]
pub struct FinalizeView {
    pub count: u32,
    pub json: Seq<char>,
    pub text: Seq<char>,
    pub pending_bytes: PageView,
    pub stopped: bool,
}

impl View for FinalizeState {
    type V = FinalizeView;

    open spec fn view(&self) -> FinalizeView {
        FinalizeView {
            count: self.count,
            json: self.json@,
            text: self.text@,
            pending_bytes: self.pending_bytes@,
            stopped: self.stopped,
        }
    }
}

/// Final inference output.
pub struct GeneratedOutput {
    pub generated_token_count: u32,
    pub generated_token_ids: Vec<u32>,
    pub generated_token_ids_sha256: String,
    pub generated_text: String,
    pub stop_reason: String,
}

/// Final output as a mathematical value.
#[verifier::ext_equal]
pub struct GeneratedView {
    pub generated_token_count: u32,
    pub generated_token_ids: Seq<u32>,
    pub generated_token_ids_sha256: Seq<char>,
    pub generated_text: Seq<char>,
    pub stop_reason: Seq<char>,
}

impl View for GeneratedOutput {
    type V = GeneratedView;

    open spec fn view(&self) -> GeneratedView {
        GeneratedView {
            generated_token_count: self.generated_token_count,
            generated_token_ids: self.generated_token_ids@,
            generated_token_ids_sha256: self.generated_token_ids_sha256@,
            generated_text: self.generated_text@,
            stop_reason: self.stop_reason@,
        }
    }
}

impl Default for GeneratedOutput {
    fn default() -> (r: GeneratedOutput)
        ensures
            r@ == (GeneratedView {
                generated_token_count: 0,
                generated_token_ids: Seq::empty(),
                generated_token_ids_sha256: Seq::empty(),
                generated_text: Seq::empty(),
                stop_reason: Seq::empty(),
            }),
    {
        GeneratedOutput {
            generated_token_count: 0,
            generated_token_ids: Vec::new(),
            generated_token_ids_sha256: String::new(),
            generated_text: String::new(),
            stop_reason: String::new(),
        }
    }
}

/// The state before any token.
pub open spec fn initial_state() -> FinalizeView {
    FinalizeView {
        count: 0,
        json: "["@,
        text: Seq::empty(),
        pending_bytes: standalone(Seq::empty()),
        stopped: false,
    }
}

/// Opens the finalization.
pub fn begin_finalize_state() -> (r: FinalizeState)
    ensures
        r@ == initial_state(),
{
    initial_finalize_state()
}

/// The empty state.
pub fn initial_finalize_state() -> (r: FinalizeState)
    ensures
        r@ == initial_state(),
{
    FinalizeState {
        count: 0,
        json: String::from_str("["),
        text: String::new(),
        pending_bytes: BytesPage { index: 0, offset: 0, bytes: Vec::new() },
        stopped: false,
    }
}

/// The value of a hexadecimal digit.
pub open spec fn nibble(byte: u8) -> Option<u8> {
    if 48 <= byte <= 57 {
        Some((byte - 48) as u8)
    } else if 97 <= byte <= 102 {
        Some((byte - 97 + 10) as u8)
    } else if 65 <= byte <= 70 {
        Some((byte - 65 + 10) as u8)
    } else {
        None
    }
}

/// The value of a hexadecimal digit, if the byte is one.
pub fn hex_nibble(byte: u8) -> (r: Option<u8>)
    ensures
        r == nibble(byte),
{
    if 48 <= byte && byte <= 57 {
        Some(byte - 48)
    } else if 97 <= byte && byte <= 102 {
        Some(byte - 97 + 10)
    } else if 65 <= byte && byte <= 70 {
        Some(byte - 65 + 10)
    } else {
        None
    }
}

/// The byte that a token written `<0xHH>` stands for.
pub open spec fn fallback_byte(bytes: Seq<u8>) -> Option<u8> {
    if bytes.len() == 6 && bytes[0] == 60 && bytes[1] == 48 && bytes[2] == 120 && bytes[5] == 62 {
        match (nibble(bytes[3]), nibble(bytes[4])) {
            (Some(high), Some(low)) => Some((high * 16 + low) as u8),
            _ => None,
        }
    } else {
        None
    }
}

/// The byte that a token written `<0xHH>` stands for, if it is one.
pub fn byte_fallback(token: &str) -> (r: Option<u8>)
    ensures
        r == fallback_byte(encode_utf8(token@)),
{
    let bytes: &[u8] = token.as_bytes();
    if bytes.len() != 6 || bytes[0] != 60 || bytes[1] != 48 || bytes[2] != 120 || bytes[5] != 62 {
        return None;
    }
    let high: u8 = match hex_nibble(bytes[3]) {
        Some(value) => value,
        None => return None,
    };
    let low: u8 = match hex_nibble(bytes[4]) {
        Some(value) => value,
        None => return None,
    };
    Some(high * 16 + low)
}

/// The state with its pending bytes decoded into the text.
pub open spec fn flushed(state: FinalizeView) -> FinalizeView {
    if state.pending_bytes.bytes.len() == 0 {
        state
    } else {
        FinalizeView {
            text: state.text + utf8_lossy(state.pending_bytes.bytes),
            pending_bytes: standalone(Seq::empty()),
            ..state
        }
    }
}

fn flush_pending(state: &mut FinalizeState)
    ensures
        final(state)@ == flushed(old(state)@),
        valid_utf8(old(state)@.pending_bytes.bytes) ==> final(state)@.text == old(state)@.text
            + decode_utf8(old(state)@.pending_bytes.bytes),
{
    if state.pending_bytes.len() == 0 {
        assert(state@.text + Seq::<char>::empty() =~= state@.text);
        return ;
    }
    let decoded: String = decode_lossy(state.pending_bytes.as_slice());
    state.text.append(decoded.as_str());
    state.pending_bytes = BytesPage { index: 0, offset: 0, bytes: Vec::new() };
}

/// The character that stands for a space inside a token.
pub const SPACE_MARK: char = '\u{2581}';

/// A token's text, with its space marks as spaces.
pub open spec fn spaced(token: Seq<char>) -> Seq<char> {
    token.map_values(
        |c: char|
            if c == SPACE_MARK {
                ' '
            } else {
                c
            },
    )
}

fn spaced_text(token: &str) -> (r: String)
    ensures
        r@ == spaced(token@),
{
    let chars: Vec<char> = chars_of(token);
    let mut r: String = String::new();
    let mut i: usize = 0;
    while i < chars.len()
        invariant
            i <= chars.len(),
            r@.len() == i,
            forall|j: int|
                0 <= j < i ==> r@[j] == (if chars@[j] == SPACE_MARK {
                    ' '
                } else {
                    chars@[j]
                }),
        decreases chars.len() - i,
    {
        let c: char = if chars[i] == SPACE_MARK {
            ' '
        } else {
            chars[i]
        };
        r.push(c);
        i += 1;
    }
    assert(r@ =~= spaced(token@));
    r
}

/// The commitment stream with one more id in it.
pub open spec fn with_id(json: Seq<char>, first: bool, token_id: u32) -> Seq<char> {
    if first {
        json + dec(token_id as nat)
    } else {
        json + ","@ + dec(token_id as nat)
    }
}

/// The state after one token.
///
/// The id is always counted and committed. Text is added only until the first
/// terminal token; special tokens add none; byte-fallback tokens collect until a
/// token of another kind decodes them together.
pub open spec fn advanced(state: FinalizeView, token_id: u32, token: DecoderView) -> FinalizeView {
    let counted = FinalizeView {
        json: with_id(state.json, state.count == 0, token_id),
        count: if state.count == u32::MAX {
            u32::MAX
        } else {
            (state.count + 1) as u32
        },
        ..state
    };
    if counted.stopped {
        counted
    } else if token.terminal {
        FinalizeView { stopped: true, ..flushed(counted) }
    } else if token.special {
        flushed(counted)
    } else {
        match fallback_byte(encode_utf8(token.token)) {
            Some(byte) => FinalizeView {
                pending_bytes: standalone(counted.pending_bytes.bytes.push(byte)),
                ..counted
            },
            None => {
                let base = flushed(counted);
                FinalizeView { text: base.text + spaced(token.token), ..base }
            },
        }
    }
}

/// What a token adds to the text behind the pending bytes, if it ends a run of them:
/// nothing for a terminal or a special token, its own text for an ordinary one. A token
/// after the end, and one that spells a byte, leave the bytes pending.
pub open spec fn text_behind(stopped: bool, token: DecoderView) -> Option<Seq<char>> {
    if stopped {
        None
    } else if token.terminal || token.special {
        Some(Seq::empty())
    } else {
        match fallback_byte(encode_utf8(token.token)) {
            Some(_) => None,
            None => Some(spaced(token.token)),
        }
    }
}

/// Adds one token to the commitment stream and the decoder state.
pub fn consume_decoder_token(state: FinalizeState, token_id: u32, token: DecoderToken) -> (r:
    FinalizeState)
    ensures
        r@ == advanced(state@, token_id, token@),
        valid_utf8(state@.pending_bytes.bytes) ==> (text_behind(state@.stopped, token@) matches Some(
            behind,
        ) ==> r@.text == state@.text + decode_utf8(state@.pending_bytes.bytes) + behind),
{
    advance_finalize_state(state, token_id, token)
}

/// One step of the finalization.
pub fn advance_finalize_state(state: FinalizeState, token_id: u32, token: DecoderToken) -> (r:
    FinalizeState)
    ensures
        r@ == advanced(state@, token_id, token@),
        valid_utf8(state@.pending_bytes.bytes) ==> (text_behind(state@.stopped, token@) matches Some(
            behind,
        ) ==> r@.text == state@.text + decode_utf8(state@.pending_bytes.bytes) + behind),
{
    let mut state: FinalizeState = state;
    let ghost start = state@;
    if state.count > 0 {
        state.json.append(",");
    }
    state.json.append(decimal(token_id as u64).as_str());
    if state.count < u32::MAX {
        state.count = state.count + 1;
    }
    if state.stopped {
        return state;
    }
    if token.terminal {
        flush_pending(&mut state);
        state.stopped = true;
        return state;
    }
    if token.special {
        flush_pending(&mut state);
        return state;
    }
    match byte_fallback(token.token.as_str()) {
        Some(byte) => {
            let mut pending: Vec<u8> = slice_to_vec(state.pending_bytes.as_slice());
            pending.push(byte);
            state.pending_bytes = BytesPage { index: 0, offset: 0, bytes: pending };
            return state;
        },
        None => {},
    }
    flush_pending(&mut state);
    let text: String = spaced_text(token.token.as_str());
    state.text.append(text.as_str());
    state
}

/// The closed state: pending bytes decoded, commitment stream ended.
pub open spec fn finished(state: FinalizeView) -> FinalizeView {
    let base = flushed(state);
    FinalizeView { json: base.json + "]"@, ..base }
}

/// Decodes what is pending and ends the commitment stream.
pub fn finish_finalize_state(state: FinalizeState) -> (r: FinalizeState)
    ensures
        r@ == finished(state@),
        valid_utf8(state@.pending_bytes.bytes) ==> r@.text == state@.text + decode_utf8(
            state@.pending_bytes.bytes,
        ),
{
    let mut state: FinalizeState = state;
    flush_pending(&mut state);
    state.json.append("]");
    state
}

/// Whether an edge's flag agrees with its transcript, and the message if not.
pub open spec fn edge_check(has_selected: bool, count: u32) -> Result<u32, Seq<char>> {
    if has_selected != (count > 0) {
        Err(
            "decode edge selection flag "@ + bool_text(has_selected)
                + " disagrees with generated token count "@ + dec(count as nat),
        )
    } else {
        Ok(count)
    }
}

/// Rejects an edge whose flag disagrees with its transcript.
pub fn validate_decode_edge(has_selected: bool, count: u32) -> (r: Result<u32, String>)
    ensures
        outcome(r, edge_check(has_selected, count)),
{
    if has_selected != (count > 0) {
        return Err(
            String::from_str("decode edge selection flag ").concat(
                boolean(has_selected).as_str(),
            ).concat(" disagrees with generated token count ").concat(
                decimal(count as u64).as_str(),
            ),
        );
    }
    Ok(count)
}

/// Why generation ended.
pub open spec fn stop_reason(stopped: bool) -> Seq<char> {
    if stopped {
        "eos"@
    } else {
        "max_new_tokens"@
    }
}

/// Opens the final output: count, commitment, text and stop reason.
pub fn begin_generated_output(output: GeneratedOutput, state: FinalizeState) -> (r:
    GeneratedOutput)
    ensures
        r@ == (GeneratedView {
            generated_token_count: state@.count,
            generated_token_ids: output@.generated_token_ids,
            generated_token_ids_sha256: hex(sha256_digest(encode_utf8(state@.json))),
            generated_text: state@.text,
            stop_reason: stop_reason(state@.stopped),
        }),
{
    let digest: Vec<u8> = sha256(state.json.as_str().as_bytes());
    GeneratedOutput {
        generated_token_count: state.count,
        generated_token_ids: output.generated_token_ids,
        generated_token_ids_sha256: hexadecimal(digest.as_slice()),
        generated_text: state.text,
        stop_reason: if state.stopped {
            String::from_str("eos")
        } else {
            String::from_str("max_new_tokens")
        },
    }
}

/// Copies a chunk of generated ids to the final output.
pub fn copy_output_token_ids(chunk: &[u32], output: GeneratedOutput) -> (r: GeneratedOutput)
    ensures
        r@ == (GeneratedView {
            generated_token_ids: output@.generated_token_ids + chunk@,
            ..output@
        }),
{
    let mut output: GeneratedOutput = output;
    let ghost before = output@;
    let mut i: usize = 0;
    assert(before.generated_token_ids + chunk@.take(0) =~= before.generated_token_ids);
    while i < chunk.len()
        invariant
            i <= chunk.len(),
            output@ == (GeneratedView {
                generated_token_ids: before.generated_token_ids + chunk@.take(i as int),
                ..before
            }),
        decreases chunk.len() - i,
    {
        output.generated_token_ids.push(chunk[i]);
        i += 1;
        assert(before.generated_token_ids + chunk@.take(i as int) =~= (before.generated_token_ids
            + chunk@.take(i - 1)).push(chunk@[i - 1]));
    }
    assert(chunk@.take(i as int) =~= chunk@);
    output
}

/// The state after a run of ids, each looked up in the decoder table.
pub open spec fn consumed(state: FinalizeView, ids: Seq<u32>, tokens: Seq<DecoderView>)
    -> FinalizeView
    decreases ids.len(),
{
    if ids.len() == 0 {
        state
    } else {
        advanced(
            consumed(state, ids.drop_last(), tokens),
            ids.last(),
            tokens[ids.last() as int],
        )
    }
}

/// The text of a run of ids up to its pending bytes, if every run of bytes in it is
/// valid UTF-8.
pub open spec fn spelled(ids: Seq<u32>, tokens: Seq<DecoderView>) -> Option<Seq<char>>
    decreases ids.len(),
{
    if ids.len() == 0 {
        Some(Seq::empty())
    } else {
        let before = consumed(initial_state(), ids.drop_last(), tokens);
        let pending = before.pending_bytes.bytes;
        match (
            spelled(ids.drop_last(), tokens),
            text_behind(before.stopped, tokens[ids.last() as int]),
        ) {
            (None, _) => None,
            (Some(text), None) => Some(text),
            (Some(text), Some(behind)) => if valid_utf8(pending) {
                Some(text + decode_utf8(pending) + behind)
            } else {
                None
            },
        }
    }
}

/// The whole text of a run of ids, if every run of bytes in it is valid UTF-8.
pub open spec fn spelled_out(ids: Seq<u32>, tokens: Seq<DecoderView>) -> Option<Seq<char>> {
    let pending = consumed(initial_state(), ids, tokens).pending_bytes.bytes;
    match spelled(ids, tokens) {
        Some(text) if valid_utf8(pending) => Some(text + decode_utf8(pending)),
        _ => None,
    }
}

/// Resolves one generated token by its id and advances the state.
pub fn decode_generated_token(token_id: u32, state: FinalizeState, tokens: &Vec<DecoderToken>) -> (
r: FinalizeState)
    requires
        token_id < tokens@.len(),
    ensures
        r@ == advanced(state@, token_id, tokens@[token_id as int]@),
        valid_utf8(state@.pending_bytes.bytes) ==> (text_behind(
            state@.stopped,
            tokens@[token_id as int]@,
        ) matches Some(behind) ==> r@.text == state@.text + decode_utf8(
            state@.pending_bytes.bytes,
        ) + behind),
{
    consume_decoder_token(state, token_id, tokens[token_id as usize].clone())
}

/// The final output of a transcript, or why there is none.
pub open spec fn generated(edge: EdgeView, tokens: Seq<DecoderView>) -> Result<
    GeneratedView,
    Seq<char>,
> {
    let state = finished(consumed(initial_state(), edge.generated_token_ids, tokens));
    match edge_check(edge.has_selected, state.count) {
        Err(e) => Err(e),
        Ok(_) => Ok(
            GeneratedView {
                generated_token_count: state.count,
                generated_token_ids: edge.generated_token_ids,
                generated_token_ids_sha256: hex(sha256_digest(encode_utf8(state.json))),
                generated_text: state.text,
                stop_reason: stop_reason(state.stopped),
            },
        ),
    }
}

/// Runs the stage: decodes and commits a transcript.
pub fn finalize_output(edge: &DecodeEdge, decoder: &DecoderTable) -> (r: Result<
    GeneratedOutput,
    String,
>)
    requires
        forall|i: int|
            0 <= i < edge.generated_token_ids@.len() ==> (#[trigger] edge.generated_token_ids@[i])
                < decoder.tokens@.len(),
    ensures
        outcome(r, generated(edge@, views(decoder.tokens@))),
        spelled_out(edge@.generated_token_ids, views(decoder.tokens@)) matches Some(text) ==> (
        r matches Ok(output) ==> output@.generated_text == text),
{
    let ids: &Vec<u32> = &edge.generated_token_ids;
    let mut state: FinalizeState = begin_finalize_state();
    let mut i: usize = 0;
    assert(ids@.take(0) =~= Seq::empty());
    while i < ids.len()
        invariant
            i <= ids.len(),
            forall|j: int| 0 <= j < ids@.len() ==> (#[trigger] ids@[j]) < decoder.tokens@.len(),
            state@ == consumed(initial_state(), ids@.take(i as int), views(decoder.tokens@)),
            spelled(ids@.take(i as int), views(decoder.tokens@)) matches Some(text) ==> state@.text
                == text,
        decreases ids.len() - i,
    {
        state = decode_generated_token(ids[i], state, &decoder.tokens);
        i += 1;
        assert(ids@.take(i as int).drop_last() =~= ids@.take(i - 1));
        assert(ids@.take(i as int).last() == ids@[i - 1]);
    }
    assert(ids@.take(i as int) =~= ids@);
    let state: FinalizeState = finish_finalize_state(state);
    match validate_decode_edge(edge.has_selected, state.count) {
        Ok(_) => {},
        Err(e) => return Err(e),
    }
    let output: GeneratedOutput = begin_generated_output(GeneratedOutput::default(), state);
    let output: GeneratedOutput = copy_output_token_ids(ids.as_slice(), output);
    assert(Seq::<u32>::empty() + ids@ =~= ids@);
    Ok(output)
}

/// Ids rendered and separated by commas.
pub open spec fn joined(ids: Seq<u32>) -> Seq<char>
    decreases ids.len(),
{
    if ids.len() == 0 {
        Seq::empty()
    } else if ids.len() == 1 {
        dec(ids[0] as nat)
    } else {
        joined(ids.drop_last()) + ","@ + dec(ids.last() as nat)
    }
}

/// The commitment stream of a transcript is the JSON array of its ids, and every
/// id is counted, whatever the tokens are.
pub proof fn the_commitment_covers_every_id(ids: Seq<u32>, tokens: Seq<DecoderView>)
    requires
        ids.len() <= u32::MAX,
    ensures
        finished(consumed(initial_state(), ids, tokens)).json == "["@ + joined(ids) + "]"@,
        consumed(initial_state(), ids, tokens).count == ids.len(),
{
    lemma_stream(ids, tokens);
    let state = consumed(initial_state(), ids, tokens);
    assert(flushed(state).json == state.json);
}

proof fn lemma_stream(ids: Seq<u32>, tokens: Seq<DecoderView>)
    requires
        ids.len() <= u32::MAX,
    ensures
        consumed(initial_state(), ids, tokens).json == "["@ + joined(ids),
        consumed(initial_state(), ids, tokens).count == ids.len(),
    decreases ids.len(),
{
    if ids.len() == 0 {
        assert("["@ + joined(ids) =~= "["@);
    } else {
        let rest = ids.drop_last();
        lemma_stream(rest, tokens);
        let last = dec(ids.last() as nat);
        if ids.len() == 1 {
            assert(joined(rest) =~= Seq::empty());
            assert(ids[0] == ids.last());
            assert("["@ + joined(rest) + last =~= "["@ + last);
        } else {
            assert("["@ + joined(rest) + ","@ + last =~= "["@ + (joined(rest) + ","@ + last));
        }
    }
}

/// Once a terminal token has been consumed the text is closed: no later token
/// changes it, and the run stays ended.
pub proof fn text_ends_at_the_terminal_token(
    state: FinalizeView,
    ids: Seq<u32>,
    tokens: Seq<DecoderView>,
)
    requires
        state.stopped,
    ensures
        consumed(state, ids, tokens).text == state.text,
        consumed(state, ids, tokens).pending_bytes == state.pending_bytes,
        consumed(state, ids, tokens).stopped,
    decreases ids.len(),
{
    if ids.len() > 0 {
        text_ends_at_the_terminal_token(state, ids.drop_last(), tokens);
    }
}

/// A run is reported as ended by the model exactly when its transcript has a
/// terminal token.
pub proof fn a_run_stops_exactly_at_a_terminal_token(
    state: FinalizeView,
    ids: Seq<u32>,
    tokens: Seq<DecoderView>,
)
    ensures
        consumed(state, ids, tokens).stopped <==> state.stopped || exists|i: int|
            0 <= i < ids.len() && (#[trigger] tokens[ids[i] as int]).terminal,
    decreases ids.len(),
{
    if ids.len() > 0 {
        let rest = ids.drop_last();
        a_run_stops_exactly_at_a_terminal_token(state, rest, tokens);
        let before = consumed(state, rest, tokens);
        let last = tokens[ids.last() as int];
        assert(ids[ids.len() - 1] == ids.last());
        assert(consumed(state, ids, tokens).stopped == (before.stopped || last.terminal));
        if exists|i: int| 0 <= i < rest.len() && (#[trigger] tokens[rest[i] as int]).terminal {
            let i = choose|i: int|
                0 <= i < rest.len() && (#[trigger] tokens[rest[i] as int]).terminal;
            assert(tokens[ids[i] as int].terminal);
        }
        if exists|i: int| 0 <= i < ids.len() && (#[trigger] tokens[ids[i] as int]).terminal {
            let i = choose|i: int|
                0 <= i < ids.len() && (#[trigger] tokens[ids[i] as int]).terminal;
            if i < rest.len() {
                assert(tokens[rest[i] as int].terminal);
            }
        }
    }
}

/// Consuming a transcript in two pieces is consuming it whole.
pub proof fn consuming_in_pieces_is_consuming_whole(
    state: FinalizeView,
    a: Seq<u32>,
    b: Seq<u32>,
    tokens: Seq<DecoderView>,
)
    ensures
        consumed(consumed(state, a, tokens), b, tokens) == consumed(state, a + b, tokens),
    decreases b.len(),
{
    if b.len() == 0 {
        assert(a + b =~= a);
    } else {
        consuming_in_pieces_is_consuming_whole(state, a, b.drop_last(), tokens);
        assert((a + b).drop_last() =~= a + b.drop_last());
        assert((a + b).last() == b.last());
    }
}

/// Generating nothing is a complete result: no ids, no text, the commitment of
/// the empty list, and no end of turn.
pub proof fn an_empty_transcript_is_complete(tokens: Seq<DecoderView>)
    ensures
        generated(crate::decode::no_selection(), tokens) == Ok::<GeneratedView, Seq<char>>(
            GeneratedView {
                generated_token_count: 0,
                generated_token_ids: Seq::empty(),
                generated_token_ids_sha256: hex(sha256_digest(encode_utf8("["@ + "]"@))),
                generated_text: Seq::empty(),
                stop_reason: "max_new_tokens"@,
            },
        ),
{
    assert(consumed(initial_state(), Seq::empty(), tokens) == initial_state());
}

} // verus!
