//! Stages `decode_init` and `decode_select_token`: greedy selection and the
//! transcript that is carried from step to step.

use crate::prefill_finalize::{LogitEntry, LogitsView, PrefillLogits};
use crate::text::outcome;
use vstd::prelude::*;

verus! {

/// Empty before generation; one selected token plus the accumulated transcript
/// after each selection.
pub struct DecodeEdge {
    pub has_selected: bool,
    pub decode_position: u32,
    pub token_id: u32,
    pub value: i32,
    pub generated_token_ids: Vec<u32>,
}

/// A decode edge as a mathematical value.
#[verifier::ext_equal]
pub struct EdgeView {
    pub has_selected: bool,
    pub decode_position: u32,
    pub token_id: u32,
    pub value: i32,
    pub generated_token_ids: Seq<u32>,
}

impl View for DecodeEdge {
    type V = EdgeView;

    open spec fn view(&self) -> EdgeView {
        EdgeView {
            has_selected: self.has_selected,
            decode_position: self.decode_position,
            token_id: self.token_id,
            value: self.value,
            generated_token_ids: self.generated_token_ids@,
        }
    }
}

/// The edge before any token is selected.
pub open spec fn no_selection() -> EdgeView {
    EdgeView {
        has_selected: false,
        decode_position: 0,
        token_id: 0,
        value: 0,
        generated_token_ids: Seq::empty(),
    }
}

impl Default for DecodeEdge {
    fn default() -> (r: DecodeEdge)
        ensures
            r@ == no_selection(),
    {
        DecodeEdge {
            has_selected: false,
            decode_position: 0,
            token_id: 0,
            value: 0,
            generated_token_ids: Vec::new(),
        }
    }
}

/// Clears every scalar of an edge; the transcript stays as it is.
pub fn initialize_decode_edge(output: DecodeEdge) -> (r: DecodeEdge)
    ensures
        r@ == (EdgeView {
            generated_token_ids: output@.generated_token_ids,
            ..no_selection()
        }),
{
    DecodeEdge {
        has_selected: false,
        decode_position: 0,
        token_id: 0,
        value: 0,
        generated_token_ids: output.generated_token_ids,
    }
}

/// Runs stage `decode_init`: the edge that a generation starts from, and the
/// whole result of generating nothing.
pub fn open_transcript() -> (r: DecodeEdge)
    ensures
        r@ == no_selection(),
{
    initialize_decode_edge(DecodeEdge::default())
}

/// Loop-carried argmax. `has_value` tells "no logit seen yet" from a score of
/// zero.
#[derive(Clone, Copy, PartialEq, Eq, Structural, Debug)]
pub struct ArgmaxState {
    pub has_value: bool,
    pub token_id: u32,
    pub value: i32,
}

/// The selected next token.
#[derive(Clone, Copy, PartialEq, Eq, Structural, Debug)]
pub struct SelectedToken {
    pub decode_position: u32,
    pub token_id: u32,
    pub value: i32,
}

/// The argmax after one more logit: only a strictly greater score takes over.
pub open spec fn folded_logit(state: ArgmaxState, entry: LogitEntry) -> ArgmaxState {
    if !state.has_value || entry.value > state.value {
        ArgmaxState { has_value: true, token_id: entry.token_id, value: entry.value }
    } else {
        state
    }
}

/// The argmax after a run of logits.
pub open spec fn argmax_from(state: ArgmaxState, logits: Seq<LogitEntry>) -> ArgmaxState
    decreases logits.len(),
{
    if logits.len() == 0 {
        state
    } else {
        folded_logit(argmax_from(state, logits.drop_last()), logits.last())
    }
}

/// The argmax before any logit.
pub open spec fn no_argmax() -> ArgmaxState {
    ArgmaxState { has_value: false, token_id: 0, value: 0 }
}

/// Folds a chunk of logits into the running argmax.
pub fn scan_logit_chunk(chunk: &[LogitEntry], state: ArgmaxState) -> (r: ArgmaxState)
    ensures
        r == argmax_from(state, chunk@),
{
    let ghost start = state;
    let mut state: ArgmaxState = state;
    let mut i: usize = 0;
    assert(chunk@.take(0) =~= Seq::empty());
    while i < chunk.len()
        invariant
            i <= chunk.len(),
            state == argmax_from(start, chunk@.take(i as int)),
        decreases chunk.len() - i,
    {
        let entry: LogitEntry = chunk[i];
        if !state.has_value || entry.value > state.value {
            state = ArgmaxState { has_value: true, token_id: entry.token_id, value: entry.value };
        }
        i += 1;
        assert(chunk@.take(i as int).drop_last() =~= chunk@.take(i - 1));
        assert(chunk@.take(i as int).last() == chunk@[i - 1]);
    }
    assert(chunk@.take(i as int) =~= chunk@);
    state
}

/// How many logits one fold takes.
pub const SCAN_CHUNK: usize = 256;

/// Folds a whole logit list into the argmax, a chunk at a time.
fn scan_logits(logits: &Vec<LogitEntry>) -> (r: ArgmaxState)
    ensures
        r == argmax_from(no_argmax(), logits@),
{
    let mut state: ArgmaxState = ArgmaxState { has_value: false, token_id: 0, value: 0 };
    let mut at: usize = 0;
    assert(logits@.take(0) =~= Seq::empty());
    while at < logits.len()
        invariant
            at <= logits.len(),
            state == argmax_from(no_argmax(), logits@.take(at as int)),
        decreases logits.len() - at,
    {
        let end: usize = if SCAN_CHUNK < logits.len() - at {
            at + SCAN_CHUNK
        } else {
            logits.len()
        };
        let chunk: &[LogitEntry] = &logits[at..end];
        state = scan_logit_chunk(chunk, state);
        proof {
            chunking_does_not_change_the_argmax(no_argmax(), logits@.take(at as int), chunk@);
            assert(logits@.take(at as int) + chunk@ =~= logits@.take(end as int));
        }
        at = end;
    }
    assert(logits@.take(at as int) =~= logits@);
    state
}

/// Folding a list in two pieces is folding it whole.
pub proof fn chunking_does_not_change_the_argmax(
    state: ArgmaxState,
    a: Seq<LogitEntry>,
    b: Seq<LogitEntry>,
)
    ensures
        argmax_from(argmax_from(state, a), b) == argmax_from(state, a + b),
    decreases b.len(),
{
    if b.len() == 0 {
        assert(a + b =~= a);
    } else {
        chunking_does_not_change_the_argmax(state, a, b.drop_last());
        assert((a + b).drop_last() =~= a + b.drop_last());
        assert((a + b).last() == b.last());
    }
}

/// The selection of a logit list, or why there is none.
pub open spec fn selection(state: ArgmaxState, decode_position: u32) -> Result<
    SelectedToken,
    Seq<char>,
> {
    if !state.has_value {
        Err("output decode requires at least one logit to select the next token"@)
    } else {
        Ok(SelectedToken { decode_position, token_id: state.token_id, value: state.value })
    }
}

/// Publishes the selection, refusing a run that scored no token at all.
pub fn finish_selection(state: ArgmaxState, decode_position: u32) -> (r: Result<
    SelectedToken,
    String,
>)
    ensures
        match selection(state, decode_position) {
            Ok(token) => r matches Ok(t) && t == token,
            Err(e) => r matches Err(s) && s@ == e,
        },
{
    if !state.has_value {
        return Err(
            String::from_str("output decode requires at least one logit to select the next token"),
        );
    }
    Ok(SelectedToken { decode_position, token_id: state.token_id, value: state.value })
}

/// Opens the next edge for the selected token.
pub fn begin_decode_edge(output: DecodeEdge, selected: SelectedToken) -> (r: DecodeEdge)
    ensures
        r@ == (EdgeView {
            has_selected: true,
            decode_position: selected.decode_position,
            token_id: selected.token_id,
            value: selected.value,
            generated_token_ids: output@.generated_token_ids,
        }),
{
    DecodeEdge {
        has_selected: true,
        decode_position: selected.decode_position,
        token_id: selected.token_id,
        value: selected.value,
        generated_token_ids: output.generated_token_ids,
    }
}

/// Copies a chunk of the prior transcript into the next edge.
pub fn copy_generated_token_ids(chunk: &[u32], output: DecodeEdge) -> (r: DecodeEdge)
    ensures
        r@ == (EdgeView {
            generated_token_ids: output@.generated_token_ids + chunk@,
            ..output@
        }),
{
    let mut output: DecodeEdge = output;
    let ghost before = output@;
    let mut i: usize = 0;
    assert(before.generated_token_ids + chunk@.take(0) =~= before.generated_token_ids);
    while i < chunk.len()
        invariant
            i <= chunk.len(),
            output@ == (EdgeView {
                generated_token_ids: before.generated_token_ids + chunk@.take(i as int),
                ..before
            }),
        decreases chunk.len() - i,
    {
        output.generated_token_ids.push(chunk[i]);
        i += 1;
        assert(before.generated_token_ids + chunk@.take(i as int) =~= (before.generated_token_ids
            + chunk@.take(i - 1)).push(chunk@[i - 1]));
    }
    assert(chunk@.take(i as int) =~= chunk@);
    output
}

/// Appends exactly the token selected by this step.
pub fn append_selected_token(output: DecodeEdge, selected: SelectedToken) -> (r: DecodeEdge)
    ensures
        r@ == (EdgeView {
            generated_token_ids: output@.generated_token_ids.push(selected.token_id),
            ..output@
        }),
{
    let mut output: DecodeEdge = output;
    output.generated_token_ids.push(selected.token_id);
    output
}

/// The edge after one decode step, or why there is none.
pub open spec fn next_edge(logits: LogitsView, prior: EdgeView) -> Result<EdgeView, Seq<char>> {
    match selection(argmax_from(no_argmax(), logits.logits), logits.decode_position) {
        Err(e) => Err(e),
        Ok(token) => Ok(
            EdgeView {
                has_selected: true,
                decode_position: token.decode_position,
                token_id: token.token_id,
                value: token.value,
                generated_token_ids: prior.generated_token_ids.push(token.token_id),
            },
        ),
    }
}

/// Runs stage `decode_select_token`: selects the next token and appends it to
/// the transcript.
pub fn select_token(logits: &PrefillLogits, prior: &DecodeEdge) -> (r: Result<DecodeEdge, String>)
    ensures
        outcome(r, next_edge(logits@, prior@)),
{
    let best: ArgmaxState = scan_logits(&logits.logits);
    let selected: SelectedToken = match finish_selection(best, logits.decode_position) {
        Ok(token) => token,
        Err(e) => return Err(e),
    };
    let draft: DecodeEdge = begin_decode_edge(DecodeEdge::default(), selected);
    let draft: DecodeEdge = copy_generated_token_ids(prior.generated_token_ids.as_slice(), draft);
    assert(Seq::<u32>::empty() + prior@.generated_token_ids =~= prior@.generated_token_ids);
    Ok(append_selected_token(draft, selected))
}

/// The selected token has the highest score of all, and among equal scores it is
/// the first: greedy selection with ties going to the lowest list position.
pub proof fn the_first_highest_score_wins(logits: Seq<LogitEntry>)
    requires
        logits.len() > 0,
    ensures
        ({
            let best = argmax_from(no_argmax(), logits);
            &&& best.has_value
            &&& exists|i: int|
                #![trigger logits[i]]
                0 <= i < logits.len() && logits[i].token_id == best.token_id && logits[i].value
                    == best.value && (forall|j: int|
                    0 <= j < logits.len() ==> (#[trigger] logits[j]).value <= best.value) && (
                forall|j: int| 0 <= j < i ==> (#[trigger] logits[j]).value < best.value)
        }),
    decreases logits.len(),
{
    let rest = logits.drop_last();
    let last = logits.last();
    if rest.len() == 0 {
        assert(argmax_from(no_argmax(), rest) == no_argmax());
        assert(logits[0] == last);
    } else {
        the_first_highest_score_wins(rest);
        let best = argmax_from(no_argmax(), rest);
        let i = choose|i: int|
            #![trigger rest[i]]
            0 <= i < rest.len() && rest[i].token_id == best.token_id && rest[i].value == best.value
                && (forall|j: int| 0 <= j < rest.len() ==> (#[trigger] rest[j]).value <= best.value)
                && (forall|j: int| 0 <= j < i ==> (#[trigger] rest[j]).value < best.value);
        assert(logits[i] == rest[i]);
        assert(forall|j: int| 0 <= j < rest.len() ==> #[trigger] logits[j] == rest[j]);
        if last.value > best.value {
            assert(logits[logits.len() - 1] == last);
        }
    }
}

/// Each decode step lengthens the transcript by exactly the selected token and
/// leaves what was there unchanged.
pub proof fn a_step_appends_exactly_the_selected_token(logits: LogitsView, prior: EdgeView)
    requires
        next_edge(logits, prior) is Ok,
    ensures
        ({
            let edge = next_edge(logits, prior)->Ok_0;
            &&& edge.generated_token_ids.len() == prior.generated_token_ids.len() + 1
            &&& edge.generated_token_ids.drop_last() == prior.generated_token_ids
            &&& edge.generated_token_ids.last() == edge.token_id
            &&& edge.decode_position == logits.decode_position
        }),
{
    let edge = next_edge(logits, prior)->Ok_0;
    assert(edge.generated_token_ids.drop_last() =~= prior.generated_token_ids);
}

/// The transcript after selecting from each of a run of logit lists in turn.
pub open spec fn transcript(steps: Seq<LogitsView>) -> Result<EdgeView, Seq<char>>
    decreases steps.len(),
{
    if steps.len() == 0 {
        Ok(no_selection())
    } else {
        match transcript(steps.drop_last()) {
            Err(e) => Err(e),
            Ok(prior) => next_edge(steps.last(), prior),
        }
    }
}

/// Selecting `n` times yields exactly `n` token ids, and the edge says whether
/// there are any.
pub proof fn n_steps_yield_n_tokens(steps: Seq<LogitsView>)
    requires
        transcript(steps) is Ok,
    ensures
        transcript(steps)->Ok_0.generated_token_ids.len() == steps.len(),
        transcript(steps)->Ok_0.has_selected <==> steps.len() > 0,
    decreases steps.len(),
{
    if steps.len() > 0 {
        n_steps_yield_n_tokens(steps.drop_last());
    }
}

} // verus!
