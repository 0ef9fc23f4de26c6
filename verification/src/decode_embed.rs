//! Stage `decode_embed`: embeds the token that a decode step selected.
//!
//! The same table, addressing and scale as the prompt's embedding, over exactly
//! one token, at the position the token was selected for.

use crate::activations::{ActivationSequence, ActivationsView};
use crate::decode::{DecodeEdge, EdgeView};
use crate::input_embedding::{
    addressable, complete, embed_prompt_token, embedded, require_complete, EmbeddingTable,
};
use crate::pages::RegionView;
use crate::text::outcome;
use vstd::prelude::*;

verus! {

/// Whether an edge has a token to embed, and the message if not.
pub open spec fn selection_check(has_selected: bool) -> Result<bool, Seq<char>> {
    if has_selected {
        Ok(true)
    } else {
        Err("decode embed requires a selected token"@)
    }
}

/// Rejects an edge that has selected no token.
pub fn require_selected_token(has_selected: bool) -> (r: Result<bool, String>)
    ensures
        outcome(r, selection_check(has_selected)),
{
    if has_selected {
        Ok(true)
    } else {
        Err(String::from_str("decode embed requires a selected token"))
    }
}

/// Opens a decode step's run at the position its token was selected for.
pub fn begin_decode_activations(output: ActivationSequence, decode_position: u32) -> (r:
    ActivationSequence)
    ensures
        r@ == (ActivationsView { start_position: decode_position, ..output@ }),
{
    let mut output: ActivationSequence = output;
    output.start_position = decode_position;
    output
}

/// The run of one selected token, or why there is none.
pub open spec fn decode_embedding(
    selected: EdgeView,
    hidden_size: u32,
    embedding_scale: i32,
    table: RegionView,
) -> Result<ActivationsView, Seq<char>> {
    match selection_check(selected.has_selected) {
        Err(e) => Err(e),
        Ok(_) => complete(
            embedded(
                ActivationsView {
                    start_position: selected.decode_position,
                    ..crate::activations::no_activations()
                },
                selected.token_id,
                table,
                hidden_size,
                embedding_scale,
            ),
        ),
    }
}

/// Runs the stage: embeds the selected token as a run of one row.
pub fn embed_selected(selected: &DecodeEdge, embedding: &EmbeddingTable) -> (r: Result<
    ActivationSequence,
    String,
>)
    requires
        selected.has_selected ==> addressable(
            selected.token_id,
            embedding.hidden_size,
            embedding.values@,
        ),
    ensures
        outcome(
            r,
            decode_embedding(
                selected@,
                embedding.hidden_size,
                embedding.embedding_scale,
                embedding.values@,
            ),
        ),
{
    match require_selected_token(selected.has_selected) {
        Ok(_) => {},
        Err(e) => return Err(e),
    }
    let draft: ActivationSequence = begin_decode_activations(
        ActivationSequence::empty(),
        selected.decode_position,
    );
    let run: ActivationSequence = embed_prompt_token(
        selected.token_id,
        draft,
        &embedding.values,
        embedding.hidden_size,
        embedding.embedding_scale,
    );
    require_complete(run)
}

/// A decode step's run has exactly the selected token's row, at the position the
/// token was selected for.
pub proof fn a_decode_run_is_one_row(
    selected: EdgeView,
    hidden_size: u32,
    embedding_scale: i32,
    table: RegionView,
)
    requires
        decode_embedding(selected, hidden_size, embedding_scale, table) is Ok,
    ensures
        ({
            let run = decode_embedding(selected, hidden_size, embedding_scale, table)->Ok_0;
            &&& run.rows.len() == 1
            &&& run.rows[0].token_id == selected.token_id
            &&& run.start_position == selected.decode_position
            &&& run.kv.len() == 0
        }),
{
}

} // verus!
