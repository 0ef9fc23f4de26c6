//! Stage `input_embedding`: one scaled embedding row per token id.
//!
//! The table is a paged byte region addressed by `token_id * hidden_size * 4`,
//! so a lookup reads the one page that holds the row.

use crate::activations::{
    summarise, summary_of, ActivationRow, ActivationSequence, ActivationsView, ErrorSummary, RowView,
};
use crate::det_num::{mul_sat, mul_spec};
use crate::lists::views_of_push;
use crate::numerics::scaled;
use crate::pages::{
    lanes_at, pack_i32s, packed, page_at, page_index, page_of, region, standalone, unpack_i32s_at,
    Bytes, BytesPage, PageView, RegionView,
};
use crate::matvec::matrix_row;
use crate::page_laws::a_row_is_read_whole;
use crate::text::{dec, decimal, outcome};
use vstd::prelude::*;

verus! {

/// A prompt as token ids.
pub struct PromptTokenization {
    pub token_ids: Vec<u32>,
}

/// The embedding table: vocabulary by hidden, row-major, dense, so a token id
/// is a row index.
pub struct EmbeddingTable {
    pub hidden_size: u32,
    /// Applied to every embedding row, Q16.16 bits.
    pub embedding_scale: i32,
    pub values: Bytes,
}

/// One token id as a step of its own.
pub fn begin_row_lookup(token_id: u32) -> (r: u32)
    ensures
        r == token_id,
{
    token_id
}

/// The byte offset of a token's row.
pub open spec fn row_offset(token_id: u32, hidden_size: u32) -> int {
    token_id * hidden_size * 4
}

/// Byte offset of an embedding row.
pub fn embedding_byte_offset(token_id: u32, hidden_size: u32) -> (r: u64)
    requires
        row_offset(token_id, hidden_size) <= u64::MAX,
    ensures
        r == row_offset(token_id, hidden_size),
{
    proof {
        assert(0 <= token_id * hidden_size) by (nonlinear_arith);
    }
    token_id as u64 * hidden_size as u64 * 4
}

/// The run with one token's row appended, or the message that it has none.
pub open spec fn with_embedding(
    output: ActivationsView,
    token_id: u32,
    page: PageView,
    byte_off: u64,
    hidden_size: u32,
    embedding_scale: i32,
) -> ActivationsView {
    match lanes_at(page, byte_off, hidden_size) {
        Ok(lanes) => ActivationsView {
            rows: output.rows.push(
                RowView { token_id, values: standalone(packed(scaled(lanes, embedding_scale))) },
            ),
            ..output
        },
        Err(_) => ActivationsView {
            errors: output.errors.push(
                "token "@ + dec(token_id as nat) + " has no embedding row of the declared width"@,
            ),
            ..output
        },
    }
}

/// Extracts a row from its page, scales it and appends it, or records a miss
/// when the page does not hold a full row.
pub fn append_activation_row(
    output: ActivationSequence,
    token_id: u32,
    page: &BytesPage,
    byte_off: u64,
    hidden_size: u32,
    embedding_scale: i32,
) -> (r: ActivationSequence)
    ensures
        r@ == with_embedding(output@, token_id, page@, byte_off, hidden_size, embedding_scale),
{
    broadcast use views_of_push;

    let mut output: ActivationSequence = output;
    match unpack_i32s_at(page, byte_off, hidden_size) {
        Ok(values) => {
            let mut lanes: Vec<i32> = Vec::new();
            let mut i: usize = 0;
            while i < values.len()
                invariant
                    i <= values.len(),
                    lanes@.len() == i,
                    forall|j: int| 0 <= j < i ==> lanes@[j] == mul_spec(values@[j], embedding_scale),
                decreases values.len() - i,
            {
                lanes.push(mul_sat(values[i], embedding_scale));
                i += 1;
            }
            assert(lanes@ =~= scaled(values@, embedding_scale));
            output.rows.push(ActivationRow { token_id, values: pack_i32s(lanes.as_slice()) });
        },
        Err(_) => {
            output.errors.push(
                String::from_str("token ").concat(decimal(token_id as u64).as_str()).concat(
                    " has no embedding row of the declared width",
                ),
            );
        },
    }
    output
}

/// The table has a page for a token's row.
pub open spec fn addressable(token_id: u32, hidden_size: u32, table: RegionView) -> bool {
    &&& row_offset(token_id, hidden_size) <= u64::MAX
    &&& page_index(row_offset(token_id, hidden_size) as u64, table.page_size) < table.pages.len()
}

/// The run with one more token embedded.
pub open spec fn embedded(
    output: ActivationsView,
    token_id: u32,
    table: RegionView,
    hidden_size: u32,
    embedding_scale: i32,
) -> ActivationsView {
    let byte_off = row_offset(token_id, hidden_size) as u64;
    with_embedding(
        output,
        token_id,
        table.pages[page_index(byte_off, table.page_size) as int],
        byte_off,
        hidden_size,
        embedding_scale,
    )
}

/// Locates one token's row in the table and appends it.
pub fn embed_prompt_token(
    token_id: u32,
    output: ActivationSequence,
    values: &Bytes,
    hidden_size: u32,
    embedding_scale: i32,
) -> (r: ActivationSequence)
    requires
        addressable(token_id, hidden_size, values@),
    ensures
        r@ == embedded(output@, token_id, values@, hidden_size, embedding_scale),
{
    let token_id: u32 = begin_row_lookup(token_id);
    let byte_off: u64 = embedding_byte_offset(token_id, hidden_size);
    let page_idx: u64 = page_of(byte_off, values.page_size);
    let page: BytesPage = page_at(values, page_idx);
    append_activation_row(output, token_id, &page, byte_off, hidden_size, embedding_scale)
}

/// The run of the first `n` tokens.
pub open spec fn embedded_all(
    output: ActivationsView,
    token_ids: Seq<u32>,
    table: RegionView,
    hidden_size: u32,
    embedding_scale: i32,
    n: nat,
) -> ActivationsView
    decreases n,
{
    if n == 0 {
        output
    } else {
        embedded(
            embedded_all(output, token_ids, table, hidden_size, embedding_scale, (n - 1) as nat),
            token_ids[n - 1],
            table,
            hidden_size,
            embedding_scale,
        )
    }
}

/// Whether every token was embedded, and the message if not.
pub open spec fn embedding_check(count: int, first: Seq<char>) -> Result<u32, Seq<char>> {
    if count == 0 {
        Ok(0)
    } else {
        Err(dec(count as nat) + " prompt token(s) could not be embedded; first: "@ + first)
    }
}

/// Rejects a run that could not embed every token.
pub fn assert_all_tokens_embedded(error_count: u32, first_error: &String) -> (r: Result<
    u32,
    String,
>)
    ensures
        outcome(r, embedding_check(error_count as int, first_error@)),
{
    if error_count == 0 {
        Ok(error_count)
    } else {
        Err(
            decimal(error_count as u64).concat(
                " prompt token(s) could not be embedded; first: ",
            ).concat(first_error.as_str()),
        )
    }
}

/// A run, unless it recorded an error.
pub open spec fn complete(run: ActivationsView) -> Result<ActivationsView, Seq<char>> {
    let summary = summary_of(run.errors);
    match embedding_check(summary.count, summary.first) {
        Err(e) => Err(e),
        Ok(_) => Ok(run),
    }
}

/// Hands a run on, unless it recorded an error.
pub fn require_complete(run: ActivationSequence) -> (r: Result<ActivationSequence, String>)
    requires
        run.errors@.len() <= u32::MAX,
    ensures
        outcome(r, complete(run@)),
{
    let summary: ErrorSummary = summarise(&run.errors);
    match assert_all_tokens_embedded(summary.count, &summary.first) {
        Ok(_) => Ok(run),
        Err(e) => Err(e),
    }
}

/// Runs the stage: embeds every token of a prompt, starting at position zero.
pub fn embed_prompt(prompt: &PromptTokenization, embedding: &EmbeddingTable) -> (r: Result<
    ActivationSequence,
    String,
>)
    requires
        prompt.token_ids@.len() <= u32::MAX,
        forall|i: int|
            0 <= i < prompt.token_ids@.len() ==> addressable(
                #[trigger] prompt.token_ids@[i],
                embedding.hidden_size,
                embedding.values@,
            ),
    ensures
        outcome(
            r,
            complete(
                embedded_all(
                    crate::activations::no_activations(),
                    prompt.token_ids@,
                    embedding.values@,
                    embedding.hidden_size,
                    embedding.embedding_scale,
                    prompt.token_ids@.len(),
                ),
            ),
        ),
{
    let mut output: ActivationSequence = ActivationSequence::empty();
    let mut i: usize = 0;
    while i < prompt.token_ids.len()
        invariant
            i <= prompt.token_ids.len(),
            prompt.token_ids@.len() <= u32::MAX,
            forall|j: int|
                0 <= j < prompt.token_ids@.len() ==> addressable(
                    #[trigger] prompt.token_ids@[j],
                    embedding.hidden_size,
                    embedding.values@,
                ),
            output@.errors.len() <= i,
            output@ == embedded_all(
                crate::activations::no_activations(),
                prompt.token_ids@,
                embedding.values@,
                embedding.hidden_size,
                embedding.embedding_scale,
                i as nat,
            ),
        decreases prompt.token_ids.len() - i,
    {
        output = embed_prompt_token(
            prompt.token_ids[i],
            output,
            &embedding.values,
            embedding.hidden_size,
            embedding.embedding_scale,
        );
        i += 1;
    }
    require_complete(output)
}

/// A token of the vocabulary is addressable and gets exactly its scaled row,
/// provided that a page is a whole number of rows.
pub proof fn a_known_token_gets_its_row(
    output: ActivationsView,
    matrix: Seq<i32>,
    vocab: u32,
    token_id: u32,
    hidden_size: u32,
    embedding_scale: i32,
    page_size: u64,
)
    requires
        hidden_size > 0,
        matrix.len() == vocab * hidden_size,
        4 * matrix.len() <= u64::MAX,
        token_id < vocab,
        page_size > 0,
        page_size as int % (4 * hidden_size) == 0,
    ensures
        addressable(token_id, hidden_size, region(packed(matrix), page_size)),
        embedded(
            output,
            token_id,
            region(packed(matrix), page_size),
            hidden_size,
            embedding_scale,
        ) == (ActivationsView {
            rows: output.rows.push(
                RowView {
                    token_id,
                    values: standalone(
                        packed(
                            scaled(
                                matrix_row(matrix, hidden_size as int, token_id as int),
                                embedding_scale,
                            ),
                        ),
                    ),
                },
            ),
            ..output
        }),
{
    a_row_is_read_whole(matrix, vocab, token_id, hidden_size, page_size);
    assert(row_offset(token_id, hidden_size) == token_id * hidden_size * 4);
}

} // verus!
