//! What the embedding stages make of token ids, in terms of the table's numbers.

use crate::activations::{no_activations, ActivationsView, RowView};
use crate::decode::EdgeView;
use crate::decode_embed::decode_embedding;
use crate::det_num::mul_spec;
use crate::input_embedding::{complete, embedded, embedded_all};
use crate::page_laws::a_row_is_read_whole;
use crate::pages::{packed, region, standalone, unpack_undoes_pack};
use vstd::prelude::*;

verus! {

/// The lanes of a token's scaled row: lane `j` is entry `j` of table row `token_id`,
/// times the scale.
pub open spec fn scaled_entry(
    table: Seq<i32>,
    width: int,
    token_id: int,
    scale: i32,
) -> Seq<i32> {
    Seq::new(width as nat, |j: int| mul_spec(table[token_id * width + j], scale))
}

proof fn lemma_one_token(
    output: ActivationsView,
    table: Seq<i32>,
    vocab: u32,
    token_id: u32,
    width: u32,
    scale: i32,
    page_size: u64,
)
    requires
        width > 0,
        table.len() == vocab * width,
        4 * table.len() <= u64::MAX,
        token_id < vocab,
        page_size > 0,
        page_size as int % (4 * width) == 0,
    ensures
        embedded(output, token_id, region(packed(table), page_size), width, scale) == (
        ActivationsView {
            rows: output.rows.push(
                RowView {
                    token_id,
                    values: standalone(
                        packed(scaled_entry(table, width as int, token_id as int, scale)),
                    ),
                },
            ),
            ..output
        }),
{
    a_row_is_read_whole(table, vocab, token_id, width, page_size);
    let w = width as int;
    let t = token_id as int;
    assert(0 <= t * w && t * w + w == (t + 1) * w && (t + 1) * w <= vocab * w) by (nonlinear_arith)
        requires
            0 <= t < vocab,
            w > 0,
    ;
    let row = table.subrange(t * w, (t + 1) * w);
    assert(crate::numerics::scaled(row, scale) =~= scaled_entry(table, w, t, scale));
}

proof fn lemma_all_tokens(
    table: Seq<i32>,
    vocab: u32,
    ids: Seq<u32>,
    width: u32,
    scale: i32,
    page_size: u64,
    n: nat,
)
    requires
        width > 0,
        table.len() == vocab * width,
        4 * table.len() <= u64::MAX,
        page_size > 0,
        page_size as int % (4 * width) == 0,
        forall|i: int| 0 <= i < ids.len() ==> (#[trigger] ids[i]) < vocab,
        n <= ids.len(),
    ensures
        embedded_all(
            no_activations(),
            ids,
            region(packed(table), page_size),
            width,
            scale,
            n,
        ) == (ActivationsView {
            rows: Seq::new(
                n,
                |i: int|
                    RowView {
                        token_id: ids[i],
                        values: standalone(
                            packed(scaled_entry(table, width as int, ids[i] as int, scale)),
                        ),
                    },
            ),
            errors: Seq::empty(),
            kv: Seq::empty(),
            start_position: 0,
        }),
    decreases n,
{
    let row = |i: int|
        RowView {
            token_id: ids[i],
            values: standalone(packed(scaled_entry(table, width as int, ids[i] as int, scale))),
        };
    if n == 0 {
        assert(Seq::new(0, row) =~= Seq::empty());
    } else {
        let m = (n - 1) as nat;
        lemma_all_tokens(table, vocab, ids, width, scale, page_size, m);
        let before = embedded_all(
            no_activations(),
            ids,
            region(packed(table), page_size),
            width,
            scale,
            m,
        );
        assert(ids[m as int] < vocab);
        lemma_one_token(before, table, vocab, ids[m as int], width, scale, page_size);
        assert(Seq::new(m, row).push(row(m as int)) =~= Seq::new(n, row));
    }
}

/// A prompt of known tokens is embedded in full: one row per id, in order and under the
/// id, each the table's row times the scale; the run starts at position zero with an
/// empty cache.
pub proof fn a_prompt_is_embedded_row_by_row(
    table: Seq<i32>,
    vocab: u32,
    ids: Seq<u32>,
    width: u32,
    scale: i32,
    page_size: u64,
)
    requires
        width > 0,
        table.len() == vocab * width,
        4 * table.len() <= u64::MAX,
        page_size > 0,
        page_size as int % (4 * width) == 0,
        forall|i: int| 0 <= i < ids.len() ==> (#[trigger] ids[i]) < vocab,
    ensures
        complete(
            embedded_all(
                no_activations(),
                ids,
                region(packed(table), page_size),
                width,
                scale,
                ids.len(),
            ),
        ) matches Ok(run) && {
            &&& run.rows.len() == ids.len()
            &&& run.errors.len() == 0
            &&& run.kv.len() == 0
            &&& run.start_position == 0
            &&& forall|i: int|
                0 <= i < ids.len() ==> (#[trigger] run.rows[i]).token_id == ids[i]
                    && crate::pages::lanes_of(run.rows[i].values.bytes) == Ok::<
                    Seq<i32>,
                    Seq<char>,
                >(scaled_entry(table, width as int, ids[i] as int, scale))
        },
{
    lemma_all_tokens(table, vocab, ids, width, scale, page_size, ids.len());
    assert forall|i: int| 0 <= i < ids.len() implies crate::pages::lanes_of(
        packed(#[trigger] scaled_entry(table, width as int, ids[i] as int, scale)),
    ) == Ok::<Seq<i32>, Seq<char>>(
        scaled_entry(table, width as int, ids[i] as int, scale),
    ) by {
        unpack_undoes_pack(scaled_entry(table, width as int, ids[i] as int, scale));
    }
}

/// A decode step embeds the selected token by the same table and scale, as a run of one
/// row at the position it was selected for; without a selection there is no run.
pub proof fn a_selected_token_is_embedded(
    selected: EdgeView,
    table: Seq<i32>,
    vocab: u32,
    width: u32,
    scale: i32,
    page_size: u64,
)
    requires
        width > 0,
        table.len() == vocab * width,
        4 * table.len() <= u64::MAX,
        page_size > 0,
        page_size as int % (4 * width) == 0,
        selected.token_id < vocab,
    ensures
        ({
            let r = decode_embedding(selected, width, scale, region(packed(table), page_size));
            &&& !selected.has_selected ==> r is Err
            &&& selected.has_selected ==> (r matches Ok(run) && {
                &&& run.rows.len() == 1
                &&& run.rows[0].token_id == selected.token_id
                &&& crate::pages::lanes_of(run.rows[0].values.bytes) == Ok::<Seq<i32>, Seq<char>>(
                    scaled_entry(table, width as int, selected.token_id as int, scale),
                )
                &&& run.start_position == selected.decode_position
                &&& run.errors.len() == 0
                &&& run.kv.len() == 0
            })
        }),
{
    lemma_one_token(
        ActivationsView { start_position: selected.decode_position, ..no_activations() },
        table,
        vocab,
        selected.token_id,
        width,
        scale,
        page_size,
    );
    unpack_undoes_pack(scaled_entry(table, width as int, selected.token_id as int, scale));
}

/// A run that recorded a failure is refused, and one that did not is handed on whole.
pub proof fn only_a_whole_run_is_handed_on(run: ActivationsView)
    ensures
        complete(run) is Err <==> run.errors.len() > 0,
        run.errors.len() == 0 ==> complete(run) == Ok::<ActivationsView, Seq<char>>(run),
{
}

} // verus!
