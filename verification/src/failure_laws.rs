//! What is refused, what is reported, and that nothing gets lost on the way.

use crate::activations::{no_activations, summary_of, ActivationsView, PleInputsView, RowView};
use crate::det_num::dot_spec;
use crate::input_embedding::{complete, embedded_all};
use crate::kernels::KernelCall;
use crate::matvec::{after_page, after_pages, lane_dot, page_product, Rounding};
use crate::numerics::softcap_spec;
use crate::packed::PackedView;
use crate::pages::{lanes_at, lanes_of, le_int, page_index, PageView, RegionView};
use crate::prefill_finalize::{
    finalize_result, head_error, page_logits, FinalHead, FinalHeadParams,
};
use crate::prefill_prepare_aux::{prepare_result, prepared_rows, PleLayer, PleLayerParams};
use crate::prefill_range::input::{LayerParams, QueryView, TransformerLayer};
use crate::prefill_range::matvec::matvec_spec;
use crate::prefill_range::project::{matrix_check, params_error, projected};
use crate::prefill_range::stage::{
    after_mlp, attended_rows, attention_context, layer_result, matrices_check, token_lanes,
    KeyListsView, TailWeights,
};
use crate::text::dec;
use vstd::prelude::*;

verus! {

/// Bytes are lanes exactly if they come in fours, one lane for each four.
pub proof fn bytes_are_lanes_in_fours(bytes: Seq<u8>)
    ensures
        lanes_of(bytes) is Ok <==> bytes.len() as int % 4 == 0,
        lanes_of(bytes) matches Ok(lanes) ==> 4 * lanes.len() == bytes.len(),
{
}

/// A row is read from a page exactly if it lies within it, and lane `i` is the number of
/// the four bytes at its place.
pub proof fn a_row_is_read_from_the_page_it_lies_in(page: PageView, off: u64, n: u32)
    ensures
        lanes_at(page, off, n) is Ok <==> page.offset <= off && off + 4 * n <= page.offset
            + page.bytes.len(),
        lanes_at(page, off, n) matches Ok(lanes) ==> lanes.len() == n && forall|i: int|
            0 <= i < n ==> (#[trigger] lanes[i]) == le_int(
                page.bytes.subrange(off - page.offset, off - page.offset + 4 * n),
                4 * i,
                4,
            ) as i32,
{
}

/// A byte lies in the page of its number: pages follow each other without a gap.
pub proof fn a_byte_lies_in_its_page(off: u64, page_size: u64)
    requires
        page_size > 0,
    ensures
        page_index(off, page_size) * page_size <= off < (page_index(off, page_size) + 1)
            * page_size,
{
    vstd::arithmetic::div_mod::lemma_fundamental_div_mod(off as int, page_size as int);
    vstd::arithmetic::div_mod::lemma_mod_bound(off as int, page_size as int);
    let q = off as int / page_size as int;
    assert(page_size * q == q * page_size && (q + 1) * page_size == q * page_size + page_size)
        by (nonlinear_arith);
}

/// A weight page writes exactly its own rows' products, and is refused unless it holds
/// whole rows at a row's place within the output, for an activation of the input width.
pub proof fn a_page_writes_its_own_rows(
    rounding: Rounding,
    out: Seq<u8>,
    page: PageView,
    row: Seq<u8>,
    width: u32,
)
    ensures
        ({
            let bytes = 4 * width;
            let start = page.offset as int / bytes;
            let count = page.bytes.len() as int / bytes;
            let r = page_product(rounding, out, page, row, width);
            &&& r is Ok ==> {
                &&& width > 0
                &&& row.len() == bytes
                &&& page.offset as int % bytes == 0
                &&& page.bytes.len() as int % 4 == 0
                &&& count > 0 ==> 4 * (start + count) <= out.len()
            }
            &&& r matches Ok(lanes) ==> {
                &&& 4 * lanes.len() == out.len()
                &&& forall|i: int|
                    0 <= i < lanes.len() && !(start <= i < start + (lanes_of(
                        page.bytes,
                    )->Ok_0).len() as int / width as int) ==> (#[trigger] lanes[i]) == (lanes_of(
                        out,
                    )->Ok_0)[i]
                &&& forall|i: int|
                    0 <= i < lanes.len() && start <= i < start + (lanes_of(
                        page.bytes,
                    )->Ok_0).len() as int / width as int ==> (#[trigger] lanes[i]) == lane_dot(
                        rounding,
                        lanes_of(row)->Ok_0,
                        (lanes_of(page.bytes)->Ok_0).subrange(
                            (i - start) * width,
                            (i - start + 1) * width,
                        ),
                    )
            }
        }),
{
    let r = page_product(rounding, out, page, row, width);
    if let Ok(lanes) = r {
        let weights = lanes_of(page.bytes)->Ok_0;
        let w = width as int;
        assert(page.bytes.len() == 4 * weights.len());
        vstd::arithmetic::div_mod::lemma_div_denominator(page.bytes.len() as int, 4, w);
        assert(page.bytes.len() as int / 4 == weights.len());
        assert(lanes_of(row)->Ok_0.len() == width);
    }
}

/// An accumulator keeps its first error, and its lanes stay as they were.
pub proof fn a_failed_product_keeps_its_error(
    rounding: Rounding,
    state: PackedView,
    pages: Seq<PageView>,
    row: PageView,
    width: u32,
    n: nat,
)
    requires
        state.error.len() > 0,
    ensures
        after_pages(rounding, state, pages, row, width, n) == state,
    decreases n,
{
    if n > 0 {
        a_failed_product_keeps_its_error(rounding, state, pages, row, width, (n - 1) as nat);
    }
}

/// A refused page is the accumulator's error.
pub proof fn a_refused_page_is_an_error(
    rounding: Rounding,
    state: PackedView,
    page: PageView,
    row: PageView,
    width: u32,
)
    requires
        state.error.len() == 0,
    ensures
        match page_product(rounding, state.values.bytes, page, row.bytes, width) {
            Ok(_) => after_page(rounding, state, page, row, width).error.len() == 0,
            Err(e) => after_page(rounding, state, page, row, width) == (PackedView {
                error: e,
                ..state
            }),
        },
{
}

/// A summary counts the messages and quotes the first.
pub proof fn a_summary_counts_and_quotes_the_first(errors: Seq<Seq<char>>)
    ensures
        summary_of(errors).count == errors.len(),
        errors.len() > 0 ==> summary_of(errors).first == errors[0],
{
}

/// Every token of a prompt is embedded or reported, and a run with a report is refused
/// with their number and the first.
pub proof fn every_token_is_embedded_or_reported(
    ids: Seq<u32>,
    table: RegionView,
    width: u32,
    scale: i32,
    n: nat,
)
    ensures
        ({
            let run = embedded_all(no_activations(), ids, table, width, scale, n);
            &&& run.rows.len() + run.errors.len() == n
            &&& run.kv.len() == 0
            &&& run.start_position == 0
            &&& run.errors.len() > 0 ==> complete(run) == Err::<ActivationsView, Seq<char>>(
                dec(run.errors.len()) + " prompt token(s) could not be embedded; first: "@
                    + run.errors[0],
            )
        }),
    decreases n,
{
    if n > 0 {
        every_token_is_embedded_or_reported(ids, table, width, scale, (n - 1) as nat);
    }
}

/// Every row gets its per-layer embedding or is reported, and a layer with a report is
/// refused with their number and the first.
pub proof fn every_row_is_prepared_or_reported(embedded: ActivationsView, layer: PleLayer)
    ensures
        ({
            let p = layer.params;
            let output = prepared_rows(
                PleInputsView {
                    layer_idx: p.layer_idx,
                    rows: Seq::empty(),
                    errors: Seq::empty(),
                },
                embedded.rows,
                layer.embeddings@,
                layer.projection@.pages,
                p,
                embedded.rows.len(),
            );
            let fits = crate::prefill_prepare_aux::params_error(p) is None
                && layer.projection.byte_len == p.ple_width * p.hidden_size * 4;
            &&& output.rows.len() + output.errors.len() == embedded.rows.len()
            &&& output.layer_idx == p.layer_idx
            &&& fits && output.errors.len() == 0 ==> prepare_result(embedded, layer) == Ok::<
                PleInputsView,
                Seq<char>,
            >(output)
            &&& fits && output.errors.len() > 0 ==> prepare_result(embedded, layer) == Err::<
                PleInputsView,
                Seq<char>,
            >(dec(output.errors.len()) + " PLE row(s) failed; first: "@ + output.errors[0])
            &&& !fits ==> prepare_result(embedded, layer) is Err
        }),
{
    lemma_prepared(
        PleInputsView {
            layer_idx: layer.params.layer_idx,
            rows: Seq::empty(),
            errors: Seq::empty(),
        },
        embedded.rows,
        layer.embeddings@,
        layer.projection@.pages,
        layer.params,
        embedded.rows.len(),
    );
}

proof fn lemma_prepared(
    output: PleInputsView,
    rows: Seq<RowView>,
    embeddings: RegionView,
    projection: Seq<PageView>,
    params: PleLayerParams,
    n: nat,
)
    ensures
        ({
            let after = prepared_rows(output, rows, embeddings, projection, params, n);
            &&& after.rows.len() + after.errors.len() == output.rows.len() + output.errors.len() + n
            &&& after.layer_idx == output.layer_idx
        }),
    decreases n,
{
    if n > 0 {
        lemma_prepared(output, rows, embeddings, projection, params, (n - 1) as nat);
    }
}

/// A page of the vocabulary is scored row by row, under the numbers that its place gives
/// its rows.
pub proof fn a_vocabulary_page_scores_its_own_rows<K: Fn(KernelCall) -> Vec<i32>>(
    kernels: K,
    page: PageView,
    position: PageView,
    p: FinalHeadParams,
)
    ensures
        page_logits(kernels, page, position, p) matches Ok(entries) ==> {
            let h = p.hidden_size as int;
            let x = lanes_of(position.bytes)->Ok_0;
            let weights = lanes_of(page.bytes)->Ok_0;
            &&& h > 0
            &&& position.bytes.len() == 4 * h
            &&& page.offset as int % (4 * h) == 0
            &&& weights.len() as int % h == 0
            &&& entries.len() == weights.len() as int / h
            &&& forall|i: int|
                #![trigger entries[i]]
                0 <= i < entries.len() && page.offset as int / (4 * h) + i <= u32::MAX
                    ==> entries[i].token_id == page.offset as int / (4 * h) + i
                    && entries[i].value == softcap_spec(
                    kernels,
                    dot_spec(x, weights.subrange(i * h, (i + 1) * h)),
                    p.softcap,
                )
        },
{
}

/// A last row that is not of hidden width is not scored.
pub proof fn only_a_whole_row_is_scored<K: Fn(KernelCall) -> Vec<i32>>(
    kernels: K,
    activations: ActivationsView,
    head: FinalHead,
)
    requires
        head_error(head.params) is None,
        activations.rows.len() > 0,
        activations.rows.last().values.bytes.len() != 4 * head.params.hidden_size,
    ensures
        finalize_result(kernels, activations, head) is Err,
{
}

/// A matrix is accepted exactly if it has four bytes for every weight of its shape.
pub proof fn a_matrix_has_four_bytes_a_weight(byte_len: u64, out_len: u32, in_width: u32)
    ensures
        matrix_check(byte_len, out_len, in_width) is Ok <==> byte_len == out_len * in_width * 4,
{
}

/// A token whose attention failed has no output, and the message says where and why.
pub proof fn a_failed_attention_fails_the_token<K: Fn(KernelCall) -> Vec<i32>>(
    kernels: K,
    query: QueryView,
    lists: KeyListsView,
    p: LayerParams,
    w: TailWeights,
    ple: PageView,
)
    requires
        attention_context(kernels, lists, query, p).error.len() > 0,
    ensures
        token_lanes(kernels, query, lists, p, w, ple) == Err::<Seq<i32>, Seq<char>>(
            "token at position "@ + dec(query.position as nat) + ": "@ + attention_context(
                kernels,
                lists,
                query,
                p,
            ).error,
        ),
{
    reveal_strlit("token at position ");
    let context = attention_context(kernels, lists, query, p);
    assert(after_mlp(kernels, query, context, p, w).error.len() > 0);
}

/// A token whose attention output cannot be projected has no output.
pub proof fn a_failed_projection_fails_the_token<K: Fn(KernelCall) -> Vec<i32>>(
    kernels: K,
    query: QueryView,
    lists: KeyListsView,
    p: LayerParams,
    w: TailWeights,
    ple: PageView,
)
    requires
        matvec_spec(
            w.w_o,
            attention_context(kernels, lists, query, p).values,
            (p.num_heads * p.head_dim) as u32,
            p.hidden_size,
        ).error.len() > 0,
    ensures
        token_lanes(kernels, query, lists, p, w, ple) is Err,
{
    reveal_strlit("token at position ");
    let context = attention_context(kernels, lists, query, p);
    assert(after_mlp(kernels, query, context, p, w).error.len() > 0);
}

proof fn lemma_attended_counts<K: Fn(KernelCall) -> Vec<i32>>(
    kernels: K,
    output: ActivationsView,
    queries: Seq<QueryView>,
    lists: KeyListsView,
    p: LayerParams,
    w: TailWeights,
    ple: Seq<PageView>,
    n: nat,
)
    ensures
        ({
            let after = attended_rows(kernels, output, queries, lists, p, w, ple, n);
            &&& after.rows.len() + after.errors.len() == output.rows.len() + output.errors.len() + n
            &&& after.kv.len() == output.kv.len() + n
            &&& after.start_position == output.start_position
        }),
    decreases n,
{
    if n > 0 {
        lemma_attended_counts(kernels, output, queries, lists, p, w, ple, (n - 1) as nat);
    }
}

/// Every query gives a row or a report, and a cache entry either way.
pub proof fn every_query_is_answered_or_reported<K: Fn(KernelCall) -> Vec<i32>>(
    kernels: K,
    output: ActivationsView,
    queries: Seq<QueryView>,
    lists: KeyListsView,
    p: LayerParams,
    w: TailWeights,
    ple: Seq<PageView>,
)
    requires
        output.rows.len() == 0,
        output.errors.len() == 0,
    ensures
        ({
            let after = attended_rows(kernels, output, queries, lists, p, w, ple, queries.len());
            &&& after.rows.len() + after.errors.len() == queries.len()
            &&& after.kv.len() == output.kv.len() + queries.len()
        }),
{
    lemma_attended_counts(kernels, output, queries, lists, p, w, ple, queries.len());
}

/// A layer is refused for its parameters, then for its matrices, then for the rows that
/// could not be projected, with their number and the first.
pub proof fn a_layer_is_refused_for_what_failed_first<K: Fn(KernelCall) -> Vec<i32>>(
    kernels: K,
    activations: ActivationsView,
    layer: TransformerLayer,
    prior: ActivationsView,
    donor_a: ActivationsView,
    donor_b: ActivationsView,
    ple: Seq<PageView>,
)
    ensures
        ({
            let r = layer_result(kernels, activations, layer, prior, donor_a, donor_b, ple);
            let first = projected(
                kernels,
                activations.rows,
                activations.start_position,
                layer.params,
                layer.w_q@.pages,
                layer.w_k@.pages,
                layer.w_v@.pages,
                activations.rows.len(),
            );
            &&& params_error(layer.params) matches Some(e) ==> r == Err::<
                ActivationsView,
                Seq<char>,
            >(e)
            &&& params_error(layer.params) is None && matrices_check(layer) is Err ==> r is Err
            &&& params_error(layer.params) is None && matrices_check(layer) is Ok
                && first.errors.len() > 0 ==> r == Err::<ActivationsView, Seq<char>>(
                dec(first.errors.len()) + " row(s) failed projection; first: "@ + first.errors[0],
            )
        }),
{
}

} // verus!
