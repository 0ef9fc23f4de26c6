//! What each stage of the chain returns for what it is handed.

use crate::activations::{ActivationSequence, PleLayerInputs};
use crate::arith_laws::{
    a_product_is_the_nearest, a_quotient_is_the_nearest, an_accumulator_comes_out_as_the_nearest,
    nearest,
};
use crate::decode::{open_transcript, select_token, DecodeEdge};
use crate::decode_embed::embed_selected;
use crate::det_num::{dot_spec, inner_product};
use crate::embedding_laws::{
    a_prompt_is_embedded_row_by_row, a_selected_token_is_embedded, scaled_entry,
};
use crate::finalize_laws::logits_score_the_normalised_last_row;
use crate::input_embedding::{embed_prompt, EmbeddingTable, PromptTokenization};
use crate::kernels::{answer, KernelCall, KernelRequest};
use crate::lists::views;
use crate::numerics::{div, dot, exp, mul};
use crate::output_finalize::{byte_fallback, finalize_output, DecoderTable, GeneratedOutput};
use crate::output_laws::{
    a_byte_token_spells_its_byte, a_step_selects_the_first_highest_score, concatenated,
    ordinary_tokens_are_concatenated, the_output_reports_the_transcript,
};
use crate::pages::{lanes_of, packed, region};
use crate::prefill_finalize::{finalize_prefill, head_error, FinalHead, PrefillLogits};
use crate::prefill_prepare_aux::{prepare_layer, PleLayer};
use crate::prefill_range::input::TransformerLayer;
use crate::prefill_range::layer_laws::answers_in_width;
use crate::prefill_range::project::projected;
use crate::prefill_range::run_laws::a_layer_maps_a_run;
use crate::prefill_range::stage::{run_layer, token_lanes, KeyListsView, TailWeights};
use crate::prompt_laws::terminated;
use crate::prompt_prepare::{rounds, tokenize_prompt, vocab_of, BpePieces, PromptTokenizer};
use crate::token_laws::a_prompt_gets_the_ids_of_its_merged_pieces;
use vstd::prelude::*;
use vstd::utf8::encode_utf8;

verus! {

/// Multiplying gives the value nearest to the exact product, dividing that nearest to the
/// exact quotient.
pub proof fn arithmetic_gives_the_nearest(a: i32, b: i32, product: i32, quotient: i32)
    requires
        call_ensures(mul, (a, b), product),
        call_ensures(div, (a, b), quotient),
    ensures
        nearest(product, a * b, 65536),
        b > 0 ==> nearest(quotient, a * 65536, b as int),
        b < 0 ==> nearest(quotient, -(a * 65536), -(b as int)),
        b == 0 ==> quotient == 0,
{
    a_product_is_the_nearest(a, b);
    a_quotient_is_the_nearest(a, b);
}

/// An inner product that stays in range is the value nearest to the exact one.
pub proof fn an_inner_product_is_the_nearest(a: &[i32], b: &[i32], r: Result<i32, String>)
    requires
        call_ensures(dot, (a, b), r),
        forall|k: nat|
            k <= a@.len() ==> i64::MIN <= #[trigger] inner_product(a@, b@, k) <= i64::MAX,
    ensures
        r is Ok <==> a@.len() == b@.len(),
        r matches Ok(v) ==> nearest(v, inner_product(a@, b@, a@.len()), 65536),
{
    if a@.len() == b@.len() {
        crate::det_num::a_dot_product_is_rounded_once(a@, b@);
        an_accumulator_comes_out_as_the_nearest(inner_product(a@, b@, a@.len()));
    }
}

/// The exponential keeps the order of its arguments, is one at zero, and ends in zero and
/// in the largest value.
pub proof fn the_exponential_keeps_order(x: i32, y: i32, e: i32, f: i32)
    requires
        x <= y,
        call_ensures(exp, (x,), e),
        call_ensures(exp, (y,), f),
    ensures
        0 <= e <= f,
        x == 0 ==> e == 65536,
        x <= -20 * 65536 ==> e == 0,
        y >= 20 * 65536 ==> f == i32::MAX,
{
    crate::numeric_laws::exp_keeps_order(x, y);
}

/// A prompt is embedded token by token: the rows of the table that its ids name, in
/// order, times the table's scale.
pub proof fn embedding_a_prompt(
    prompt: &PromptTokenization,
    embedding: &EmbeddingTable,
    r: Result<ActivationSequence, String>,
    table: Seq<i32>,
    vocab: u32,
    page_size: u64,
)
    requires
        call_ensures(embed_prompt, (prompt, embedding), r),
        embedding.values@ == region(packed(table), page_size),
        embedding.hidden_size > 0,
        table.len() == vocab * embedding.hidden_size,
        4 * table.len() <= u64::MAX,
        page_size > 0,
        page_size as int % (4 * embedding.hidden_size) == 0,
        forall|i: int|
            0 <= i < prompt.token_ids@.len() ==> (#[trigger] prompt.token_ids@[i]) < vocab,
    ensures
        r matches Ok(run) && {
            let ids = prompt.token_ids@;
            &&& run@.rows.len() == ids.len()
            &&& run@.errors.len() == 0
            &&& run@.kv.len() == 0
            &&& run@.start_position == 0
            &&& forall|i: int|
                0 <= i < ids.len() ==> (#[trigger] run@.rows[i]).token_id == ids[i] && lanes_of(
                    run@.rows[i].values.bytes,
                ) == Ok::<Seq<i32>, Seq<char>>(
                    scaled_entry(
                        table,
                        embedding.hidden_size as int,
                        ids[i] as int,
                        embedding.embedding_scale,
                    ),
                )
        },
{
    a_prompt_is_embedded_row_by_row(
        table,
        vocab,
        prompt.token_ids@,
        embedding.hidden_size,
        embedding.embedding_scale,
        page_size,
    );
}

/// A selected token is embedded by the same table, as a run of one row at the position
/// that it was selected for.
pub proof fn embedding_a_selected_token(
    selected: &DecodeEdge,
    embedding: &EmbeddingTable,
    r: Result<ActivationSequence, String>,
    table: Seq<i32>,
    vocab: u32,
    page_size: u64,
)
    requires
        call_ensures(embed_selected, (selected, embedding), r),
        embedding.values@ == region(packed(table), page_size),
        embedding.hidden_size > 0,
        table.len() == vocab * embedding.hidden_size,
        4 * table.len() <= u64::MAX,
        page_size > 0,
        page_size as int % (4 * embedding.hidden_size) == 0,
        selected.token_id < vocab,
    ensures
        !selected.has_selected ==> r is Err,
        selected.has_selected ==> (r matches Ok(run) && {
            &&& run@.rows.len() == 1
            &&& run@.rows[0].token_id == selected.token_id
            &&& lanes_of(run@.rows[0].values.bytes) == Ok::<Seq<i32>, Seq<char>>(
                scaled_entry(
                    table,
                    embedding.hidden_size as int,
                    selected.token_id as int,
                    embedding.embedding_scale,
                ),
            )
            &&& run@.start_position == selected.decode_position
            &&& run@.errors.len() == 0
            &&& run@.kv.len() == 0
        }),
{
    a_selected_token_is_embedded(
        selected@,
        table,
        vocab,
        embedding.hidden_size,
        embedding.embedding_scale,
        page_size,
    );
}

/// Scoring a run gives one logit per vocabulary row: the inner product of the row with
/// the run's last row, normalised, and capped if the head has a cap.
pub proof fn scoring_a_run<K: Fn(KernelCall) -> Vec<i32>>(
    kernels: &K,
    activations: &ActivationSequence,
    head: FinalHead,
    r: Result<PrefillLogits, String>,
    table: Seq<i32>,
    vocab: u32,
    page_size: u64,
    x: Seq<i32>,
)
    requires
        call_ensures(finalize_prefill::<K>, (kernels, activations, head), r),
        head_error(head.params) is None,
        answers_in_width(*kernels),
        activations@.rows.len() > 0,
        activations@.start_position + activations@.rows.len() <= u32::MAX,
        activations@.rows[activations@.rows.len() - 1].values.bytes == packed(x),
        x.len() == head.params.hidden_size,
        table.len() == vocab * head.params.hidden_size,
        4 * table.len() <= u64::MAX,
        page_size > 0,
        page_size as int % (4 * head.params.hidden_size) == 0,
        head.projection@.pages == region(packed(table), page_size).pages,
    ensures
        r matches Ok(out) && {
            let p = head.params;
            let w = p.hidden_size as int;
            let n = answer(
                *kernels,
                KernelRequest::RmsNorm {
                    lanes: x,
                    weights: lanes_of(p.norm_weights@.bytes)->Ok_0,
                    eps: p.norm_eps,
                },
            );
            &&& out@.decode_position == activations@.start_position + activations@.rows.len()
            &&& out@.logits.len() == vocab
            &&& forall|t: int|
                0 <= t < vocab ==> (#[trigger] out@.logits[t]).token_id == t && out@.logits[t].value
                    == {
                    let score = dot_spec(n, table.subrange(t * w, (t + 1) * w));
                    if p.softcap == 0 {
                        score
                    } else {
                        answer(*kernels, KernelRequest::Softcap { value: score, cap: p.softcap })[0]
                    }
                }
        },
{
    logits_score_the_normalised_last_row(
        *kernels,
        activations@,
        head,
        table,
        vocab,
        page_size,
        x,
    );
}

/// Selecting takes the first of the highest scores, for the position that the scores are
/// for, and appends it to the transcript.
pub proof fn selecting_a_token(
    logits: &PrefillLogits,
    prior: &DecodeEdge,
    r: Result<DecodeEdge, String>,
)
    requires
        call_ensures(select_token, (logits, prior), r),
    ensures
        r is Err <==> logits@.logits.len() == 0,
        r matches Ok(edge) ==> {
            &&& edge@.has_selected
            &&& edge@.decode_position == logits@.decode_position
            &&& edge@.generated_token_ids == prior@.generated_token_ids.push(edge@.token_id)
            &&& exists|i: int|
                #![trigger logits@.logits[i]]
                0 <= i < logits@.logits.len() && logits@.logits[i].token_id == edge@.token_id
                    && logits@.logits[i].value == edge@.value && (forall|j: int|
                    0 <= j < logits@.logits.len() ==> (#[trigger] logits@.logits[j]).value
                        <= edge@.value) && (forall|j: int|
                    0 <= j < i ==> (#[trigger] logits@.logits[j]).value < edge@.value)
        },
{
    a_step_selects_the_first_highest_score(logits@, prior@);
}

/// A transcript opens with nothing selected and no tokens.
pub proof fn opening_a_transcript(r: DecodeEdge)
    requires
        call_ensures(open_transcript, (), r),
    ensures
        !r@.has_selected,
        r@.generated_token_ids.len() == 0,
        r@.decode_position == 0,
{
}

/// Finalizing reports the transcript's ids and their number, and the characters of its
/// tokens one after the other, with spaces for space marks, if all of them are ordinary.
pub proof fn finalizing_a_transcript(
    edge: &DecodeEdge,
    decoder: &DecoderTable,
    r: Result<GeneratedOutput, String>,
)
    requires
        call_ensures(finalize_output, (edge, decoder), r),
        edge@.generated_token_ids.len() <= u32::MAX,
    ensures
        r is Err <==> edge@.has_selected != (edge@.generated_token_ids.len() > 0),
        r matches Ok(out) ==> {
            let ids = edge@.generated_token_ids;
            let tokens = views(decoder.tokens@);
            &&& out@.generated_token_ids == ids
            &&& out@.generated_token_count == ids.len()
            &&& (forall|i: int|
                0 <= i < ids.len() ==> {
                    let token = tokens[(#[trigger] ids[i]) as int];
                    !token.special && !token.terminal && crate::output_finalize::fallback_byte(
                        encode_utf8(token.token),
                    ) is None
                }) ==> out@.generated_text == concatenated(ids, tokens)
            &&& (exists|i: int|
                0 <= i < ids.len() && (#[trigger] tokens[ids[i] as int]).terminal)
                ==> out@.stop_reason == "eos"@
            &&& !(exists|i: int|
                0 <= i < ids.len() && (#[trigger] tokens[ids[i] as int]).terminal)
                ==> out@.stop_reason == "max_new_tokens"@
        },
{
    let ids = edge@.generated_token_ids;
    let tokens = views(decoder.tokens@);
    the_output_reports_the_transcript(edge@, tokens);
    if forall|i: int|
        0 <= i < ids.len() ==> {
            let token = tokens[(#[trigger] ids[i]) as int];
            !token.special && !token.terminal && crate::output_finalize::fallback_byte(
                encode_utf8(token.token),
            ) is None
        } {
        ordinary_tokens_are_concatenated(ids, tokens);
        let last = crate::output_finalize::consumed(
            crate::output_finalize::initial_state(),
            ids,
            tokens,
        );
        assert(last.text + Seq::<char>::empty() =~= last.text);
    }
}

/// A byte token is read as its byte, and nothing else is.
pub proof fn reading_a_byte_token(token: &str, r: Option<u8>, value: u8)
    requires
        call_ensures(byte_fallback, (token,), r),
    ensures
        r == Some(value) ==> encode_utf8(token@).len() == 6 && encode_utf8(token@)[0] == '<' as int
            && encode_utf8(token@)[1] == '0' as int && encode_utf8(token@)[2] == 'x' as int
            && encode_utf8(token@)[5] == '>' as int,
{
    a_byte_token_spells_its_byte(encode_utf8(token@), value);
}

/// A prompt's ids are those of its pieces after eight merge rounds, the terminator left
/// out.
pub proof fn tokenizing_a_prompt(
    tokenizer: &PromptTokenizer,
    pieces: BpePieces,
    r: Result<PromptTokenization, String>,
)
    requires
        call_ensures(tokenize_prompt, (tokenizer, pieces), r),
        terminated(
            rounds(tokenizer@.merge_buckets, "</w>"@, views(pieces.pieces@), 8),
            "</w>"@,
        ),
    ensures
        ({
            let merged = rounds(tokenizer@.merge_buckets, "</w>"@, views(pieces.pieces@), 8);
            &&& r is Ok <==> crate::prompt_laws::settled(tokenizer@.merge_buckets, merged)
            &&& r matches Ok(tokens) ==> tokens.token_ids@.len() == merged.len() - 1 && forall|i: int|
                0 <= i < tokens.token_ids@.len() ==> (#[trigger] tokens.token_ids@[i]) == vocab_of(
                    tokenizer@.vocab_buckets,
                    merged[i],
                ).token_id
        }),
{
    a_prompt_gets_the_ids_of_its_merged_pieces(tokenizer@, views(pieces.pieces@));
}

/// Preparing a layer that succeeds gives one row per activation row.
pub proof fn preparing_a_layer(
    embedded: &ActivationSequence,
    layer: PleLayer,
    r: Result<PleLayerInputs, String>,
)
    requires
        call_ensures(prepare_layer, (embedded, layer), r),
    ensures
        r matches Ok(out) ==> {
            &&& out@.layer_idx == layer.params.layer_idx
            &&& out@.errors.len() == 0
            &&& out@.rows.len() == embedded@.rows.len()
        },
{
    crate::failure_laws::every_row_is_prepared_or_reported(embedded@, layer);
}

/// Running a layer that succeeds gives a run like the one it was handed, each row what
/// the second pass makes of the token's query over the caches in the places that they
/// were handed in, and hands its cache on.
pub proof fn running_a_layer<K: Fn(KernelCall) -> Vec<i32>>(
    kernels: &K,
    activations: &ActivationSequence,
    layer: TransformerLayer,
    prior: ActivationSequence,
    donor_a: ActivationSequence,
    donor_b: ActivationSequence,
    ple: &PleLayerInputs,
    r: Result<ActivationSequence, String>,
)
    requires
        call_ensures(
            run_layer::<K>,
            (kernels, activations, layer, prior, donor_a, donor_b, ple),
            r,
        ),
        activations@.start_position + activations@.rows.len() <= u32::MAX,
    ensures
        r matches Ok(out) ==> {
            let first = projected(
                *kernels,
                activations@.rows,
                activations@.start_position,
                layer.params,
                layer.w_q@.pages,
                layer.w_k@.pages,
                layer.w_v@.pages,
                activations@.rows.len(),
            );
            let lists = KeyListsView {
                prior: prior@.kv,
                own: first.keys,
                donor_a: donor_a@.kv,
                donor_b: donor_b@.kv,
            };
            let w = TailWeights {
                w_o: layer.w_o@.pages,
                w_gate: layer.w_gate@.pages,
                w_up: layer.w_up@.pages,
                w_down: layer.w_down@.pages,
                ple_input_gate: layer.ple_input_gate@.pages,
                ple_layer_projection: layer.ple_layer_projection@.pages,
            };
            &&& out@.rows.len() == activations@.rows.len()
            &&& out@.start_position == activations@.start_position
            &&& out@.errors.len() == 0
            &&& forall|i: int|
                0 <= i < out@.rows.len() ==> (#[trigger] out@.rows[i]).token_id
                    == activations@.rows[i].token_id && (token_lanes(
                    *kernels,
                    first.queries[i],
                    lists,
                    layer.params,
                    w,
                    ple@.rows[i],
                ) matches Ok(lanes) && lanes_of(out@.rows[i].values.bytes) == Ok::<
                    Seq<i32>,
                    Seq<char>,
                >(lanes))
        },
{
    a_layer_maps_a_run(
        *kernels,
        activations@,
        layer,
        prior@,
        donor_a@,
        donor_b@,
        ple@.rows,
    );
}

} // verus!
