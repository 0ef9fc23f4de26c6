//! What the next-token scores are, in terms of the run's last row, the head's numbers
//! and the kernels' answers.

use crate::activations::ActivationsView;
use crate::det_num::dot_spec;
use crate::kernels::{answer, KernelCall, KernelRequest};
use crate::matvec::matrix_row;
use crate::pages::{lanes_of, packed, region, standalone, unpack_undoes_pack};
use crate::prefill_finalize::{
    every_token_is_scored_once, finalize_result, head_error, last_position, no_logits, normalized,
    vocabulary_scores, FinalHead, LogitsView,
};
use crate::prefill_range::layer_laws::answers_in_width;
use vstd::prelude::*;

verus! {

/// A run is scored by its last row. The row is normalised by the kernel with the head's
/// norm weights; the logit of token `t` is the inner product of the answer with row `t`
/// of the table, capped by the kernel if the head has a cap. There is one logit per row
/// of the table, in order, under the row's number, and the position they are for is the
/// one right behind the run.
pub proof fn logits_score_the_normalised_last_row<K: Fn(KernelCall) -> Vec<i32>>(
    kernels: K,
    activations: ActivationsView,
    head: FinalHead,
    table: Seq<i32>,
    vocab: u32,
    page_size: u64,
    x: Seq<i32>,
)
    requires
        head_error(head.params) is None,
        answers_in_width(kernels),
        activations.rows.len() > 0,
        activations.start_position + activations.rows.len() <= u32::MAX,
        activations.rows[activations.rows.len() - 1].values.bytes == packed(x),
        x.len() == head.params.hidden_size,
        table.len() == vocab * head.params.hidden_size,
        4 * table.len() <= u64::MAX,
        page_size > 0,
        page_size as int % (4 * head.params.hidden_size) == 0,
        head.projection@.pages == region(packed(table), page_size).pages,
    ensures
        ({
            let p = head.params;
            let w = p.hidden_size as int;
            let n = answer(
                kernels,
                KernelRequest::RmsNorm {
                    lanes: x,
                    weights: lanes_of(p.norm_weights@.bytes)->Ok_0,
                    eps: p.norm_eps,
                },
            );
            finalize_result(kernels, activations, head) matches Ok(out) && {
                &&& out.decode_position == activations.start_position + activations.rows.len()
                &&& out.errors.len() == 0
                &&& out.logits.len() == vocab
                &&& forall|t: int|
                    0 <= t < vocab ==> (#[trigger] out.logits[t]).token_id == t
                        && out.logits[t].value == {
                        let score = dot_spec(n, table.subrange(t * w, (t + 1) * w));
                        if p.softcap == 0 {
                            score
                        } else {
                            answer(
                                kernels,
                                KernelRequest::Softcap { value: score, cap: p.softcap },
                            )[0]
                        }
                    }
            }
        }),
{
    let p = head.params;
    let w = p.hidden_size as int;
    unpack_undoes_pack(x);
    let n = answer(
        kernels,
        KernelRequest::RmsNorm {
            lanes: x,
            weights: lanes_of(p.norm_weights@.bytes)->Ok_0,
            eps: p.norm_eps,
        },
    );
    let position = last_position(activations.rows);
    assert(normalized(kernels, position, p) == Ok::<crate::pages::PageView, Seq<char>>(
        standalone(packed(n)),
    ));
    let opened = LogitsView {
        decode_position: (activations.start_position + position.token_count) as u32,
        ..no_logits()
    };
    every_token_is_scored_once(kernels, opened, table, n, vocab, p, page_size);
    let scores = vocabulary_scores(kernels, n, table, vocab as nat, p.softcap);
    assert(opened.logits + scores =~= scores);
    assert forall|t: int| 0 <= t < vocab implies (#[trigger] scores[t]).value == {
        let score = dot_spec(n, table.subrange(t * w, (t + 1) * w));
        if p.softcap == 0 {
            score
        } else {
            answer(kernels, KernelRequest::Softcap { value: score, cap: p.softcap })[0]
        }
    } by {
        assert(matrix_row(table, w, t) == table.subrange(t * w, (t + 1) * w));
    }
}

/// A head is accepted exactly if it has a width, neither its epsilon nor its cap is
/// negative, and its norm has one weight per lane; a run without rows has no scores.
pub proof fn accepted_heads_and_runs<K: Fn(KernelCall) -> Vec<i32>>(
    kernels: K,
    activations: ActivationsView,
    head: FinalHead,
)
    ensures
        head_error(head.params) is None <==> {
            let p = head.params;
            &&& p.hidden_size > 0
            &&& p.norm_eps >= 0
            &&& p.softcap >= 0
            &&& p.norm_weights@.bytes.len() == 4 * p.hidden_size
        },
        head_error(head.params) is Some ==> finalize_result(kernels, activations, head) is Err,
        activations.rows.len() == 0 ==> finalize_result(kernels, activations, head) is Err,
{
}

/// Only the last row of a run decides the logits: two runs that end with the same row
/// are scored alike, whatever came before.
pub proof fn earlier_rows_do_not_score<K: Fn(KernelCall) -> Vec<i32>>(
    kernels: K,
    a: ActivationsView,
    b: ActivationsView,
    head: FinalHead,
)
    requires
        a.rows.len() > 0,
        a.rows.len() == b.rows.len(),
        a.start_position == b.start_position,
        a.rows[a.rows.len() - 1].values == b.rows[b.rows.len() - 1].values,
    ensures
        finalize_result(kernels, a, head) == finalize_result(kernels, b, head),
{
    assert(normalized(kernels, last_position(a.rows), head.params) == normalized(
        kernels,
        last_position(b.rows),
        head.params,
    ));
}

} // verus!
