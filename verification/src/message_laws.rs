//! What a refusal says: which of two widths was found and which was expected, and the
//! first of several reasons.

use crate::decode::{next_edge, EdgeView};
use crate::decode_embed::selection_check;
use crate::kernels::KernelCall;
use crate::matvec::{page_product, Rounding};
use crate::numerics::{dot_result, rms_norm_result, row_sum};
use crate::output_finalize::{generated, DecoderView, GeneratedView};
use crate::pages::{lanes_at, lanes_of, PageView};
use crate::prefill_finalize::{head_error, FinalHeadParams, LogitsView};
use crate::prefill_prepare_aux;
use crate::prefill_prepare_aux::PleLayerParams;
use crate::prefill_range::attend::operands;
use crate::prefill_range::input::LayerParams;
use crate::prefill_range::project::{matrix_check, params_error};
use crate::text::{bool_text, dec};
use vstd::prelude::*;

verus! {

/// Rows that do not go together are refused with the width of the first, then that of the
/// second.
pub proof fn unlike_rows_are_named_in_order<K: Fn(KernelCall) -> Vec<i32>>(
    kernels: K,
    a: Seq<i32>,
    b: Seq<i32>,
    eps: i64,
)
    requires
        a.len() != b.len(),
    ensures
        row_sum(a, b) == Err::<Seq<i32>, Seq<char>>(
            "row add width mismatch: "@ + dec(a.len()) + " vs "@ + dec(b.len()),
        ),
        dot_result(a, b) == Err::<i32, Seq<char>>(
            "dot width mismatch: "@ + dec(a.len()) + " vs "@ + dec(b.len()),
        ),
        rms_norm_result(kernels, a, b, eps) == Err::<Seq<i32>, Seq<char>>(
            "rms norm width mismatch: "@ + dec(a.len()) + " values vs "@ + dec(b.len())
                + " weights"@,
        ),
        prefill_prepare_aux::rms_norm_result(a, b, eps) == Err::<Seq<i32>, Seq<char>>(
            "rms norm width mismatch: "@ + dec(a.len()) + " values vs "@ + dec(b.len())
                + " weights"@,
        ),
{
}

/// A page that is no lanes is refused with its length, and a row outside a page with its
/// place.
pub proof fn a_page_that_holds_no_row_says_so(page: PageView, off: u64, n: u32)
    ensures
        page.bytes.len() as int % 4 != 0 ==> lanes_of(page.bytes) == Err::<Seq<i32>, Seq<char>>(
            "page length "@ + dec(page.bytes.len()) + " is not i32-aligned"@,
        ),
        off < page.offset ==> lanes_at(page, off, n) == Err::<Seq<i32>, Seq<char>>(
            "row offset is before this page"@,
        ),
        off >= page.offset && off - page.offset + 4 * n > page.bytes.len() ==> lanes_at(
            page,
            off,
            n,
        ) == Err::<Seq<i32>, Seq<char>>(
            "row at byte "@ + dec(off as nat) + " spans past this page (local "@ + dec(
                (off - page.offset) as nat,
            ) + ", need "@ + dec((4 * n) as nat) + ", have "@ + dec(page.bytes.len()) + ")"@,
        ),
{
}

/// An activation of the wrong width is refused with its own width, then the expected one.
pub proof fn an_activation_of_the_wrong_width_is_named(
    rounding: Rounding,
    out: Seq<u8>,
    page: PageView,
    row: Seq<u8>,
    width: u32,
)
    requires
        row.len() as int % 4 == 0,
        row.len() != 4 * width,
    ensures
        page_product(rounding, out, page, row, width) == Err::<Seq<i32>, Seq<char>>(
            "activation has "@ + dec((row.len() as int / 4) as nat)
                + " values, expected in_width "@ + dec(width as nat),
        ),
{
}

/// A matrix of the wrong size is refused with its own size, then the expected one and its
/// shape.
pub proof fn a_matrix_of_the_wrong_size_is_named(byte_len: u64, out_len: u32, in_width: u32)
    requires
        byte_len != out_len * in_width * 4,
    ensures
        matrix_check(byte_len, out_len, in_width) == Err::<u32, Seq<char>>(
            "matrix has "@ + dec(byte_len as nat) + " bytes, expected "@ + dec(
                (out_len * in_width * 4) as nat,
            ) + " ("@ + dec(out_len as nat) + " x "@ + dec(in_width as nat) + " i32s)"@,
        ),
{
}

/// Attention operands of the wrong width are refused with the widths of the query, the
/// key and the value.
pub proof fn attention_operands_of_the_wrong_width_are_named(
    q: PageView,
    k: PageView,
    v: PageView,
    p: LayerParams,
)
    requires
        lanes_of(q.bytes) is Ok,
        lanes_of(k.bytes) is Ok,
        lanes_of(v.bytes) is Ok,
    ensures
        ({
            let a = (lanes_of(q.bytes)->Ok_0).len();
            let b = (lanes_of(k.bytes)->Ok_0).len();
            let c = (lanes_of(v.bytes)->Ok_0).len();
            let fits = a == p.num_heads * p.head_dim && b == p.num_kv_heads * p.head_dim && c == b;
            &&& operands(q, k, v, p) is Ok <==> fits
            &&& !fits ==> operands(q, k, v, p) == Err::<
                (Seq<i32>, Seq<i32>, Seq<i32>),
                Seq<char>,
            >(
                "attention width mismatch: q "@ + dec(a) + " k "@ + dec(b) + " v "@ + dec(c)
                    + " for "@ + dec(p.num_heads as nat) + "x"@ + dec(p.head_dim as nat)
                    + " over "@ + dec(p.num_kv_heads as nat) + " kv heads"@,
            )
        }),
{
}

/// The first thing wrong with a layer is what it is refused for: its widths, its heads,
/// their grouping, its rotation, its epsilon.
pub proof fn a_layer_is_refused_for_the_first_thing_wrong(p: LayerParams)
    ensures
        ({
            let layer = "layer "@ + dec(p.layer_idx as nat);
            let sized = p.hidden_size > 0 && p.ffn_size > 0;
            let headed = sized && p.num_heads > 0 && p.num_kv_heads > 0 && p.head_dim > 0;
            let grouped = headed && p.num_heads as int % p.num_kv_heads as int == 0;
            let even = grouped && p.rotary_dim as int % 2 == 0;
            let within = even && p.rotary_dim <= p.head_dim;
            let laddered = within && (p.rotary_dim == 0 || (p.rope_freq_base_dim >= 2
                && p.rope_freq_base_dim as int % 2 == 0));
            let based = laddered && (p.rotary_dim == 0 || p.rope_base > 0);
            &&& !sized ==> params_error(p) == Some(
                "transformer layer requires non-zero hidden_size and ffn_size"@,
            )
            &&& sized && !headed ==> params_error(p) == Some(
                "transformer layer requires non-zero num_heads, num_kv_heads and head_dim"@,
            )
            &&& headed && !grouped ==> params_error(p) == Some(
                layer + ": "@ + dec(p.num_heads as nat) + " query heads do not group evenly over "@
                    + dec(p.num_kv_heads as nat) + " kv heads"@,
            )
            &&& grouped && !even ==> params_error(p) == Some(
                layer + ": rotary_dim "@ + dec(p.rotary_dim as nat) + " must be even"@,
            )
            &&& even && !within ==> params_error(p) == Some(
                layer + ": rotary_dim "@ + dec(p.rotary_dim as nat) + " exceeds head_dim "@ + dec(
                    p.head_dim as nat,
                ),
            )
            &&& within && !laddered ==> params_error(p) == Some(
                layer + ": rope_freq_base_dim "@ + dec(p.rope_freq_base_dim as nat)
                    + " must be even and at least 2"@,
            )
            &&& laddered && !based ==> params_error(p) == Some(
                layer + ": rope_base must be positive"@,
            )
            &&& based && p.norm_eps < 0 ==> params_error(p) == Some(
                "rms-norm epsilon must be non-negative"@,
            )
        }),
{
}

/// The first thing wrong with a per-layer-embedding layer, or with a head, is what it is
/// refused for.
pub proof fn a_head_is_refused_for_the_first_thing_wrong(p: PleLayerParams, h: FinalHeadParams)
    ensures
        p.hidden_size == 0 || p.ple_width == 0 ==> prefill_prepare_aux::params_error(p) == Some(
            "PLE layer requires non-zero hidden_size and ple_width"@,
        ),
        p.hidden_size > 0 && p.ple_width > 0 && p.norm_weights@.bytes.len() != 4 * p.ple_width
            ==> prefill_prepare_aux::params_error(p) == Some(
            "layer "@ + dec(p.layer_idx as nat) + " norm weights have "@ + dec(
                p.norm_weights@.bytes.len(),
            ) + " bytes, expected "@ + dec((4 * p.ple_width) as nat),
        ),
        h.hidden_size == 0 ==> head_error(h) == Some(
            "output head requires a non-zero hidden_size"@,
        ),
        h.hidden_size > 0 && h.norm_eps < 0 ==> head_error(h) == Some(
            "rms-norm epsilon must be non-negative"@,
        ),
        h.hidden_size > 0 && h.norm_eps >= 0 && h.softcap < 0 ==> head_error(h) == Some(
            "final logit softcap must be non-negative (0 disables it)"@,
        ),
        h.hidden_size > 0 && h.norm_eps >= 0 && h.softcap >= 0 && h.norm_weights@.bytes.len() != 4
            * h.hidden_size ==> head_error(h) == Some(
            "final norm weights have "@ + dec(h.norm_weights@.bytes.len()) + " bytes, expected "@
                + dec((4 * h.hidden_size) as nat),
        ),
{
}

/// What decoding says where there is nothing to select, nothing to embed, or a flag that
/// disagrees with the transcript.
pub proof fn decoding_says_what_is_missing(
    logits: LogitsView,
    edge: EdgeView,
    tokens: Seq<DecoderView>,
)
    requires
        edge.generated_token_ids.len() <= u32::MAX,
    ensures
        logits.logits.len() == 0 ==> next_edge(logits, edge) == Err::<EdgeView, Seq<char>>(
            "output decode requires at least one logit to select the next token"@,
        ),
        selection_check(false) == Err::<bool, Seq<char>>("decode embed requires a selected token"@),
        selection_check(true) == Ok::<bool, Seq<char>>(true),
        edge.has_selected != (edge.generated_token_ids.len() > 0) ==> generated(edge, tokens)
            == Err::<GeneratedView, Seq<char>>(
            "decode edge selection flag "@ + bool_text(edge.has_selected)
                + " disagrees with generated token count "@ + dec(edge.generated_token_ids.len()),
        ),
{
    crate::output_finalize::the_commitment_covers_every_id(edge.generated_token_ids, tokens);
    if logits.logits.len() == 0 {
        assert(crate::decode::argmax_from(crate::decode::no_argmax(), logits.logits)
            == crate::decode::no_argmax());
    }
}

} // verus!
