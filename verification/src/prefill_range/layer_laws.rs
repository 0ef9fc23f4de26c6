//! What one token's row goes through in a layer, in terms of the layer's matrices, its
//! norm vectors and the kernels' answers.

use crate::activations::{ActivationSequence, KeyRow};
use crate::det_num::{add_sat_spec, dot_spec, mul_spec};
use crate::kernels::{answer, KernelCall, KernelRequest};
use crate::matvec::{paged_matvec_is_the_product, product_of, Rounding};
use crate::packed::{good, PackedView, ProjAccum};
use crate::pages::{lanes_of, packed, region, standalone, unpack_undoes_pack, PageView};
use crate::prefill_range::input::{LayerParams, PackedVec, QueryRow, QueryView};
use crate::prefill_range::layer::finish_mlp;
use crate::prefill_range::matvec::matvec_spec;
use crate::prefill_range::project::params_error;
use crate::prefill_range::stage::{
    after_mlp, attention_context, token_lanes, KeyListsView, TailWeights,
};
use vstd::prelude::*;

verus! {

/// Every request gets an answer of its own width.
pub open spec fn answers_in_width<K: Fn(KernelCall) -> Vec<i32>>(kernels: K) -> bool {
    forall|request: KernelRequest| #[trigger]
        answer(kernels, request).len() == request.width()
}

/// Whether a list of pages is a row-major matrix, in pages of whole rows.
pub open spec fn holds_matrix(
    pages: Seq<PageView>,
    matrix: Seq<i32>,
    out_len: int,
    in_width: int,
) -> bool {
    &&& 0 < in_width <= u32::MAX
    &&& 0 <= out_len <= u32::MAX
    &&& matrix.len() == out_len * in_width
    &&& 4 * matrix.len() <= u64::MAX
    &&& exists|page_size: u64|
        page_size > 0 && page_size as int % (4 * in_width) == 0 && pages == (#[trigger] region(
            packed(matrix),
            page_size,
        )).pages
}

/// The image of a vector under a row-major matrix: lane `i` is the inner product of
/// row `i` with the vector.
pub open spec fn image(matrix: Seq<i32>, out_len: int, x: Seq<i32>) -> Seq<i32> {
    Seq::new(
        out_len as nat,
        |i: int| dot_spec(x, matrix.subrange(i * x.len(), (i + 1) * x.len())),
    )
}

/// A page that holds a matrix's product, when the pages are the matrix and the row is
/// packed.
pub proof fn a_sweep_is_the_image(
    pages: Seq<PageView>,
    matrix: Seq<i32>,
    out_len: u32,
    in_width: u32,
    x: Seq<i32>,
)
    requires
        holds_matrix(pages, matrix, out_len as int, in_width as int),
        x.len() == in_width,
    ensures
        matvec_spec(pages, standalone(packed(x)), in_width, out_len) == good(
            image(matrix, out_len as int, x),
        ),
{
    let page_size = choose|page_size: u64|
        page_size > 0 && page_size as int % (4 * in_width) == 0 && pages == (#[trigger] region(
            packed(matrix),
            page_size,
        )).pages;
    paged_matvec_is_the_product(Rounding::NearestEven, matrix, x, out_len, in_width, page_size);
    assert(product_of(Rounding::NearestEven, matrix, x, out_len) =~= image(
        matrix,
        out_len as int,
        x,
    ));
}

/// A row as the norm kernel answers it for a packed weight vector.
pub open spec fn normalised<K: Fn(KernelCall) -> Vec<i32>>(
    kernels: K,
    x: Seq<i32>,
    weights: PageView,
    eps: i64,
) -> Seq<i32> {
    answer(
        kernels,
        KernelRequest::RmsNorm { lanes: x, weights: lanes_of(weights.bytes)->Ok_0, eps },
    )
}

/// The lane-wise saturating sum of two rows.
pub open spec fn plus(x: Seq<i32>, y: Seq<i32>) -> Seq<i32> {
    Seq::new(x.len(), |i: int| add_sat_spec(x[i], y[i]))
}

proof fn lemma_norm_lanes(weights: PageView, n: u32)
    requires
        weights.bytes.len() == 4 * n,
    ensures
        lanes_of(weights.bytes) is Ok,
        (lanes_of(weights.bytes)->Ok_0).len() == n,
{
}

/// The feed-forward half of a layer. With `x` the residual stream after attention: the
/// attention output goes through `w_o`, is normalised by the post-attention norm and
/// added to the token's own row; that sum is normalised by the pre-feed-forward norm;
/// each feed-forward lane is GELU of `w_gate`'s product times `w_up`'s product; `w_down`
/// brings the lanes back, the post-feed-forward norm normalises them, and they are
/// added to the stream.
pub proof fn the_feed_forward_block<K: Fn(KernelCall) -> Vec<i32>>(
    kernels: K,
    query: QueryView,
    context: PackedView,
    p: LayerParams,
    w: TailWeights,
    o: Seq<i32>,
    gate: Seq<i32>,
    up: Seq<i32>,
    down: Seq<i32>,
    c: Seq<i32>,
    row: Seq<i32>,
)
    requires
        params_error(p) is None,
        p.num_heads * p.head_dim <= u32::MAX,
        answers_in_width(kernels),
        context == good(c),
        c.len() == p.num_heads * p.head_dim,
        query.residual.bytes == packed(row),
        row.len() == p.hidden_size,
        holds_matrix(w.w_o, o, p.hidden_size as int, p.num_heads * p.head_dim),
        holds_matrix(w.w_gate, gate, p.ffn_size as int, p.hidden_size as int),
        holds_matrix(w.w_up, up, p.ffn_size as int, p.hidden_size as int),
        holds_matrix(w.w_down, down, p.hidden_size as int, p.ffn_size as int),
    ensures
        ({
            let h = p.hidden_size as int;
            let f = p.ffn_size as int;
            let eps = p.norm_eps;
            let x = plus(normalised(kernels, image(o, h, c), p.norm_post_attn@, eps), row);
            let n = normalised(kernels, x, p.norm_pre_ffw@, eps);
            let lanes = Seq::new(
                f as nat,
                |i: int|
                    mul_spec(
                        answer(
                            kernels,
                            KernelRequest::Gelu {
                                value: dot_spec(n, gate.subrange(i * h, (i + 1) * h)),
                            },
                        )[0],
                        dot_spec(n, up.subrange(i * h, (i + 1) * h)),
                    ),
            );
            after_mlp(kernels, query, context, p, w) == good(
                plus(normalised(kernels, image(down, h, lanes), p.norm_post_ffw@, eps), x),
            )
        }),
{
    let h = p.hidden_size as int;
    let f = p.ffn_size as int;
    let eps = p.norm_eps;
    lemma_norm_lanes(p.norm_post_attn@, p.hidden_size);
    lemma_norm_lanes(p.norm_pre_ffw@, p.hidden_size);
    lemma_norm_lanes(p.norm_post_ffw@, p.hidden_size);
    let q_len = (p.num_heads * p.head_dim) as u32;
    a_sweep_is_the_image(w.w_o, o, p.hidden_size, q_len, c);
    let a = image(o, h, c);
    unpack_undoes_pack(a);
    unpack_undoes_pack(row);
    let x = plus(normalised(kernels, a, p.norm_post_attn@, eps), row);
    unpack_undoes_pack(x);
    let n = normalised(kernels, x, p.norm_pre_ffw@, eps);
    unpack_undoes_pack(n);
    a_sweep_is_the_image(w.w_gate, gate, p.ffn_size, p.hidden_size, n);
    a_sweep_is_the_image(w.w_up, up, p.ffn_size, p.hidden_size, n);
    let g = image(gate, f, n);
    let u = image(up, f, n);
    unpack_undoes_pack(g);
    unpack_undoes_pack(u);
    let lanes = Seq::new(
        f as nat,
        |i: int|
            mul_spec(
                answer(
                    kernels,
                    KernelRequest::Gelu {
                        value: dot_spec(n, gate.subrange(i * h, (i + 1) * h)),
                    },
                )[0],
                dot_spec(n, up.subrange(i * h, (i + 1) * h)),
            ),
    );
    assert(crate::prefill_range::layer::gated(kernels, g, u) =~= lanes);
    a_sweep_is_the_image(w.w_down, down, p.hidden_size, p.ffn_size, lanes);
    let ff = image(down, h, lanes);
    unpack_undoes_pack(ff);
}

/// The whole second pass of a token. After the feed-forward block leaves the stream at
/// `x`, the per-layer-embedding block gates the token's embedding: each of its lanes is
/// multiplied by GELU of `ple_input_gate`'s product with the stream,
/// `ple_layer_projection` brings the lanes to hidden width, the PLE post-norm normalises
/// them and they are added to the stream. A layer scalar that is not zero scales every
/// lane of the result.
pub proof fn the_embedding_block_and_scalar<K: Fn(KernelCall) -> Vec<i32>>(
    kernels: K,
    query: QueryView,
    lists: KeyListsView,
    p: LayerParams,
    w: TailWeights,
    ple: PageView,
    gate: Seq<i32>,
    project: Seq<i32>,
    embedding: Seq<i32>,
    x: Seq<i32>,
)
    requires
        params_error(p) is None,
        answers_in_width(kernels),
        after_mlp(kernels, query, attention_context(kernels, lists, query, p), p, w) == good(x),
        x.len() == p.hidden_size,
        ple.bytes == packed(embedding),
        embedding.len() == p.ple_width,
        holds_matrix(w.ple_input_gate, gate, p.ple_width as int, p.hidden_size as int),
        holds_matrix(w.ple_layer_projection, project, p.hidden_size as int, p.ple_width as int),
    ensures
        ({
            let h = p.hidden_size as int;
            let lanes = Seq::new(
                p.ple_width as nat,
                |i: int|
                    mul_spec(
                        answer(
                            kernels,
                            KernelRequest::Gelu {
                                value: dot_spec(x, gate.subrange(i * h, (i + 1) * h)),
                            },
                        )[0],
                        embedding[i],
                    ),
            );
            let y = plus(
                normalised(kernels, image(project, h, lanes), p.ple_post_norm@, p.norm_eps),
                x,
            );
            let out = token_lanes(kernels, query, lists, p, w, ple);
            &&& p.layer_scalar == 0 ==> out == Ok::<Seq<i32>, Seq<char>>(y)
            &&& p.layer_scalar != 0 ==> out == Ok::<Seq<i32>, Seq<char>>(
                Seq::new(h as nat, |i: int| mul_spec(y[i], p.layer_scalar)),
            )
        }),
{
    let h = p.hidden_size as int;
    lemma_norm_lanes(p.ple_post_norm@, p.hidden_size);
    unpack_undoes_pack(x);
    unpack_undoes_pack(embedding);
    a_sweep_is_the_image(w.ple_input_gate, gate, p.ple_width, p.hidden_size, x);
    let g = image(gate, p.ple_width as int, x);
    unpack_undoes_pack(g);
    let lanes = Seq::new(
        p.ple_width as nat,
        |i: int|
            mul_spec(
                answer(
                    kernels,
                    KernelRequest::Gelu {
                        value: dot_spec(x, gate.subrange(i * h, (i + 1) * h)),
                    },
                )[0],
                embedding[i],
            ),
    );
    assert(crate::prefill_range::layer::gated(kernels, g, embedding) =~= lanes);
    a_sweep_is_the_image(w.ple_layer_projection, project, p.hidden_size, p.ple_width, lanes);
    let back = image(project, h, lanes);
    unpack_undoes_pack(back);
    let y = plus(normalised(kernels, back, p.ple_post_norm@, p.norm_eps), x);
    assert(crate::numerics::scaled(y, p.layer_scalar) =~= Seq::new(
        h as nat,
        |i: int| mul_spec(y[i], p.layer_scalar),
    ));
}

/// What finishing a token without per-layer embeddings returns: the output with one row
/// more, under the token's id, and its key. The row is the residual stream plus the
/// normalised feed-forward lanes, scaled if the layer has a scalar.
pub proof fn finishing_a_token<K: Fn(KernelCall) -> Vec<i32>>(
    kernels: &K,
    output: ActivationSequence,
    query: &QueryRow,
    residual: &PackedVec,
    ff_in: &PackedVec,
    ff: &ProjAccum,
    p: &LayerParams,
    own_key: KeyRow,
    r: ActivationSequence,
    x: Seq<i32>,
    lanes: Seq<i32>,
)
    requires
        call_ensures(
            finish_mlp::<K>,
            (kernels, output, query, residual, ff_in, ff, p, own_key),
            r,
        ),
        params_error(*p) is None,
        answers_in_width(*kernels),
        residual@ == good(x),
        ff_in@.error.len() == 0,
        ff@ == good(lanes),
        x.len() == p.hidden_size,
        lanes.len() == p.hidden_size,
    ensures
        ({
            let y = plus(normalised(*kernels, lanes, p.norm_post_ffw@, p.norm_eps), x);
            let row = if p.layer_scalar == 0 {
                y
            } else {
                Seq::new(y.len(), |i: int| mul_spec(y[i], p.layer_scalar))
            };
            &&& r@.rows.len() == output@.rows.len() + 1
            &&& r@.rows.last().token_id == query@.token_id
            &&& lanes_of(r@.rows.last().values.bytes) == Ok::<Seq<i32>, Seq<char>>(row)
            &&& r@.errors == output@.errors
            &&& r@.kv == output@.kv.push(own_key@)
            &&& r@.start_position == output@.start_position
        }),
{
    lemma_norm_lanes(p.norm_post_ffw@, p.hidden_size);
    unpack_undoes_pack(x);
    unpack_undoes_pack(lanes);
    let y = plus(normalised(*kernels, lanes, p.norm_post_ffw@, p.norm_eps), x);
    let scaled = Seq::new(y.len(), |i: int| mul_spec(y[i], p.layer_scalar));
    assert(crate::numerics::scaled(y, p.layer_scalar) =~= scaled);
    unpack_undoes_pack(y);
    unpack_undoes_pack(scaled);
}

} // verus!
