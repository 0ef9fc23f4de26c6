//! What a layer's per-layer embeddings are, in terms of the table's, the projection's
//! and the activations' numbers.

use crate::activations::{ActivationsView, PleInputsView, RowView};
use crate::det_num::{clamp_int, inner_product};
use crate::floor_num::{floor_dot_spec, floor_product, floor_sum};
use crate::matvec::{matvec_spec, paged_matvec_is_the_product, product_of, Rounding};
use crate::packed::good;
use crate::page_laws::a_row_is_read_whole;
use crate::pages::{lanes_of, packed, region, standalone, unpack_undoes_pack, PageView};
use crate::prefill_prepare_aux::{
    combined_row, is_isqrt, isqrt_is_unique, mul_spec, params_error, prepare_result, prepared_row,
    prepared_rows, projected_row, projection_lanes, rms_norm_result, rms_of, wrap64, PleLayer,
    PleLayerParams,
};
use vstd::prelude::*;

verus! {

/// This stage's product of two Q16.16 values is the exact one rounded down, held to the
/// range of an activation.
pub proof fn products_round_down(a: i32, b: i32)
    ensures
        ({
            let m = mul_spec(a, b) as int;
            &&& 65536 * m <= a * b < 65536 * (m + 1) || (m == i32::MAX && a * b >= 65536 * (m + 1))
                || (m == i32::MIN && a * b < 65536 * m)
        }),
{
}

/// A sum of lane products, each rounded down, falls short of the exact inner product by
/// less than one unit a lane.
pub proof fn a_floor_sum_falls_short_by_less_than_one_a_lane(a: Seq<i32>, b: Seq<i32>, n: nat)
    ensures
        inner_product(a, b, n) - 65535 * n <= 65536 * floor_sum(a, b, n) <= inner_product(a, b, n),
    decreases n,
{
    if n > 0 {
        a_floor_sum_falls_short_by_less_than_one_a_lane(a, b, (n - 1) as nat);
        let x = a[n - 1] * b[n - 1];
        assert(x - 65535 <= 65536 * (x / 65536) <= x);
        assert(floor_product(a[n - 1], b[n - 1]) == x / 65536);
    }
}

/// This stage's inner product is the floor sum over all lanes, held to the range of an
/// activation.
pub proof fn inner_products_round_down(a: Seq<i32>, b: Seq<i32>)
    requires
        a.len() == b.len(),
    ensures
        ({
            let d = floor_dot_spec(a, b) as int;
            let s = floor_sum(a, b, a.len());
            i32::MIN <= s <= i32::MAX ==> d == s && inner_product(a, b, a.len()) - 65535 * a.len()
                <= 65536 * d <= inner_product(a, b, a.len())
        }),
{
    a_floor_sum_falls_short_by_less_than_one_a_lane(a, b, a.len());
}

/// Normalising divides every weighted lane by one number: the integer root of the row's
/// mean square plus epsilon, in Q16.16. A row whose root is zero stays as it is.
pub proof fn a_row_is_divided_by_its_root_mean_square(
    row: Seq<i32>,
    weights: Seq<i32>,
    eps: i64,
    root: int,
)
    requires
        row.len() == weights.len(),
        row.len() > 0,
        ({
            let mean = floor_sum(row, row, row.len()) / (row.len() as int) + eps;
            &&& 0 < mean * 65536 <= i64::MAX
            &&& root >= 0
            &&& root * root <= mean * 65536
            &&& mean * 65536 < (root + 1) * (root + 1)
        }),
    ensures
        rms_norm_result(row, weights, eps) matches Ok(out) && {
            &&& out.len() == row.len()
            &&& root == 0 ==> out == row
            &&& root > 0 ==> forall|i: int|
                0 <= i < row.len() ==> (#[trigger] out[i]) == {
                    let a = ((row[i] * weights[i]) / 65536) * 65536;
                    clamp_int(
                        if a >= 0 {
                            a / root
                        } else {
                            -((-a) / root)
                        },
                    )
                }
        },
{
    let mean = floor_sum(row, row, row.len()) / (row.len() as int) + eps;
    let m = mean * 65536;
    assert(wrap64(m) == m);
    assert(is_isqrt(m, root));
    let r = choose|r: int| is_isqrt(m, r);
    isqrt_is_unique(m, root, r);
    assert(rms_of(row, eps) == root);
}

/// Rows of unlike widths, and empty rows, are not normalised.
pub proof fn only_rows_of_their_weights_width_are_normalised(
    row: Seq<i32>,
    weights: Seq<i32>,
    eps: i64,
)
    ensures
        rms_norm_result(row, weights, eps) is Err <==> row.len() != weights.len() || row.len() == 0,
{
}

/// The projected half of a row: the projection's product with the activation, scaled by
/// the projection scalar lane by lane, and then normalised.
pub open spec fn projected_half(
    projection: Seq<i32>,
    x: Seq<i32>,
    p: PleLayerParams,
) -> Result<Seq<i32>, Seq<char>> {
    let h = p.hidden_size as int;
    rms_norm_result(
        Seq::new(
            p.ple_width as nat,
            |j: int|
                clamp_int(
                    (floor_dot_spec(x, projection.subrange(j * h, (j + 1) * h))
                        * p.projection_scalar) / 65536,
                ) as i32,
        ),
        lanes_of(p.norm_weights@.bytes)->Ok_0,
        p.norm_eps,
    )
}

/// Lane `j` of a published row: the scaled table entry and the projected half are added,
/// and the sum as a whole is scaled.
pub open spec fn published_lane(entry: i32, projected: i32, p: PleLayerParams) -> int {
    let embedded = clamp_int((entry * p.embedding_scale) / 65536);
    let sum = clamp_int(embedded + projected);
    clamp_int((sum * p.input_scale) / 65536)
}

proof fn lemma_one_row(
    output: PleInputsView,
    row: RowView,
    table: Seq<i32>,
    vocab: u32,
    projection: Seq<i32>,
    pages: Seq<PageView>,
    p: PleLayerParams,
    table_page: u64,
    projection_page: u64,
    x: Seq<i32>,
)
    requires
        params_error(p) is None,
        row.values.bytes == packed(x),
        x.len() == p.hidden_size,
        row.token_id < vocab,
        table.len() == vocab * p.ple_width,
        4 * table.len() <= u64::MAX,
        table_page > 0,
        table_page as int % (4 * p.ple_width) == 0,
        projection.len() == p.ple_width * p.hidden_size,
        4 * projection.len() <= u64::MAX,
        projection_page > 0,
        projection_page as int % (4 * p.hidden_size) == 0,
        pages == region(packed(projection), projection_page).pages,
    ensures
        ({
            let r = prepared_row(output, row, region(packed(table), table_page), pages, p);
            let w = p.ple_width as int;
            &&& r.layer_idx == output.layer_idx
            &&& r.errors == output.errors
            &&& projected_half(projection, x, p) matches Ok(half) && half.len() == w && r.rows
                == output.rows.push(
                standalone(
                    packed(
                        Seq::new(
                            w as nat,
                            |j: int|
                                published_lane(table[row.token_id * w + j], half[j], p) as i32,
                        ),
                    ),
                ),
            )
        }),
{
    let w = p.ple_width as int;
    let t = row.token_id as int;
    lemma_projected(projection, pages, p, projection_page, row.values, x);
    let half = projected_half(projection, x, p)->Ok_0;
    lemma_combined(row.token_id, table, vocab, p, table_page, half);
    let lanes = Seq::new(w as nat, |j: int| published_lane(table[t * w + j], half[j], p) as i32);
    assert((row.token_id * p.ple_width * 4) as u64 == (t * w * 4) as u64);
}

proof fn lemma_combined(
    token_id: u32,
    table: Seq<i32>,
    vocab: u32,
    p: PleLayerParams,
    table_page: u64,
    half: Seq<i32>,
)
    requires
        p.ple_width > 0,
        half.len() == p.ple_width,
        token_id < vocab,
        table.len() == vocab * p.ple_width,
        4 * table.len() <= u64::MAX,
        table_page > 0,
        table_page as int % (4 * p.ple_width) == 0,
    ensures
        ({
            let w = p.ple_width as int;
            let off = (token_id * p.ple_width * 4) as u64;
            let page = region(packed(table), table_page).pages[crate::pages::page_index(
                off,
                table_page,
            ) as int];
            combined_row(token_id, page, off, good(half), p) == Ok::<Seq<i32>, Seq<char>>(
                Seq::new(
                    w as nat,
                    |j: int| published_lane(table[token_id * w + j], half[j], p) as i32,
                ),
            )
        }),
{
    let w = p.ple_width as int;
    let t = token_id as int;
    a_row_is_read_whole(table, vocab, token_id, p.ple_width, table_page);
    unpack_undoes_pack(half);
    assert(0 <= t * w && t * w + w == (t + 1) * w && (t + 1) * w <= vocab * w) by (nonlinear_arith)
        requires
            0 <= t < vocab,
            w > 0,
    ;
    let entries = table.subrange(t * w, (t + 1) * w);
    let off = (token_id * p.ple_width * 4) as u64;
    let page = region(packed(table), table_page).pages[crate::pages::page_index(
        off,
        table_page,
    ) as int];
    let lanes = Seq::new(w as nat, |j: int| published_lane(table[t * w + j], half[j], p) as i32);
    let got = combined_row(token_id, page, off, good(half), p)->Ok_0;
    assert forall|j: int| 0 <= j < w implies #[trigger] got[j] == lanes[j] by {
        assert(entries[j] == table[t * w + j]);
    }
    assert(got =~= lanes);
}

proof fn lemma_projected(
    projection: Seq<i32>,
    pages: Seq<PageView>,
    p: PleLayerParams,
    projection_page: u64,
    row: PageView,
    x: Seq<i32>,
)
    requires
        params_error(p) is None,
        row.bytes == packed(x),
        x.len() == p.hidden_size,
        projection.len() == p.ple_width * p.hidden_size,
        4 * projection.len() <= u64::MAX,
        projection_page > 0,
        projection_page as int % (4 * p.hidden_size) == 0,
        pages == region(packed(projection), projection_page).pages,
    ensures
        projected_half(projection, x, p) matches Ok(half) && half.len() == p.ple_width
            && projected_row(
            matvec_spec(Rounding::Floor, pages, row, p.hidden_size, p.ple_width),
            p,
        ) == good(half),
{
    let h = p.hidden_size as int;
    unpack_undoes_pack(x);
    paged_matvec_is_the_product(
        Rounding::Floor,
        projection,
        x,
        p.ple_width,
        p.hidden_size,
        projection_page,
    );
    let product = product_of(Rounding::Floor, projection, x, p.ple_width);
    lemma_rows_alike(pages, row, standalone(packed(x)), p);
    unpack_undoes_pack(product);
    let scaled = Seq::new(
        p.ple_width as nat,
        |j: int|
            clamp_int(
                (floor_dot_spec(x, projection.subrange(j * h, (j + 1) * h))
                    * p.projection_scalar) / 65536,
            ) as i32,
    );
    assert(crate::prefill_prepare_aux::scaled(product, p.projection_scalar) =~= scaled);
    assert(projection_lanes(good(product), p) == projected_half(projection, x, p));
}

/// The sweep reads only a row's bytes.
proof fn lemma_rows_alike(pages: Seq<PageView>, a: PageView, b: PageView, p: PleLayerParams)
    requires
        a.bytes == b.bytes,
    ensures
        matvec_spec(Rounding::Floor, pages, a, p.hidden_size, p.ple_width) == matvec_spec(
            Rounding::Floor,
            pages,
            b,
            p.hidden_size,
            p.ple_width,
        ),
{
    lemma_sweeps_alike(pages, a, b, p, pages.len());
}

proof fn lemma_sweeps_alike(
    pages: Seq<PageView>,
    a: PageView,
    b: PageView,
    p: PleLayerParams,
    n: nat,
)
    requires
        a.bytes == b.bytes,
    ensures
        crate::matvec::after_pages(
            Rounding::Floor,
            good(crate::packed::zeros(p.ple_width as nat)),
            pages,
            a,
            p.hidden_size,
            n,
        ) == crate::matvec::after_pages(
            Rounding::Floor,
            good(crate::packed::zeros(p.ple_width as nat)),
            pages,
            b,
            p.hidden_size,
            n,
        ),
    decreases n,
{
    if n > 0 {
        lemma_sweeps_alike(pages, a, b, p, (n - 1) as nat);
    }
}

proof fn lemma_rows(
    output: PleInputsView,
    rows: Seq<RowView>,
    table: Seq<i32>,
    vocab: u32,
    projection: Seq<i32>,
    pages: Seq<PageView>,
    p: PleLayerParams,
    table_page: u64,
    projection_page: u64,
    xs: Seq<Seq<i32>>,
    n: nat,
)
    requires
        params_error(p) is None,
        n <= rows.len(),
        xs.len() == rows.len(),
        forall|i: int|
            0 <= i < rows.len() ==> (#[trigger] rows[i]).values.bytes == packed(xs[i])
                && xs[i].len() == p.hidden_size && rows[i].token_id < vocab,
        table.len() == vocab * p.ple_width,
        4 * table.len() <= u64::MAX,
        table_page > 0,
        table_page as int % (4 * p.ple_width) == 0,
        projection.len() == p.ple_width * p.hidden_size,
        4 * projection.len() <= u64::MAX,
        projection_page > 0,
        projection_page as int % (4 * p.hidden_size) == 0,
        pages == region(packed(projection), projection_page).pages,
        output.rows.len() == 0,
    ensures
        ({
            let r = prepared_rows(output, rows, region(packed(table), table_page), pages, p, n);
            let w = p.ple_width as int;
            &&& r.layer_idx == output.layer_idx
            &&& r.errors == output.errors
            &&& r.rows.len() == n
            &&& forall|i: int|
                0 <= i < n ==> {
                    let half = projected_half(projection, xs[i], p);
                    &&& half is Ok
                    &&& (#[trigger] r.rows[i]) == standalone(
                        packed(
                            Seq::new(
                                w as nat,
                                |j: int|
                                    published_lane(
                                        table[rows[i].token_id * w + j],
                                        (half->Ok_0)[j],
                                        p,
                                    ) as i32,
                            ),
                        ),
                    )
                }
        }),
    decreases n,
{
    if n > 0 {
        let m = (n - 1) as nat;
        lemma_rows(
            output,
            rows,
            table,
            vocab,
            projection,
            pages,
            p,
            table_page,
            projection_page,
            xs,
            m,
        );
        let before = prepared_rows(output, rows, region(packed(table), table_page), pages, p, m);
        assert(rows[m as int].token_id < vocab);
        lemma_one_row(
            before,
            rows[m as int],
            table,
            vocab,
            projection,
            pages,
            p,
            table_page,
            projection_page,
            xs[m as int],
        );
    }
}

/// A layer's embeddings, row by row. Each token's row adds its table entry, scaled by
/// the embedding scale, to the normalised projection of its activation, and scales the
/// saturated sum as a whole by the input scale. Every product is rounded down. There is
/// one row per token, in order, under the layer's number.
pub proof fn a_layer_combines_entries_and_projections(
    embedded: ActivationsView,
    layer: PleLayer,
    table: Seq<i32>,
    vocab: u32,
    projection: Seq<i32>,
    table_page: u64,
    projection_page: u64,
    xs: Seq<Seq<i32>>,
)
    requires
        params_error(layer.params) is None,
        layer.projection.byte_len == layer.params.ple_width * layer.params.hidden_size * 4,
        xs.len() == embedded.rows.len(),
        forall|i: int|
            0 <= i < embedded.rows.len() ==> (#[trigger] embedded.rows[i]).values.bytes == packed(
                xs[i],
            ) && xs[i].len() == layer.params.hidden_size && embedded.rows[i].token_id < vocab,
        table.len() == vocab * layer.params.ple_width,
        4 * table.len() <= u64::MAX,
        table_page > 0,
        table_page as int % (4 * layer.params.ple_width) == 0,
        projection.len() == layer.params.ple_width * layer.params.hidden_size,
        4 * projection.len() <= u64::MAX,
        projection_page > 0,
        projection_page as int % (4 * layer.params.hidden_size) == 0,
        layer.embeddings@ == region(packed(table), table_page),
        layer.projection@.pages == region(packed(projection), projection_page).pages,
    ensures
        prepare_result(embedded, layer) matches Ok(out) && {
            let p = layer.params;
            let w = p.ple_width as int;
            &&& out.layer_idx == p.layer_idx
            &&& out.errors.len() == 0
            &&& out.rows.len() == embedded.rows.len()
            &&& forall|i: int|
                0 <= i < out.rows.len() ==> (projected_half(projection, xs[i], p) matches Ok(half)
                    && lanes_of((#[trigger] out.rows[i]).bytes) matches Ok(lanes) && lanes.len()
                    == w && forall|j: int|
                    0 <= j < w ==> (#[trigger] lanes[j]) == published_lane(
                        table[embedded.rows[i].token_id * w + j],
                        half[j],
                        p,
                    ))
        },
{
    let p = layer.params;
    let w = p.ple_width as int;
    let opened = PleInputsView {
        layer_idx: p.layer_idx,
        rows: Seq::empty(),
        errors: Seq::empty(),
    };
    lemma_rows(
        opened,
        embedded.rows,
        table,
        vocab,
        projection,
        layer.projection@.pages,
        p,
        table_page,
        projection_page,
        xs,
        embedded.rows.len(),
    );
    let out = prepare_result(embedded, layer)->Ok_0;
    assert forall|i: int| 0 <= i < out.rows.len() implies (projected_half(
        projection,
        xs[i],
        p,
    ) matches Ok(half) && lanes_of((#[trigger] out.rows[i]).bytes) matches Ok(lanes) && lanes.len()
        == w && forall|j: int|
        0 <= j < w ==> (#[trigger] lanes[j]) == published_lane(
            table[embedded.rows[i].token_id * w + j],
            half[j],
            p,
        )) by {
        let half = projected_half(projection, xs[i], p)->Ok_0;
        let lanes = Seq::new(
            w as nat,
            |j: int|
                published_lane(table[embedded.rows[i].token_id * w + j], half[j], p) as i32,
        );
        unpack_undoes_pack(lanes);
    }
}

/// A published row is a function of the sum alone: two tokens whose scaled entries and
/// projections add up to the same, lane by lane, get the same row.
pub proof fn only_the_sum_counts(
    a_token: u32,
    a_page: PageView,
    a_off: u64,
    a_projected: Seq<i32>,
    b_token: u32,
    b_page: PageView,
    b_off: u64,
    b_projected: Seq<i32>,
    p: PleLayerParams,
    a_entry: Seq<i32>,
    b_entry: Seq<i32>,
)
    requires
        crate::pages::lanes_at(a_page, a_off, p.ple_width) == Ok::<Seq<i32>, Seq<char>>(a_entry),
        crate::pages::lanes_at(b_page, b_off, p.ple_width) == Ok::<Seq<i32>, Seq<char>>(b_entry),
        a_entry.len() == a_projected.len(),
        b_entry.len() == b_projected.len(),
        a_entry.len() == b_entry.len(),
        forall|j: int|
            #![trigger a_entry[j]]
            #![trigger b_entry[j]]
            0 <= j < a_entry.len() ==> clamp_int(
                clamp_int((a_entry[j] * p.embedding_scale) / 65536) + a_projected[j],
            ) == clamp_int(clamp_int((b_entry[j] * p.embedding_scale) / 65536) + b_projected[j]),
    ensures
        combined_row(a_token, a_page, a_off, good(a_projected), p) is Ok,
        combined_row(a_token, a_page, a_off, good(a_projected), p) == combined_row(
            b_token,
            b_page,
            b_off,
            good(b_projected),
            p,
        ),
{
    unpack_undoes_pack(a_projected);
    unpack_undoes_pack(b_projected);
    assert(combined_row(a_token, a_page, a_off, good(a_projected), p)->Ok_0 =~= combined_row(
        b_token,
        b_page,
        b_off,
        good(b_projected),
        p,
    )->Ok_0) by {
        assert forall|j: int| 0 <= j < a_entry.len() implies clamp_int(
            clamp_int((#[trigger] a_entry[j] * p.embedding_scale) / 65536) + a_projected[j],
        ) == clamp_int(clamp_int((b_entry[j] * p.embedding_scale) / 65536) + b_projected[j]) by {}
    }
}

/// With an input scale of zero every lane of every row is zero, whatever the entry and
/// the projection.
pub proof fn a_zero_input_scale_silences_the_row(
    token: u32,
    page: PageView,
    off: u64,
    projected: Seq<i32>,
    p: PleLayerParams,
)
    requires
        p.input_scale == 0,
        crate::pages::lanes_at(page, off, p.ple_width) matches Ok(entry) && entry.len()
            == projected.len(),
    ensures
        combined_row(token, page, off, good(projected), p) matches Ok(lanes) && lanes.len()
            == projected.len() && forall|j: int| 0 <= j < lanes.len() ==> (#[trigger] lanes[j]) == 0,
{
    unpack_undoes_pack(projected);
    let lanes = combined_row(token, page, off, good(projected), p)->Ok_0;
    assert forall|j: int| 0 <= j < lanes.len() implies (#[trigger] lanes[j]) == 0 by {
        let entry = crate::pages::lanes_at(page, off, p.ple_width)->Ok_0;
        let sum = crate::det_num::add_sat_spec(
            mul_spec(entry[j], p.embedding_scale),
            projected[j],
        );
        assert(sum * 0 == 0);
    }
}

/// A layer is accepted exactly if its widths are positive, its norm has one weight per
/// lane, its epsilon is not negative and its projection has the size of its shape.
pub proof fn accepted_layers(embedded: ActivationsView, layer: PleLayer)
    ensures
        params_error(layer.params) is None <==> {
            let p = layer.params;
            &&& p.hidden_size > 0
            &&& p.ple_width > 0
            &&& p.norm_eps >= 0
            &&& p.norm_weights@.bytes.len() == 4 * p.ple_width
        },
        prepare_result(embedded, layer) is Ok ==> params_error(layer.params) is None
            && layer.projection.byte_len == layer.params.ple_width * layer.params.hidden_size * 4,
{
}

/// A mean square beyond 64 bits counts by its low 64 bits, as a signed number; where that
/// is not positive the row stays as it is.
pub proof fn a_mean_square_wraps_at_64_bits(
    row: Seq<i32>,
    weights: Seq<i32>,
    eps: i64,
    wrapped: int,
    root: int,
)
    requires
        row.len() == weights.len(),
        row.len() > 0,
        i64::MIN <= wrapped <= i64::MAX,
        ({
            let mean = floor_sum(row, row, row.len()) / (row.len() as int) + eps;
            (mean * 65536 - wrapped) % 0x1_0000_0000_0000_0000 == 0
        }),
        wrapped > 0 ==> root >= 0 && root * root <= wrapped < (root + 1) * (root + 1),
    ensures
        wrapped <= 0 ==> rms_norm_result(row, weights, eps) == Ok::<Seq<i32>, Seq<char>>(row),
        wrapped > 0 && root > 0 ==> (rms_norm_result(row, weights, eps) matches Ok(out)
            && out.len() == row.len() && forall|i: int|
            0 <= i < row.len() ==> (#[trigger] out[i]) == {
                let a = ((row[i] * weights[i]) / 65536) * 65536;
                clamp_int(
                    if a >= 0 {
                        a / root
                    } else {
                        -((-a) / root)
                    },
                )
            }),
{
    let mean = floor_sum(row, row, row.len()) / (row.len() as int) + eps;
    let m = mean * 65536;
    assert(wrap64(m) == wrapped);
    if wrapped > 0 {
        assert(is_isqrt(wrapped, root));
        let r = choose|r: int| is_isqrt(wrapped, r);
        isqrt_is_unique(wrapped, root, r);
        assert(rms_of(row, eps) == root);
    }
}

} // verus!
