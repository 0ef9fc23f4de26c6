//! Matrix-vector products over paged matrices.
//!
//! A matrix is row-major, one output lane per row. Each page is folded into an
//! accumulator on its own; the row a page starts at follows from its byte
//! offset.

use crate::det_num::dot_spec;
use crate::floor_num::{floor_dot, floor_dot_spec};
use crate::lists::views;
use crate::numerics::dot;
use crate::pages::{
    lanes_of, pack_i32s, packed, region, standalone, unpack_i32s, BytesPage, PageView,
};
use crate::packed::{good, zero_accum, zeros, PackedView, ProjAccum};
use crate::text::{dec, decimal};
use vstd::prelude::*;

verus! {

/// How a matrix-vector product rounds.
#[derive(Clone, Copy, PartialEq, Eq, Structural, Debug)]
pub enum Rounding {
    /// Full-width accumulation, one rounding to nearest with ties to even.
    NearestEven,
    /// Every product rounded down to Q16.16 before it is added.
    Floor,
}

/// The inner product of two rows of one width, rounded as asked.
pub open spec fn lane_dot(rounding: Rounding, a: Seq<i32>, b: Seq<i32>) -> i32 {
    match rounding {
        Rounding::NearestEven => dot_spec(a, b),
        Rounding::Floor => floor_dot_spec(a, b),
    }
}

/// Row `i` of a row-major matrix of the given width.
pub open spec fn matrix_row(weights: Seq<i32>, width: int, i: int) -> Seq<i32> {
    weights.subrange(i * width, (i + 1) * width)
}

/// `out` with the products of a run of matrix rows written from `start`.
pub open spec fn with_products(
    rounding: Rounding,
    out: Seq<i32>,
    row: Seq<i32>,
    weights: Seq<i32>,
    start: int,
    count: int,
) -> Seq<i32> {
    Seq::new(
        out.len(),
        |i: int|
            if start <= i < start + count {
                lane_dot(rounding, row, matrix_row(weights, row.len() as int, i - start))
            } else {
                out[i]
            },
    )
}

/// What folding one page into an accumulator makes of its bytes, or why the
/// page is refused.
pub open spec fn page_product(
    rounding: Rounding,
    out: Seq<u8>,
    page: PageView,
    row: Seq<u8>,
    in_width: u32,
) -> Result<Seq<i32>, Seq<char>> {
    match (lanes_of(row), lanes_of(page.bytes), lanes_of(out)) {
        (Err(e), _, _) => Err(e),
        (Ok(lanes), weights, out) => if lanes.len() != in_width {
            Err(
                "activation has "@ + dec(lanes.len()) + " values, expected in_width "@ + dec(
                    in_width as nat,
                ),
            )
        } else if in_width == 0 {
            Err("matvec in_width is zero"@)
        } else {
            match (weights, out) {
                (Err(e), _) => Err(e),
                (Ok(weights), out) => if weights.len() % (in_width as nat) != 0 {
                    Err("weight page does not contain whole output rows"@)
                } else if page.offset as int % (4 * in_width) != 0 {
                    Err("weight page offset is not row-aligned"@)
                } else {
                    match out {
                        Err(e) => Err(e),
                        Ok(out) => {
                            let start = page.offset as int / (4 * in_width);
                            let count = weights.len() as int / in_width as int;
                            if count > 0 && start + count > out.len() {
                                Err("weight page writes past the accumulator"@)
                            } else {
                                Ok(with_products(rounding, out, lanes, weights, start, count))
                            }
                        },
                    }
                },
            }
        },
    }
}

/// The accumulator after one page. An accumulator that carries an error is
/// left alone, and a refused page leaves the lanes as they were.
pub open spec fn after_page(
    rounding: Rounding,
    state: PackedView,
    page: PageView,
    row: PageView,
    in_width: u32,
) -> PackedView {
    if state.error.len() > 0 {
        state
    } else {
        match page_product(rounding, state.values.bytes, page, row.bytes, in_width) {
            Ok(out) => PackedView { values: standalone(packed(out)), error: state.error },
            Err(e) => PackedView { values: state.values, error: e },
        }
    }
}

/// The accumulator after the first `n` pages.
pub open spec fn after_pages(
    rounding: Rounding,
    state: PackedView,
    pages: Seq<PageView>,
    row: PageView,
    in_width: u32,
    n: nat,
) -> PackedView
    decreases n,
{
    if n == 0 {
        state
    } else {
        after_page(rounding, 
            after_pages(rounding, state, pages, row, in_width, (n - 1) as nat),
            pages[n - 1],
            row,
            in_width,
        )
    }
}

/// The product of a paged matrix with a packed row.
pub open spec fn matvec_spec(
    rounding: Rounding,
    pages: Seq<PageView>,
    row: PageView,
    in_width: u32,
    out_len: u32,
) -> PackedView {
    after_pages(rounding, good(zeros(out_len as nat)), pages, row, in_width, pages.len())
}

fn mac_page(
    rounding: Rounding,
    state: &mut ProjAccum,
    page: &BytesPage,
    row: &BytesPage,
    in_width: u32,
) -> (r: Result<(), String>)
    ensures
        final(state).error == old(state).error,
        match page_product(rounding, old(state)@.values.bytes, page@, row@.bytes, in_width) {
            Ok(out) => r is Ok && final(state)@.values == standalone(packed(out)),
            Err(e) => r matches Err(s) && s@ == e && final(state)@.values == old(state)@.values,
        },
{
    let lanes: Vec<i32> = match unpack_i32s(row) {
        Ok(values) => values,
        Err(e) => return Err(e),
    };
    if lanes.len() != in_width as usize {
        return Err(
            String::from_str("activation has ").concat(decimal(lanes.len() as u64).as_str()).concat(
                " values, expected in_width ",
            ).concat(decimal(in_width as u64).as_str()),
        );
    }
    if in_width == 0 {
        return Err(String::from_str("matvec in_width is zero"));
    }
    let weights: Vec<i32> = match unpack_i32s(page) {
        Ok(values) => values,
        Err(e) => return Err(e),
    };
    if weights.len() % lanes.len() != 0 {
        return Err(String::from_str("weight page does not contain whole output rows"));
    }
    let stride: u64 = in_width as u64 * 4;
    if page.offset() % stride != 0 {
        return Err(String::from_str("weight page offset is not row-aligned"));
    }
    let mut out: Vec<i32> = match unpack_i32s(&state.values) {
        Ok(values) => values,
        Err(e) => return Err(e),
    };
    let ghost before = out@;
    let start_row: u64 = page.offset() / stride;
    let rows_in_page: usize = weights.len() / lanes.len();
    let ghost w = lanes@.len() as int;
    let mut local: usize = 0;
    proof {
        assert(start_row <= 0x4000_0000_0000_0000) by (nonlinear_arith)
            requires
                start_row == page.offset / stride,
                stride >= 4,
        ;
        assert(rows_in_page <= weights@.len()) by (nonlinear_arith)
            requires
                rows_in_page == weights@.len() as int / w,
                w >= 1,
        ;
    }
    let ghost total = weights@.len() as int;
    assert(rows_in_page * w == total) by {
        vstd::arithmetic::div_mod::lemma_fundamental_div_mod(total, w);
        assert(rows_in_page * w == w * rows_in_page) by (nonlinear_arith);
    }
    while local < rows_in_page
        invariant
            local <= rows_in_page,
            rows_in_page * w == weights@.len(),
            lanes@.len() == w,
            w >= 1,
            start_row <= 0x4000_0000_0000_0000,
            before.len() == out@.len(),
            start_row + local <= out@.len() || local == 0,
            out@ == with_products(rounding, before, lanes@, weights@, start_row as int, local as int),
            state.error == old(state).error,
            *state == *old(state),
            rows_in_page == weights@.len() as int / w,
            start_row == page@.offset as int / (4 * in_width),
            in_width == w,
            page_product(rounding, old(state)@.values.bytes, page@, row@.bytes, in_width) == (if rows_in_page
                > 0 && start_row + rows_in_page > before.len() {
                Err::<Seq<i32>, Seq<char>>("weight page writes past the accumulator"@)
            } else {
                Ok(with_products(rounding, before, lanes@, weights@, start_row as int, rows_in_page as int))
            }),
        decreases rows_in_page - local,
    {
        assert(out.len() <= usize::MAX && weights.len() <= usize::MAX);
        let out_idx: u64 = start_row + local as u64;
        if out_idx >= out.len() as u64 {
            return Err(String::from_str("weight page writes past the accumulator"));
        }
        assert(0 <= local * w && (local + 1) * w <= weights@.len() && (local + 1) * w == local * w
            + w) by (nonlinear_arith)
            requires
                local < rows_in_page,
                rows_in_page * w == weights@.len(),
                w >= 1,
        ;
        let from: usize = local * lanes.len();
        let weight_row: &[i32] = &weights[from..from + lanes.len()];
        let product: i32 = match rounding {
            Rounding::NearestEven => match dot(lanes.as_slice(), weight_row) {
                Ok(value) => value,
                Err(e) => return Err(e),
            },
            Rounding::Floor => match floor_dot(lanes.as_slice(), weight_row) {
                Ok(value) => value,
                Err(e) => return Err(e),
            },
        };
        out.set(out_idx as usize, product);
        local += 1;
        assert(out@ =~= with_products(rounding, before, lanes@, weights@, start_row as int, local as int));
    }
    state.values = pack_i32s(out.as_slice());
    Ok(())
}

/// Folds one page of a row-major matrix into the accumulator: each output lane
/// is the inner product of `row` with one matrix row.
pub fn mac_weight_page(
    rounding: Rounding, page: &BytesPage, state: ProjAccum, row: &BytesPage, in_width: u32) -> (r:
    ProjAccum)
    ensures
        r@ == after_page(rounding, state@, page@, row@, in_width),
{
    let mut state: ProjAccum = state;
    if !state.error.as_str().is_empty() {
        return state;
    }
    match mac_page(rounding, &mut state, page, row, in_width) {
        Ok(()) => {},
        Err(error) => {
            state.error = error;
        },
    }
    state
}

/// The product of a paged matrix with a packed row: a sweep over the pages.
pub fn matvec(
    rounding: Rounding, pages: &Vec<BytesPage>, row: &BytesPage, in_width: u32, out_len: u32) -> (r:
    ProjAccum)
    ensures
        r@ == matvec_spec(rounding, views(pages@), row@, in_width, out_len),
{
    let mut state: ProjAccum = zero_accum(out_len);
    let mut i: usize = 0;
    while i < pages.len()
        invariant
            i <= pages.len(),
            state@ == after_pages(rounding, 
                good(zeros(out_len as nat)),
                views(pages@),
                row@,
                in_width,
                i as nat,
            ),
        decreases pages.len() - i,
    {
        state = mac_weight_page(rounding, &pages[i], state, row, in_width);
        i += 1;
    }
    state
}

/// The rows of a paged matrix that page `n` holds, when a page is `rows` matrix
/// rows: from `n * rows` up to the next page's first, or the matrix's last.
pub open spec fn rows_end(n: int, rows: int, out_len: int) -> int {
    if (n + 1) * rows < out_len {
        (n + 1) * rows
    } else {
        out_len
    }
}

/// Where a page is a whole number of matrix rows, page `n` of a paged matrix
/// holds exactly the rows from `n * rows` on, and its offset says so.
pub proof fn page_holds_whole_rows(
    matrix: Seq<i32>,
    out_len: u32,
    in_width: u32,
    page_size: u64,
    rows: int,
    n: int,
)
    requires
        in_width > 0,
        matrix.len() == out_len * in_width,
        rows > 0,
        page_size == rows * (4 * in_width),
        4 * matrix.len() <= u64::MAX,
        0 <= n < region(packed(matrix), page_size).pages.len(),
    ensures
        ({
            let page = region(packed(matrix), page_size).pages[n];
            let w = in_width as int;
            let s = n * rows;
            let e = rows_end(n, rows, out_len as int);
            let weights = matrix.subrange(s * w, e * w);
            &&& 0 <= s < e <= out_len
            &&& 0 <= s * w <= e * w <= matrix.len()
            &&& lanes_of(page.bytes) == Ok::<Seq<i32>, Seq<char>>(weights)
            &&& weights.len() as int % w == 0
            &&& weights.len() as int / w == e - s
            &&& page.offset as int % (4 * in_width) == 0
            &&& page.offset as int / (4 * in_width) == s
            &&& forall|i: int|
                s <= i < e ==> #[trigger] matrix_row(weights, w, i - s) == matrix_row(matrix, w, i)
        }),
{
    let w = in_width as int;
    let stride = 4 * w;
    let bytes = packed(matrix);
    let page = region(bytes, page_size).pages[n];
    let s = n * rows;
    let e = rows_end(n, rows, out_len as int);
    let ps = page_size as int;
    assert(ps > 0) by (nonlinear_arith)
        requires
            ps == rows * (4 * w),
            rows > 0,
            w > 0,
    ;
    let len = bytes.len() as int;
    assert(0 <= n * ps < len) by (nonlinear_arith)
        requires
            ps > 0,
            0 <= n < (len + ps - 1) / ps,
    ;
    assert(n * ps == 4 * (s * w) && n * ps == s * stride && n * ps + ps == 4 * (((n + 1) * rows) * w))
        by (nonlinear_arith)
        requires
            s == n * rows,
            ps == rows * (4 * w),
            stride == 4 * w,
    ;
    assert(len == 4 * (out_len * w)) by (nonlinear_arith)
        requires
            len == 4 * (out_len * in_width),
            w == in_width,
    ;
    assert(0 <= s < out_len) by (nonlinear_arith)
        requires
            0 <= n,
            rows > 0,
            s == n * rows,
            4 * (s * w) < 4 * (out_len * w),
            w > 0,
    ;
    assert((n + 1) * rows == s + rows) by (nonlinear_arith)
        requires
            s == n * rows,
    ;
    assert((n * ps + ps < len) == ((n + 1) * rows < out_len)) by (nonlinear_arith)
        requires
            n * ps + ps == 4 * (((n + 1) * rows) * w),
            len == 4 * (out_len * w),
            w > 0,
    ;
    assert(page.bytes == bytes.subrange(4 * (s * w), 4 * (e * w)));
    assert(0 <= s * w <= e * w <= matrix.len()) by (nonlinear_arith)
        requires
            0 <= s <= e <= out_len,
            w > 0,
            matrix.len() == out_len * w,
    ;
    crate::pages::lanes_of_a_piece(matrix, s * w, e * w);
    let weights = matrix.subrange(s * w, e * w);
    assert(weights.len() == (e - s) * w) by (nonlinear_arith)
        requires
            weights.len() == e * w - s * w,
    ;
    vstd::arithmetic::div_mod::lemma_mod_multiples_basic(e - s, w);
    vstd::arithmetic::div_mod::lemma_div_multiples_vanish(e - s, w);
    assert((e - s) * w == w * (e - s)) by (nonlinear_arith);
    vstd::arithmetic::div_mod::lemma_mod_multiples_basic(s, stride);
    vstd::arithmetic::div_mod::lemma_div_multiples_vanish(s, stride);
    assert(s * stride == stride * s) by (nonlinear_arith);
    assert(page.offset as int == s * stride);
    assert(page.offset as int / (4 * in_width) == s);
    assert(page.offset as int % (4 * in_width) == 0);
    assert forall|i: int| s <= i < e implies #[trigger] matrix_row(weights, w, i - s) == matrix_row(
        matrix,
        w,
        i,
    ) by {
        assert(0 <= (i - s) * w && (i - s) * w + w == (i - s + 1) * w && (i - s + 1) * w <= (e - s) * w
            && s * w + (i - s) * w == i * w && i * w + w == (i + 1) * w) by (nonlinear_arith)
            requires
                s <= i < e,
                w > 0,
        ;
        assert(matrix_row(weights, w, i - s) =~= matrix_row(matrix, w, i));
    }
}

/// Whether a page holds the rows of a matrix from `span.0` up to `span.1`: its bytes
/// are theirs, and its offset is that of the first.
pub open spec fn holds_rows(
    page: PageView,
    matrix: Seq<i32>,
    out_len: u32,
    in_width: u32,
    span: (int, int),
) -> bool {
    &&& 0 <= span.0 <= span.1 <= out_len
    &&& page.offset == span.0 * (4 * in_width)
    &&& lanes_of(page.bytes) == Ok::<Seq<i32>, Seq<char>>(
        matrix.subrange(span.0 * in_width, span.1 * in_width),
    )
}

/// Whether one of the first `n` spans holds a row.
pub open spec fn covered(spans: Seq<(int, int)>, n: int, i: int) -> bool {
    exists|j: int| 0 <= j < n && (#[trigger] spans[j]).0 <= i < spans[j].1
}

/// The whole product of a matrix with a row: one inner product per matrix row.
pub open spec fn product_of(
    rounding: Rounding,
    matrix: Seq<i32>,
    row: Seq<i32>,
    out_len: u32,
) -> Seq<i32> {
    Seq::new(
        out_len as nat,
        |i: int| lane_dot(rounding, row, matrix_row(matrix, row.len() as int, i)),
    )
}

/// The product of a matrix with a row, zero in the rows that no page has held yet.
spec fn partial_product(
    rounding: Rounding,
    matrix: Seq<i32>,
    row: Seq<i32>,
    out_len: u32,
    spans: Seq<(int, int)>,
    n: int,
) -> Seq<i32> {
    Seq::new(
        out_len as nat,
        |i: int|
            if covered(spans, n, i) {
                product_of(rounding, matrix, row, out_len)[i]
            } else {
                0i32
            },
    )
}

proof fn lemma_page_rows(
    page: PageView,
    matrix: Seq<i32>,
    out_len: u32,
    in_width: u32,
    span: (int, int),
)
    requires
        in_width > 0,
        matrix.len() == out_len * in_width,
        holds_rows(page, matrix, out_len, in_width, span),
    ensures
        ({
            let w = in_width as int;
            let weights = matrix.subrange(span.0 * w, span.1 * w);
            &&& weights.len() as int % w == 0
            &&& weights.len() as int / w == span.1 - span.0
            &&& page.offset as int % (4 * in_width) == 0
            &&& page.offset as int / (4 * in_width) == span.0
            &&& forall|i: int|
                span.0 <= i < span.1 ==> #[trigger] matrix_row(weights, w, i - span.0)
                    == matrix_row(matrix, w, i)
        }),
{
    let w = in_width as int;
    let s = span.0;
    let e = span.1;
    let weights = matrix.subrange(s * w, e * w);
    assert(0 <= s * w <= e * w <= matrix.len()) by (nonlinear_arith)
        requires
            0 <= s <= e <= out_len,
            w > 0,
            matrix.len() == out_len * w,
    ;
    assert(weights.len() == w * (e - s)) by (nonlinear_arith)
        requires
            weights.len() == e * w - s * w,
    ;
    vstd::arithmetic::div_mod::lemma_mod_multiples_basic(e - s, w);
    vstd::arithmetic::div_mod::lemma_div_multiples_vanish(e - s, w);
    assert((e - s) * w == w * (e - s)) by (nonlinear_arith);
    let stride = 4 * w;
    vstd::arithmetic::div_mod::lemma_mod_multiples_basic(s, stride);
    vstd::arithmetic::div_mod::lemma_div_multiples_vanish(s, stride);
    assert(s * stride == stride * s) by (nonlinear_arith);
    assert forall|i: int| s <= i < e implies #[trigger] matrix_row(weights, w, i - s) == matrix_row(
        matrix,
        w,
        i,
    ) by {
        assert(0 <= (i - s) * w && (i - s) * w + w == (i - s + 1) * w && (i - s + 1) * w <= (e - s) * w
            && s * w + (i - s) * w == i * w && i * w + w == (i + 1) * w) by (nonlinear_arith)
            requires
                s <= i < e,
                w > 0,
        ;
        assert(matrix_row(weights, w, i - s) =~= matrix_row(matrix, w, i));
    }
}

proof fn lemma_page_sweep(
    rounding: Rounding,
    matrix: Seq<i32>,
    lanes: Seq<i32>,
    row: PageView,
    out_len: u32,
    in_width: u32,
    pages: Seq<PageView>,
    spans: Seq<(int, int)>,
    n: nat,
)
    requires
        in_width > 0,
        lanes_of(row.bytes) == Ok::<Seq<i32>, Seq<char>>(lanes),
        lanes.len() == in_width,
        matrix.len() == out_len * in_width,
        pages.len() == spans.len(),
        forall|j: int|
            0 <= j < pages.len() ==> holds_rows(
                #[trigger] pages[j],
                matrix,
                out_len,
                in_width,
                spans[j],
            ),
        n <= pages.len(),
    ensures
        after_pages(rounding, good(zeros(out_len as nat)), pages, row, in_width, n) == good(
            partial_product(rounding, matrix, lanes, out_len, spans, n as int),
        ),
    decreases n,
{
    if n == 0 {
        assert(zeros(out_len as nat) =~= partial_product(
            rounding,
            matrix,
            lanes,
            out_len,
            spans,
            0,
        ));
    } else {
        let m = (n - 1) as nat;
        lemma_page_sweep(rounding, matrix, lanes, row, out_len, in_width, pages, spans, m);
        let page = pages[m as int];
        let (s, e) = spans[m as int];
        assert(holds_rows(page, matrix, out_len, in_width, spans[m as int]));
        lemma_page_rows(page, matrix, out_len, in_width, spans[m as int]);
        let weights = matrix.subrange(s * in_width, e * in_width);
        let before = partial_product(rounding, matrix, lanes, out_len, spans, m as int);
        let after = partial_product(rounding, matrix, lanes, out_len, spans, n as int);
        crate::pages::unpack_undoes_pack(before);
        let got = with_products(rounding, before, lanes, weights, s, e - s);
        assert forall|i: int| 0 <= i < out_len implies #[trigger] got[i] == after[i] by {
            if s <= i < e {
                assert(spans[m as int].0 <= i < spans[m as int].1);
                assert(matrix_row(weights, in_width as int, i - s) == matrix_row(
                    matrix,
                    in_width as int,
                    i,
                ));
            } else if covered(spans, n as int, i) {
                let j = choose|j: int|
                    0 <= j < n && (#[trigger] spans[j]).0 <= i < spans[j].1;
                assert(spans[j].0 <= i < spans[j].1);
                assert(j != m);
            } else if covered(spans, m as int, i) {
                let j = choose|j: int|
                    0 <= j < m && (#[trigger] spans[j]).0 <= i < spans[j].1;
                assert(spans[j].0 <= i < spans[j].1);
            }
        }
        assert(got =~= after);
    }
}

/// Folding the pages of a matrix computes the whole matrix-vector product, and no
/// page fails, in whatever order the pages come: it is enough that each holds rows of
/// the matrix and that between them they hold every row.
pub proof fn pages_fold_in_any_order(
    rounding: Rounding,
    matrix: Seq<i32>,
    lanes: Seq<i32>,
    row: PageView,
    out_len: u32,
    in_width: u32,
    pages: Seq<PageView>,
    spans: Seq<(int, int)>,
)
    requires
        in_width > 0,
        lanes_of(row.bytes) == Ok::<Seq<i32>, Seq<char>>(lanes),
        lanes.len() == in_width,
        matrix.len() == out_len * in_width,
        pages.len() == spans.len(),
        forall|j: int|
            0 <= j < pages.len() ==> holds_rows(
                #[trigger] pages[j],
                matrix,
                out_len,
                in_width,
                spans[j],
            ),
        forall|i: int|
            0 <= i < out_len ==> #[trigger] covered(spans, spans.len() as int, i),
    ensures
        matvec_spec(rounding, pages, row, in_width, out_len) == good(
            product_of(rounding, matrix, lanes, out_len),
        ),
{
    lemma_page_sweep(
        rounding,
        matrix,
        lanes,
        row,
        out_len,
        in_width,
        pages,
        spans,
        pages.len(),
    );
    assert(partial_product(rounding, matrix, lanes, out_len, spans, spans.len() as int)
        =~= product_of(rounding, matrix, lanes, out_len)) by {
        assert forall|i: int| 0 <= i < out_len implies covered(spans, spans.len() as int, i) by {}
    }
}

/// The order of a matrix region's pages does not matter: any arrangement of them folds
/// to the whole product, provided that a page is a whole number of matrix rows.
pub proof fn page_order_does_not_matter(
    rounding: Rounding,
    matrix: Seq<i32>,
    row: Seq<i32>,
    out_len: u32,
    in_width: u32,
    page_size: u64,
    pages: Seq<PageView>,
)
    requires
        in_width > 0,
        row.len() == in_width,
        matrix.len() == out_len * in_width,
        4 * matrix.len() <= u64::MAX,
        page_size > 0,
        page_size as int % (4 * in_width) == 0,
        pages.to_multiset() == region(packed(matrix), page_size).pages.to_multiset(),
    ensures
        matvec_spec(rounding, pages, standalone(packed(row)), in_width, out_len) == good(
            product_of(rounding, matrix, row, out_len),
        ),
{
    let stride = 4 * in_width;
    let rows = page_size as int / stride;
    vstd::arithmetic::div_mod::lemma_fundamental_div_mod(page_size as int, stride);
    assert(page_size == rows * stride) by (nonlinear_arith)
        requires
            page_size == stride * rows,
    ;
    assert(rows > 0) by (nonlinear_arith)
        requires
            page_size == rows * stride,
            page_size > 0,
            stride > 0,
    ;
    let all = region(packed(matrix), page_size).pages;
    pages.to_multiset_ensures();
    all.to_multiset_ensures();
    let place = |page: PageView| choose|n: int| 0 <= n < all.len() && all[n] == page;
    let span = |n: int| (n * rows, rows_end(n, rows, out_len as int));
    let spans = Seq::new(pages.len(), |j: int| span(place(pages[j])));
    assert forall|j: int| 0 <= j < pages.len() implies holds_rows(
        #[trigger] pages[j],
        matrix,
        out_len,
        in_width,
        spans[j],
    ) by {
        assert(pages.contains(pages[j]));
        assert(pages.to_multiset().count(pages[j]) > 0);
        assert(all.contains(pages[j]));
        let n = place(pages[j]);
        assert(0 <= n < all.len() && all[n] == pages[j]);
        page_holds_whole_rows(matrix, out_len, in_width, page_size, rows, n);
        let offset = pages[j].offset as int;
        vstd::arithmetic::div_mod::lemma_fundamental_div_mod(offset, 4 * in_width);
        assert(offset == (n * rows) * (4 * in_width)) by (nonlinear_arith)
            requires
                offset == (4 * in_width) * (n * rows),
        ;
    }
    let len = packed(matrix).len() as int;
    let ps = page_size as int;
    assert forall|i: int| 0 <= i < out_len implies #[trigger] covered(
        spans,
        spans.len() as int,
        i,
    ) by {
        let n = i / rows;
        vstd::arithmetic::div_mod::lemma_fundamental_div_mod(i, rows);
        vstd::arithmetic::div_mod::lemma_mod_bound(i, rows);
        assert(0 <= n && n * rows <= i && i < n * rows + rows) by (nonlinear_arith)
            requires
                i == rows * n + i % rows,
                0 <= i % rows < rows,
                0 <= i,
                rows > 0,
        ;
        assert(n * ps < len) by (nonlinear_arith)
            requires
                n * rows < out_len,
                ps == rows * (4 * in_width),
                len == 4 * (out_len * in_width),
                in_width > 0,
        ;
        assert(n < (len + ps - 1) / ps) by (nonlinear_arith)
            requires
                n * ps < len,
                ps > 0,
        ;
        assert((n + 1) * rows == n * rows + rows) by (nonlinear_arith);
        let page = all[n];
        assert(all.contains(page));
        assert(all.to_multiset().count(page) > 0);
        assert(pages.contains(page));
        let j = pages.index_of(page);
        assert(pages[j] == page);
        let k = place(page);
        assert(0 <= k < all.len() && all[k] == page);
        page_holds_whole_rows(matrix, out_len, in_width, page_size, rows, n);
        page_holds_whole_rows(matrix, out_len, in_width, page_size, rows, k);
        assert(k * rows == n * rows);
        assert(k == n) by (nonlinear_arith)
            requires
                k * rows == n * rows,
                rows > 0,
        ;
        assert(spans[j].0 <= i < spans[j].1);
    }
    crate::pages::unpack_undoes_pack(row);
    pages_fold_in_any_order(
        rounding,
        matrix,
        row,
        standalone(packed(row)),
        out_len,
        in_width,
        pages,
        spans,
    );
}

/// Sweeping the pages of a matrix region computes the whole matrix-vector
/// product, provided that a page is a whole number of matrix rows: lane `i` is
/// the inner product of the row with matrix row `i`, and no page fails.
pub proof fn paged_matvec_is_the_product(
    rounding: Rounding,
    matrix: Seq<i32>,
    row: Seq<i32>,
    out_len: u32,
    in_width: u32,
    page_size: u64,
)
    requires
        in_width > 0,
        row.len() == in_width,
        matrix.len() == out_len * in_width,
        4 * matrix.len() <= u64::MAX,
        page_size > 0,
        page_size as int % (4 * in_width) == 0,
    ensures
        matvec_spec(
            rounding,
            region(packed(matrix), page_size).pages,
            standalone(packed(row)),
            in_width,
            out_len,
        ) == good(product_of(rounding, matrix, row, out_len)),
{
    page_order_does_not_matter(
        rounding,
        matrix,
        row,
        out_len,
        in_width,
        page_size,
        region(packed(matrix), page_size).pages,
    );
}

} // verus!
