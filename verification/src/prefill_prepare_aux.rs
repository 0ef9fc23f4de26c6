//! Stage `prefill_prepare_aux`: one layer's per-layer embeddings.
//!
//! ```text
//!   embedded  = ple_embedding[token_id] * embedding_scale
//!   projected = rms_norm(activation x projection * projection_scalar, w, eps)
//!   row       = (embedded +sat projected) * input_scale
//! ```
//!
//! The table is addressed by token id and the projection is streamed as pages.
//! A failure travels as data: it is appended to the layer's errors, and a layer
//! with errors is refused as a whole.

use crate::activations::{
    summarise, summarise_errors, summary_of, ActivationRow, ActivationSequence, ActivationsView,
    ErrorSummary, PleInputsView, PleLayerInputs, PleRow, RowView,
};
use crate::det_num::{add_sat_spec, clamp_i64, clamp_int};
use crate::floor_num::{floor_dot, floor_dot_spec, floor_mul_wide, floor_product};
use crate::lists::{views, views_of_empty, views_of_push};
use crate::matvec::{after_page, matvec, matvec_spec, Rounding};
use crate::numerics::dot_result;
use crate::packed::{bad, good, PackedView, ProjAccum};
use crate::pages::{
    lanes_at, lanes_of, pack_i32s, page_at, page_index, page_of, unpack_i32s, unpack_i32s_at, Bytes,
    BytesPage, PageView, RegionView,
};
use crate::prefill_range::project::{assert_matrix_bytes, matrix_check};
use crate::text::{dec, decimal, outcome};
use vstd::prelude::*;

verus! {

/// Scalars and the projection norm of one layer.
pub struct PleLayerParams {
    pub layer_idx: u32,
    pub hidden_size: u32,
    pub ple_width: u32,
    pub embedding_scale: i32,
    pub projection_scalar: i32,
    pub input_scale: i32,
    pub norm_eps: i64,
    pub norm_weights: BytesPage,
}

/// One layer: its parameters, its embedding table and its projection.
pub struct PleLayer {
    pub params: PleLayerParams,
    pub embeddings: Bytes,
    pub projection: Bytes,
}

/// One token's work in flight.
pub struct PleTask {
    pub token_id: u32,
    pub activation: BytesPage,
}

impl View for PleTask {
    type V = RowView;

    open spec fn view(&self) -> RowView {
        RowView { token_id: self.token_id, values: self.activation@ }
    }
}

/// The projected and normalised half of one row.
pub struct ProjectedRow {
    pub values: BytesPage,
    pub error: String,
}

impl View for ProjectedRow {
    type V = PackedView;

    open spec fn view(&self) -> PackedView {
        PackedView { values: self.values@, error: self.error@ }
    }
}

/// The Q16.16 product rounded down and saturated.
pub open spec fn mul_spec(a: i32, b: i32) -> i32 {
    clamp_int(floor_product(a, b)) as i32
}

/// Q16.16 multiply, rounded down, saturating.
pub fn mul(a: i32, b: i32) -> (r: i32)
    ensures
        r == mul_spec(a, b),
{
    clamp_i64(floor_mul_wide(a, b))
}

/// Saturating addition.
pub fn add_sat(a: i32, b: i32) -> (r: i32)
    ensures
        r == add_sat_spec(a, b),
{
    crate::det_num::add_sat(a, b)
}

/// Scales every lane by one factor.
pub open spec fn scaled(row: Seq<i32>, scalar: i32) -> Seq<i32> {
    row.map_values(|x: i32| mul_spec(x, scalar))
}

/// Multiplies every lane by `scalar`, in place.
pub fn scale_row(row: &mut [i32], scalar: i32)
    ensures
        final(row)@ == scaled(old(row)@, scalar),
{
    let mut i: usize = 0;
    while i < row.len()
        invariant
            i <= row.len(),
            row@.len() == old(row)@.len(),
            forall|j: int| 0 <= j < i ==> row@[j] == mul_spec(old(row)@[j], scalar),
            forall|j: int| i <= j < row@.len() ==> row@[j] == old(row)@[j],
        decreases row.len() - i,
    {
        row[i] = self::mul(row[i], scalar);
        i += 1;
    }
    assert(row@ =~= scaled(old(row)@, scalar));
}

/// `r` is the integer square root of `v`: the largest whose square does not
/// exceed it.
pub open spec fn is_isqrt(v: int, r: int) -> bool {
    &&& r >= 0
    &&& r * r <= v
    &&& v < (r + 1) * (r + 1)
}

/// One Newton step from above stays above the square root.
proof fn lemma_newton_step(v: int, g: int)
    requires
        v >= 0,
        g > 0,
    ensures
        v < ((g + v / g) / 2 + 1) * ((g + v / g) / 2 + 1),
{
    let q = v / g;
    let n = (g + q) / 2;
    vstd::arithmetic::div_mod::lemma_fundamental_div_mod(v, g);
    assert(v < (q + 1) * g) by (nonlinear_arith)
        requires
            v == g * q + v % g,
            0 <= v % g < g,
    ;
    assert(2 * (n + 1) >= g + q + 1);
    assert(4 * ((n + 1) * (n + 1)) >= (g + q + 1) * (g + q + 1)) by (nonlinear_arith)
        requires
            2 * (n + 1) >= g + q + 1,
            g + q + 1 >= 0,
    ;
    assert((g + q + 1) * (g + q + 1) >= 4 * ((q + 1) * g)) by (nonlinear_arith);
}

/// Two integer square roots of one number are equal.
pub proof fn isqrt_is_unique(v: int, a: int, b: int)
    requires
        is_isqrt(v, a),
        is_isqrt(v, b),
    ensures
        a == b,
{
    if a < b {
        assert((a + 1) * (a + 1) <= b * b) by (nonlinear_arith)
            requires
                0 <= a < b,
        ;
    } else if b < a {
        assert((b + 1) * (b + 1) <= a * a) by (nonlinear_arith)
            requires
                0 <= b < a,
        ;
    }
}

/// The integer square root of a number, zero for one that is not positive.
pub open spec fn isqrt_spec(v: int) -> int {
    if v <= 0 {
        0
    } else {
        choose|r: int| is_isqrt(v, r)
    }
}

/// Integer square root by Newton's method from above.
pub fn isqrt(value: i64) -> (r: i64)
    ensures
        r == isqrt_spec(value as int),
        value > 0 ==> is_isqrt(value as int, r as int),
        value <= 0 ==> r == 0,
{
    if value <= 0 {
        return 0;
    }
    let v: u64 = value as u64;
    let mut guess: u64 = v;
    let mut next: u64 = (guess + 1) / 2;
    proof {
        assert(v / v == 1) by {
            vstd::arithmetic::div_mod::lemma_div_by_self(v as int);
        }
        assert(v < (v + 1) * (v + 1)) by (nonlinear_arith)
            requires
                v > 0,
        ;
    }
    while next < guess
        invariant
            v == value,
            0 < v <= i64::MAX,
            0 < guess <= v,
            next == (guess + v / guess) / 2,
            v < (guess + 1) * (guess + 1),
        decreases guess,
    {
        proof {
            lemma_newton_step(v as int, guess as int);
            assert(next > 0) by (nonlinear_arith)
                requires
                    v < (next + 1) * (next + 1),
                    v > 0,
                    next >= 0,
            ;
            assert(v / next <= v) by {
                vstd::arithmetic::div_mod::lemma_div_is_ordered_by_denominator(
                    v as int,
                    1,
                    next as int,
                );
            }
        }
        guess = next;
        next = (guess + v / guess) / 2;
    }
    assert(guess * guess <= v) by {
        assert(v / guess >= guess);
        vstd::arithmetic::div_mod::lemma_fundamental_div_mod(v as int, guess as int);
        assert(guess * guess <= guess * (v / guess)) by (nonlinear_arith)
            requires
                v / guess >= guess,
                guess > 0,
        ;
    }
    proof {
        assert(is_isqrt(v as int, guess as int));
        let r = choose|r: int| is_isqrt(v as int, r);
        isqrt_is_unique(v as int, guess as int, r);
    }
    guess as i64
}

/// Q16.16 inner product, every product rounded down.
pub fn dot(a: &[i32], b: &[i32]) -> (r: Result<i32, String>)
    ensures
        match dot_result(a@, b@) {
            Ok(_) => r matches Ok(v) && v == floor_dot_spec(a@, b@),
            Err(e) => r matches Err(s) && s@ == e,
        },
{
    floor_dot(a, b)
}

/// `x` as the 64-bit two's-complement number with the same low bits.
pub open spec fn wrap64(x: int) -> int {
    let m = x % 0x1_0000_0000_0000_0000;
    if m >= 0x8000_0000_0000_0000 {
        m - 0x1_0000_0000_0000_0000
    } else {
        m
    }
}

/// `n / d` rounded towards zero, for positive `d`.
pub open spec fn div_to_zero(n: int, d: int) -> int {
    if n >= 0 {
        n / d
    } else {
        -((-n) / d)
    }
}

/// The root of a row's mean square plus `eps`, in Q16.16.
pub open spec fn rms_of(row: Seq<i32>, eps: i64) -> int {
    let mean_square = crate::floor_num::floor_sum(row, row, row.len()) / (row.len() as int) + eps;
    isqrt_spec(wrap64(mean_square * 65536))
}

/// A row divided by its root mean square and weighted, or why it is refused. A
/// row whose root mean square is zero is left as it is.
pub open spec fn rms_norm_result(row: Seq<i32>, weights: Seq<i32>, eps: i64) -> Result<
    Seq<i32>,
    Seq<char>,
> {
    if row.len() != weights.len() {
        Err(
            "rms norm width mismatch: "@ + dec(row.len()) + " values vs "@ + dec(weights.len())
                + " weights"@,
        )
    } else if row.len() == 0 {
        Err("rms norm requires at least one value"@)
    } else {
        let rms = rms_of(row, eps);
        if rms == 0 {
            Ok(row)
        } else {
            Ok(
                Seq::new(
                    row.len(),
                    |i: int|
                        clamp_int(
                            div_to_zero(floor_product(row[i], weights[i]) * 65536, rms),
                        ) as i32,
                ),
            )
        }
    }
}

fn divide_to_zero(n: i64, d: i64) -> (r: i64)
    requires
        d > 0,
        n > i64::MIN,
    ensures
        r == div_to_zero(n as int, d as int),
{
    if n >= 0 {
        let q: u64 = n as u64 / d as u64;
        assert(q <= n) by {
            vstd::arithmetic::div_mod::lemma_div_is_ordered_by_denominator(n as int, 1, d as int);
        }
        q as i64
    } else {
        let q: u64 = (-n) as u64 / d as u64;
        assert(q <= -n) by {
            vstd::arithmetic::div_mod::lemma_div_is_ordered_by_denominator(-n as int, 1, d as int);
        }
        -(q as i64)
    }
}

fn root_mean_square(row: &[i32], eps: i64) -> (r: i64)
    requires
        row@.len() > 0,
    ensures
        r == rms_of(row@, eps),
        r >= 0,
{
    let ghost n = row@.len() as int;
    let mut sum: u128 = 0;
    let mut i: usize = 0;
    while i < row.len()
        invariant
            i <= row.len(),
            sum == crate::floor_num::floor_sum(row@, row@, i as nat),
            0 <= sum <= 0x4000_0000_0000 * i,
        decreases row.len() - i,
    {
        let square: i64 = floor_mul_wide(row[i], row[i]);
        assert(square >= 0) by {
            let x = row@[i as int] as int;
            assert(x * x >= 0) by (nonlinear_arith);
        }
        sum = sum + square as u128;
        i += 1;
    }
    let mean: u128 = sum / row.len() as u128;
    assert(mean <= 0x4000_0000_0000) by (nonlinear_arith)
        requires
            sum <= 0x4000_0000_0000 * n,
            mean == sum as int / n,
            n > 0,
    ;
    let shifted: i128 = (mean as i128 + eps as i128) * 65536;
    // A multiple of the modulus keeps the remainder unsigned.
    let low: u128 = (shifted + 0x1_0000_0000_0000_0000_0000_0000i128) as u128
        % 0x1_0000_0000_0000_0000u128;
    assert(low == shifted as int % 0x1_0000_0000_0000_0000);
    let wrapped: i64 = if low >= 0x8000_0000_0000_0000 {
        (low as i128 - 0x1_0000_0000_0000_0000i128) as i64
    } else {
        low as i64
    };
    isqrt(wrapped)
}

/// Root-mean-square normalisation, in place, rounding down. A refused row is
/// left as it was.
pub fn rms_norm(row: &mut [i32], weights: &[i32], eps: i64) -> (r: Result<(), String>)
    ensures
        match rms_norm_result(old(row)@, weights@, eps) {
            Ok(lanes) => r is Ok && final(row)@ == lanes,
            Err(e) => r matches Err(s) && s@ == e && final(row)@ == old(row)@,
        },
{
    if row.len() != weights.len() {
        return Err(
            String::from_str("rms norm width mismatch: ").concat(
                decimal(row.len() as u64).as_str(),
            ).concat(" values vs ").concat(decimal(weights.len() as u64).as_str()).concat(
                " weights",
            ),
        );
    }
    if row.len() == 0 {
        return Err(String::from_str("rms norm requires at least one value"));
    }
    let rms: i64 = root_mean_square(row, eps);
    if rms == 0 {
        return Ok(());
    }
    let mut i: usize = 0;
    while i < row.len()
        invariant
            i <= row.len(),
            rms > 0,
            row@.len() == old(row)@.len(),
            row@.len() == weights@.len(),
            forall|j: int|
                0 <= j < i ==> row@[j] == clamp_int(
                    div_to_zero(floor_product(old(row)@[j], weights@[j]) * 65536, rms as int),
                ),
            forall|j: int| i <= j < row@.len() ==> row@[j] == old(row)@[j],
        decreases row.len() - i,
    {
        let weighted: i64 = floor_mul_wide(row[i], weights[i]);
        row[i] = clamp_i64(divide_to_zero(weighted * 65536, rms));
        i += 1;
    }
    assert(row@ =~= rms_norm_result(old(row)@, weights@, eps)->Ok_0);
    Ok(())
}

impl PleLayerInputs {
    /// Per-layer embeddings with nothing in them.
    pub fn empty() -> (r: PleLayerInputs)
        ensures
            r@ == (PleInputsView { layer_idx: 0, rows: Seq::empty(), errors: Seq::empty() }),
    {
        broadcast use views_of_empty;

        PleLayerInputs { layer_idx: 0, rows: Vec::new(), errors: Vec::new() }
    }
}

/// Opens the output of one layer.
pub fn begin_ple_layer(output: PleLayerInputs, params: &PleLayerParams) -> (r: PleLayerInputs)
    ensures
        r@ == (PleInputsView { layer_idx: params.layer_idx, ..output@ }),
{
    let mut output: PleLayerInputs = output;
    output.layer_idx = params.layer_idx;
    output
}

/// The activation page of a task.
pub fn ple_activation(task: &PleTask) -> (r: BytesPage)
    ensures
        r@ == task@.values,
{
    task.activation.copy()
}

/// Turns an embedded token into a task.
pub fn begin_ple_task(token: &ActivationRow) -> (r: PleTask)
    ensures
        r@ == token@,
{
    PleTask { token_id: token.token_id, activation: token.values.copy() }
}

/// Byte offset of a token's row in the per-layer table.
pub fn ple_byte_offset(token_id: u32, ple_width: u32) -> (r: u64)
    requires
        token_id * ple_width * 4 <= u64::MAX,
    ensures
        r == token_id * ple_width * 4,
{
    proof {
        assert(0 <= token_id * ple_width) by (nonlinear_arith);
    }
    token_id as u64 * ple_width as u64 * 4
}

/// Folds one weight page into the output accumulator, rounding down.
pub fn mac_weight_page(page: &BytesPage, state: ProjAccum, row: &BytesPage, in_width: u32) -> (r:
    ProjAccum)
    ensures
        r@ == after_page(Rounding::Floor, state@, page@, row@, in_width),
{
    crate::matvec::mac_weight_page(Rounding::Floor, page, state, row, in_width)
}

/// The scaled and normalised projection, or why there is none.
pub open spec fn projection_lanes(projected: PackedView, params: PleLayerParams) -> Result<
    Seq<i32>,
    Seq<char>,
> {
    if projected.error.len() > 0 {
        Err(projected.error)
    } else {
        match lanes_of(projected.values.bytes) {
            Err(e) => Err(e),
            Ok(values) => if values.len() != params.ple_width {
                Err(
                    "projection has "@ + dec(values.len()) + " values, expected ple_width "@ + dec(
                        params.ple_width as nat,
                    ),
                )
            } else {
                match lanes_of(params.norm_weights@.bytes) {
                    Err(e) => Err(e),
                    Ok(weights) => rms_norm_result(
                        scaled(values, params.projection_scalar),
                        weights,
                        params.norm_eps,
                    ),
                }
            },
        }
    }
}

fn finish_projection_inner(projected: &ProjAccum, params: &PleLayerParams) -> (r: Result<
    Vec<i32>,
    String,
>)
    ensures
        outcome(r, projection_lanes(projected@, *params)),
{
    if !projected.error.as_str().is_empty() {
        return Err(projected.error.clone());
    }
    let mut values: Vec<i32> = match unpack_i32s(&projected.values) {
        Ok(lanes) => lanes,
        Err(e) => return Err(e),
    };
    if values.len() != params.ple_width as usize {
        return Err(
            String::from_str("projection has ").concat(
                decimal(values.len() as u64).as_str(),
            ).concat(" values, expected ple_width ").concat(
                decimal(params.ple_width as u64).as_str(),
            ),
        );
    }
    scale_row(values.as_mut_slice(), params.projection_scalar);
    let weights: Vec<i32> = match unpack_i32s(&params.norm_weights) {
        Ok(lanes) => lanes,
        Err(e) => return Err(e),
    };
    match rms_norm(values.as_mut_slice(), weights.as_slice(), params.norm_eps) {
        Ok(()) => Ok(values),
        Err(e) => Err(e),
    }
}

/// The projected half of a row; a failure comes without lanes.
pub open spec fn projected_row(projected: PackedView, params: PleLayerParams) -> PackedView {
    match projection_lanes(projected, params) {
        Ok(lanes) => good(lanes),
        Err(e) => bad(Seq::empty(), e),
    }
}

/// Scales and normalises a projected vector.
pub fn finish_ple_projection(projected: &ProjAccum, params: &PleLayerParams) -> (r: ProjectedRow)
    ensures
        r@ == projected_row(projected@, *params),
{
    match finish_projection_inner(projected, params) {
        Ok(values) => ProjectedRow { values: pack_i32s(values.as_slice()), error: String::new() },
        Err(error) => {
            let none: Vec<i32> = Vec::new();
            ProjectedRow { values: pack_i32s(none.as_slice()), error }
        },
    }
}

/// The sum of a scaled embedding row and a projected row, scaled; or why the
/// token has none.
pub open spec fn combined_row(
    token_id: u32,
    emb_page: PageView,
    byte_off: u64,
    projected: PackedView,
    params: PleLayerParams,
) -> Result<Seq<i32>, Seq<char>> {
    if projected.error.len() > 0 {
        Err(projected.error)
    } else {
        match (lanes_at(emb_page, byte_off, params.ple_width), lanes_of(projected.values.bytes)) {
            (Err(e), _) => Err(e),
            (_, Err(e)) => Err(e),
            (Ok(embedded), Ok(projected)) => if embedded.len() != projected.len() {
                Err(
                    "PLE row width mismatch for token "@ + dec(token_id as nat) + ": "@ + dec(
                        embedded.len(),
                    ) + " embedded vs "@ + dec(projected.len()) + " projected"@,
                )
            } else {
                Ok(
                    Seq::new(
                        embedded.len(),
                        |i: int|
                            mul_spec(
                                add_sat_spec(
                                    mul_spec(embedded[i], params.embedding_scale),
                                    projected[i],
                                ),
                                params.input_scale,
                            ),
                    ),
                )
            },
        }
    }
}

fn combine_row(
    task: &PleTask,
    emb_page: &BytesPage,
    byte_off: u64,
    projected: &ProjectedRow,
    params: &PleLayerParams,
) -> (r: Result<Vec<i32>, String>)
    ensures
        outcome(r, combined_row(task.token_id, emb_page@, byte_off, projected@, *params)),
{
    if !projected.error.as_str().is_empty() {
        return Err(projected.error.clone());
    }
    let mut embedded: Vec<i32> = match unpack_i32s_at(emb_page, byte_off, params.ple_width) {
        Ok(lanes) => lanes,
        Err(e) => return Err(e),
    };
    let other: Vec<i32> = match unpack_i32s(&projected.values) {
        Ok(lanes) => lanes,
        Err(e) => return Err(e),
    };
    if embedded.len() != other.len() {
        return Err(
            String::from_str("PLE row width mismatch for token ").concat(
                decimal(task.token_id as u64).as_str(),
            ).concat(": ").concat(decimal(embedded.len() as u64).as_str()).concat(
                " embedded vs ",
            ).concat(decimal(other.len() as u64).as_str()).concat(" projected"),
        );
    }
    let ghost start = embedded@;
    scale_row(embedded.as_mut_slice(), params.embedding_scale);
    let mut i: usize = 0;
    while i < embedded.len()
        invariant
            i <= embedded.len(),
            embedded@.len() == start.len(),
            embedded@.len() == other@.len(),
            forall|j: int|
                0 <= j < i ==> embedded@[j] == add_sat_spec(
                    mul_spec(start[j], params.embedding_scale),
                    other@[j],
                ),
            forall|j: int|
                i <= j < start.len() ==> embedded@[j] == mul_spec(start[j], params.embedding_scale),
        decreases embedded.len() - i,
    {
        let sum: i32 = self::add_sat(embedded[i], other[i]);
        embedded.set(i, sum);
        i += 1;
    }
    scale_row(embedded.as_mut_slice(), params.input_scale);
    assert(embedded@ =~= combined_row(
        task.token_id,
        emb_page@,
        byte_off,
        projected@,
        *params,
    )->Ok_0);
    Ok(embedded)
}

/// The layer's output with one more token in it: its row, or its failure.
pub open spec fn with_ple_row(output: PleInputsView, lanes: Result<Seq<i32>, Seq<char>>)
    -> PleInputsView {
    match lanes {
        Ok(lanes) => PleInputsView {
            rows: output.rows.push(crate::pages::standalone(crate::pages::packed(lanes))),
            ..output
        },
        Err(e) => PleInputsView { errors: output.errors.push(e), ..output },
    }
}

/// Combines a scaled embedding row with the projected row and appends it.
pub fn combine_ple_row(
    output: PleLayerInputs,
    task: &PleTask,
    emb_page: &BytesPage,
    byte_off: u64,
    projected: &ProjectedRow,
    params: &PleLayerParams,
) -> (r: PleLayerInputs)
    ensures
        r@ == with_ple_row(
            output@,
            combined_row(task.token_id, emb_page@, byte_off, projected@, *params),
        ),
{
    broadcast use views_of_push;

    let mut output: PleLayerInputs = output;
    match combine_row(task, emb_page, byte_off, projected, params) {
        Ok(values) => {
            output.rows.push(PleRow { values: pack_i32s(values.as_slice()) });
        },
        Err(error) => {
            output.errors.push(error);
        },
    }
    output
}

/// Folds one recorded failure into the summary.
pub fn summarise_layer_errors(message: String, state: ErrorSummary) -> (r: ErrorSummary)
    requires
        state.count < u32::MAX,
    ensures
        r@.count == state@.count + 1,
        r@.first == (if state.count == 0 {
            message@
        } else {
            state@.first
        }),
{
    summarise_errors(message, state)
}

/// Whether a layer's rows are complete, and the message if not.
pub open spec fn layer_check(count: int, first: Seq<char>) -> Result<u32, Seq<char>> {
    if count == 0 {
        Ok(0)
    } else {
        Err(dec(count as nat) + " PLE row(s) failed; first: "@ + first)
    }
}

/// Rejects an incomplete layer.
pub fn assert_layer_complete(error_count: u32, first_error: &String) -> (r: Result<u32, String>)
    ensures
        outcome(r, layer_check(error_count as int, first_error@)),
{
    if error_count == 0 {
        Ok(error_count)
    } else {
        Err(
            decimal(error_count as u64).concat(" PLE row(s) failed; first: ").concat(
                first_error.as_str(),
            ),
        )
    }
}

/// Why a layer's declared widths are refused, if they are.
pub open spec fn params_error(p: PleLayerParams) -> Option<Seq<char>> {
    if p.hidden_size == 0 || p.ple_width == 0 {
        Some("PLE layer requires non-zero hidden_size and ple_width"@)
    } else if p.norm_weights@.bytes.len() != 4 * p.ple_width {
        Some(
            "layer "@ + dec(p.layer_idx as nat) + " norm weights have "@ + dec(
                p.norm_weights@.bytes.len(),
            ) + " bytes, expected "@ + dec((4 * p.ple_width) as nat),
        )
    } else if p.norm_eps < 0 {
        Some("PLE rms-norm epsilon must be non-negative"@)
    } else {
        None
    }
}

/// Guards a layer's declared widths.
pub fn validate_layer_params(params: PleLayerParams) -> (r: Result<PleLayerParams, String>)
    ensures
        match params_error(params) {
            None => r matches Ok(p) && p == params,
            Some(e) => r matches Err(s) && s@ == e,
        },
{
    if params.hidden_size == 0 || params.ple_width == 0 {
        return Err(String::from_str("PLE layer requires non-zero hidden_size and ple_width"));
    }
    let expected_norm: u64 = params.ple_width as u64 * 4;
    if params.norm_weights.len() as u64 != expected_norm {
        return Err(
            String::from_str("layer ").concat(decimal(params.layer_idx as u64).as_str()).concat(
                " norm weights have ",
            ).concat(decimal(params.norm_weights.len() as u64).as_str()).concat(
                " bytes, expected ",
            ).concat(decimal(expected_norm).as_str()),
        );
    }
    if params.norm_eps < 0 {
        return Err(String::from_str("PLE rms-norm epsilon must be non-negative"));
    }
    Ok(params)
}

/// The table has a page for a token's row.
pub open spec fn addressable(token_id: u32, ple_width: u32, table: RegionView) -> bool {
    &&& token_id * ple_width * 4 <= u64::MAX
    &&& page_index((token_id * ple_width * 4) as u64, table.page_size) < table.pages.len()
}

/// The layer's output with one more activation row worked into it.
pub open spec fn prepared_row(
    output: PleInputsView,
    row: RowView,
    embeddings: RegionView,
    projection: Seq<PageView>,
    params: PleLayerParams,
) -> PleInputsView {
    let byte_off = (row.token_id * params.ple_width * 4) as u64;
    let projected = matvec_spec(
        Rounding::Floor,
        projection,
        row.values,
        params.hidden_size,
        params.ple_width,
    );
    with_ple_row(
        output,
        combined_row(
            row.token_id,
            embeddings.pages[page_index(byte_off, embeddings.page_size) as int],
            byte_off,
            projected_row(projected, params),
            params,
        ),
    )
}

/// One token: gathers its per-layer embedding, projects its activation row, and
/// appends the combination.
pub fn prepare_ple_row(
    row: &ActivationRow,
    output: PleLayerInputs,
    embeddings: &Bytes,
    projection_pages: &Vec<BytesPage>,
    params: &PleLayerParams,
) -> (r: PleLayerInputs)
    requires
        addressable(row.token_id, params.ple_width, embeddings@),
    ensures
        r@ == prepared_row(output@, row@, embeddings@, views(projection_pages@), *params),
{
    let task: PleTask = begin_ple_task(row);
    let byte_off: u64 = ple_byte_offset(task.token_id, params.ple_width);
    let page_idx: u64 = page_of(byte_off, embeddings.page_size);
    let emb_page: BytesPage = page_at(embeddings, page_idx);
    let activation: BytesPage = ple_activation(&task);
    let projected: ProjAccum = matvec(
        Rounding::Floor,
        projection_pages,
        &activation,
        params.hidden_size,
        params.ple_width,
    );
    let projected: ProjectedRow = finish_ple_projection(&projected, params);
    combine_ple_row(output, &task, &emb_page, byte_off, &projected, params)
}

/// The layer's output after the first `n` rows.
pub open spec fn prepared_rows(
    output: PleInputsView,
    rows: Seq<RowView>,
    embeddings: RegionView,
    projection: Seq<PageView>,
    params: PleLayerParams,
    n: nat,
) -> PleInputsView
    decreases n,
{
    if n == 0 {
        output
    } else {
        prepared_row(
            prepared_rows(output, rows, embeddings, projection, params, (n - 1) as nat),
            rows[n - 1],
            embeddings,
            projection,
            params,
        )
    }
}

/// A layer's per-layer embeddings for a run of activations, or why it is
/// refused.
pub open spec fn prepare_result(embedded: ActivationsView, layer: PleLayer) -> Result<
    PleInputsView,
    Seq<char>,
> {
    match (
        params_error(layer.params),
        matrix_check(
            layer.projection.byte_len,
            layer.params.ple_width,
            layer.params.hidden_size,
        ),
    ) {
        (Some(e), _) => Err(e),
        (None, Err(e)) => Err(e),
        (None, Ok(_)) => {
            let output = prepared_rows(
                PleInputsView {
                    layer_idx: layer.params.layer_idx,
                    rows: Seq::empty(),
                    errors: Seq::empty(),
                },
                embedded.rows,
                layer.embeddings@,
                layer.projection@.pages,
                layer.params,
                embedded.rows.len(),
            );
            let summary = summary_of(output.errors);
            match layer_check(summary.count, summary.first) {
                Err(e) => Err(e),
                Ok(_) => Ok(output),
            }
        },
    }
}

/// Runs the stage for one layer.
pub fn prepare_layer(embedded: &ActivationSequence, layer: PleLayer) -> (r: Result<
    PleLayerInputs,
    String,
>)
    requires
        layer.params.ple_width * layer.params.hidden_size * 4 <= u64::MAX,
        embedded.rows@.len() <= u32::MAX,
        forall|i: int|
            0 <= i < embedded.rows@.len() ==> addressable(
                (#[trigger] embedded.rows@[i]).token_id,
                layer.params.ple_width,
                layer.embeddings@,
            ),
    ensures
        outcome(r, prepare_result(embedded@, layer)),
{
    let PleLayer { params, embeddings, projection } = layer;
    let params: PleLayerParams = match validate_layer_params(params) {
        Ok(params) => params,
        Err(e) => return Err(e),
    };
    match assert_matrix_bytes(projection.byte_len, params.ple_width, params.hidden_size) {
        Ok(_) => {},
        Err(e) => return Err(e),
    }
    let mut output: PleLayerInputs = begin_ple_layer(PleLayerInputs::empty(), &params);
    let ghost opened = output@;
    let mut i: usize = 0;
    while i < embedded.rows.len()
        invariant
            i <= embedded.rows.len(),
            embedded.rows@.len() <= u32::MAX,
            forall|j: int|
                0 <= j < embedded.rows@.len() ==> addressable(
                    (#[trigger] embedded.rows@[j]).token_id,
                    params.ple_width,
                    embeddings@,
                ),
            output@.errors.len() <= i,
            output@ == prepared_rows(
                opened,
                views(embedded.rows@),
                embeddings@,
                projection@.pages,
                params,
                i as nat,
            ),
        decreases embedded.rows.len() - i,
    {
        output = prepare_ple_row(
            &embedded.rows[i],
            output,
            &embeddings,
            &projection.pages,
            &params,
        );
        i += 1;
    }
    let summary: ErrorSummary = summarise(&output.errors);
    match assert_layer_complete(summary.count, &summary.first) {
        Ok(_) => Ok(output),
        Err(e) => Err(e),
    }
}

proof fn lemma_rows_or_errors(
    output: PleInputsView,
    rows: Seq<RowView>,
    embeddings: RegionView,
    projection: Seq<PageView>,
    params: PleLayerParams,
    n: nat,
)
    ensures
        ({
            let r = prepared_rows(output, rows, embeddings, projection, params, n);
            r.rows.len() + r.errors.len() == output.rows.len() + output.errors.len() + n
                && r.layer_idx == output.layer_idx
        }),
    decreases n,
{
    if n > 0 {
        lemma_rows_or_errors(output, rows, embeddings, projection, params, (n - 1) as nat);
    }
}

/// A layer that is published has exactly one row per token: a short layer input
/// is never handed on.
pub proof fn a_published_layer_has_a_row_per_token(embedded: ActivationsView, layer: PleLayer)
    requires
        prepare_result(embedded, layer) is Ok,
    ensures
        prepare_result(embedded, layer)->Ok_0.rows.len() == embedded.rows.len(),
        prepare_result(embedded, layer)->Ok_0.layer_idx == layer.params.layer_idx,
{
    lemma_rows_or_errors(
        PleInputsView {
            layer_idx: layer.params.layer_idx,
            rows: Seq::empty(),
            errors: Seq::empty(),
        },
        embedded.rows,
        layer.embeddings@,
        layer.projection@.pages,
        layer.params,
        embedded.rows.len(),
    );
}

} // verus!
