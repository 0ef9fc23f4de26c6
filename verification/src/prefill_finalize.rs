//! Stage `prefill_finalize`: next-token scores.
//!
//! The last row of a run of activations is normalised once, and every
//! vocabulary row of the paged output projection is scored against it. A page's
//! byte offset says which token ids its rows belong to.

use crate::activations::{
    summarise, summary_of, ActivationRow, ActivationSequence, ActivationsView, ErrorSummary, RowView,
};
use crate::det_num::dot_spec;
use crate::kernels::{reliable, KernelCall};
use crate::lists::{views, views_of_empty, views_of_push};
use crate::numerics::{dot, rms_norm, rms_norm_result, softcap, softcap_spec};
use crate::pages::{
    lanes_of, pack_i32s, packed, region, standalone, unpack_i32s, Bytes, BytesPage, PageView,
};
use crate::matvec::{matrix_row, page_holds_whole_rows, rows_end};
use crate::text::{dec, decimal, outcome};
use vstd::prelude::*;

verus! {

/// The output head's scalars and its final-norm vector.
pub struct FinalHeadParams {
    pub hidden_size: u32,
    pub norm_eps: i64,
    /// `0` disables softcapping.
    pub softcap: i32,
    pub norm_weights: BytesPage,
}

/// The output head: the final norm plus the logits projection, vocabulary by
/// hidden, row-major.
pub struct FinalHead {
    pub params: FinalHeadParams,
    pub projection: Bytes,
}

/// Loop-carried result of walking a run to its last position.
pub struct FinalPosition {
    pub found: bool,
    pub token_id: u32,
    pub token_count: u32,
    pub values: BytesPage,
}

/// The last position as a mathematical value.
#[verifier::ext_equal]
pub struct FinalPositionView {
    pub found: bool,
    pub token_id: u32,
    pub token_count: u32,
    pub values: PageView,
}

impl View for FinalPosition {
    type V = FinalPositionView;

    open spec fn view(&self) -> FinalPositionView {
        FinalPositionView {
            found: self.found,
            token_id: self.token_id,
            token_count: self.token_count,
            values: self.values@,
        }
    }
}

/// The last position after the output norm.
pub struct NormalizedPosition {
    pub values: BytesPage,
}

impl View for NormalizedPosition {
    type V = PageView;

    open spec fn view(&self) -> PageView {
        self.values@
    }
}

/// One scored token.
#[derive(Clone, Copy, PartialEq, Eq, Structural, Debug)]
pub struct LogitEntry {
    pub token_id: u32,
    pub value: i32,
}

/// The stage's output: the next-token scores.
pub struct PrefillLogits {
    /// Absolute position of the token that these logits select.
    pub decode_position: u32,
    pub logits: Vec<LogitEntry>,
    pub errors: Vec<String>,
}

/// Next-token scores as a mathematical value.
#[verifier::ext_equal]
pub struct LogitsView {
    pub decode_position: u32,
    pub logits: Seq<LogitEntry>,
    pub errors: Seq<Seq<char>>,
}

impl View for PrefillLogits {
    type V = LogitsView;

    open spec fn view(&self) -> LogitsView {
        LogitsView {
            decode_position: self.decode_position,
            logits: self.logits@,
            errors: views(self.errors@),
        }
    }
}

/// Why an output head is refused, if it is.
pub open spec fn head_error(p: FinalHeadParams) -> Option<Seq<char>> {
    if p.hidden_size == 0 {
        Some("output head requires a non-zero hidden_size"@)
    } else if p.norm_eps < 0 {
        Some("rms-norm epsilon must be non-negative"@)
    } else if p.softcap < 0 {
        Some("final logit softcap must be non-negative (0 disables it)"@)
    } else if p.norm_weights@.bytes.len() != 4 * p.hidden_size {
        Some(
            "final norm weights have "@ + dec(p.norm_weights@.bytes.len()) + " bytes, expected "@
                + dec((4 * p.hidden_size) as nat),
        )
    } else {
        None
    }
}

/// Guards the output head before any of it is used.
pub fn validate_final_head(params: FinalHeadParams) -> (r: Result<FinalHeadParams, String>)
    ensures
        match head_error(params) {
            None => r matches Ok(p) && p == params,
            Some(e) => r matches Err(s) && s@ == e,
        },
{
    if params.hidden_size == 0 {
        return Err(String::from_str("output head requires a non-zero hidden_size"));
    }
    if params.norm_eps < 0 {
        return Err(String::from_str("rms-norm epsilon must be non-negative"));
    }
    if params.softcap < 0 {
        return Err(
            String::from_str("final logit softcap must be non-negative (0 disables it)"),
        );
    }
    let expected: u64 = params.hidden_size as u64 * 4;
    if params.norm_weights.len() as u64 != expected {
        return Err(
            String::from_str("final norm weights have ").concat(
                decimal(params.norm_weights.len() as u64).as_str(),
            ).concat(" bytes, expected ").concat(decimal(expected).as_str()),
        );
    }
    Ok(params)
}

/// The last position of a run with no rows.
pub open spec fn no_position() -> FinalPositionView {
    FinalPositionView {
        found: false,
        token_id: 0,
        token_count: 0,
        values: standalone(packed(Seq::empty())),
    }
}

/// The last position of a run.
pub open spec fn last_position(rows: Seq<RowView>) -> FinalPositionView {
    if rows.len() == 0 {
        no_position()
    } else {
        FinalPositionView {
            found: true,
            token_id: rows.last().token_id,
            token_count: rows.len() as u32,
            values: rows.last().values,
        }
    }
}

/// Empty last-position state.
pub fn empty_final_position() -> (r: FinalPosition)
    ensures
        r@ == no_position(),
{
    let none: Vec<i32> = Vec::new();
    FinalPosition {
        found: false,
        token_id: 0,
        token_count: 0,
        values: pack_i32s(none.as_slice()),
    }
}

/// Moves the last position on to one more row, counting it.
pub fn track_final_position(row: &ActivationRow, state: FinalPosition) -> (r: FinalPosition)
    requires
        state.token_count < u32::MAX,
    ensures
        r@ == (FinalPositionView {
            found: true,
            token_id: row@.token_id,
            token_count: (state.token_count + 1) as u32,
            values: row@.values,
        }),
{
    FinalPosition {
        found: true,
        token_id: row.token_id,
        token_count: state.token_count + 1,
        values: row.values.copy(),
    }
}

fn find_final_position(rows: &Vec<ActivationRow>) -> (r: FinalPosition)
    requires
        rows@.len() <= u32::MAX,
    ensures
        r@ == last_position(views(rows@)),
{
    let mut state: FinalPosition = empty_final_position();
    let mut i: usize = 0;
    while i < rows.len()
        invariant
            i <= rows.len(),
            rows@.len() <= u32::MAX,
            state.token_count == i,
            state@ == last_position(views(rows@).take(i as int)),
        decreases rows.len() - i,
    {
        state = track_final_position(&rows[i], state);
        i += 1;
        assert(views(rows@).take(i as int).last() == rows@[i - 1]@);
    }
    assert(views(rows@).take(i as int) =~= views(rows@));
    state
}

/// The last position after the output norm, or why there is none.
pub open spec fn normalized<K: Fn(KernelCall) -> Vec<i32>>(
    kernels: K,
    position: FinalPositionView,
    params: FinalHeadParams,
) -> Result<PageView, Seq<char>> {
    if !position.found {
        Err("prefill produced no activation rows; there is no final position to score"@)
    } else {
        match lanes_of(position.values.bytes) {
            Err(e) => Err(e),
            Ok(values) => if values.len() != params.hidden_size {
                Err(
                    "final position has "@ + dec(values.len()) + " values, expected hidden_size "@
                        + dec(params.hidden_size as nat),
                )
            } else {
                match lanes_of(params.norm_weights@.bytes) {
                    Err(e) => Err(e),
                    Ok(weights) => match rms_norm_result(
                        kernels,
                        values,
                        weights,
                        params.norm_eps,
                    ) {
                        Err(e) => Err(e),
                        Ok(normed) => Ok(standalone(packed(normed))),
                    },
                }
            },
        }
    }
}

/// Applies the final norm to the position that every logit is scored against.
pub fn normalize_final_position<K: Fn(KernelCall) -> Vec<i32>>(
    kernels: &K,
    position: &FinalPosition,
    params: &FinalHeadParams,
) -> (r: Result<NormalizedPosition, String>)
    requires
        reliable(*kernels),
    ensures
        outcome(r, normalized(*kernels, position@, *params)),
{
    if !position.found {
        return Err(
            String::from_str(
                "prefill produced no activation rows; there is no final position to score",
            ),
        );
    }
    let mut values: Vec<i32> = match unpack_i32s(&position.values) {
        Ok(lanes) => lanes,
        Err(e) => return Err(e),
    };
    if values.len() != params.hidden_size as usize {
        return Err(
            String::from_str("final position has ").concat(
                decimal(values.len() as u64).as_str(),
            ).concat(" values, expected hidden_size ").concat(
                decimal(params.hidden_size as u64).as_str(),
            ),
        );
    }
    let weights: Vec<i32> = match unpack_i32s(&params.norm_weights) {
        Ok(lanes) => lanes,
        Err(e) => return Err(e),
    };
    match rms_norm(kernels, values.as_mut_slice(), weights.as_slice(), params.norm_eps) {
        Ok(()) => {},
        Err(e) => return Err(e),
    }
    Ok(NormalizedPosition { values: pack_i32s(values.as_slice()) })
}

/// No scores yet, at position zero.
pub open spec fn no_logits() -> LogitsView {
    LogitsView { decode_position: 0, logits: Seq::empty(), errors: Seq::empty() }
}

impl PrefillLogits {
    /// Scores with nothing in them.
    pub fn empty() -> (r: PrefillLogits)
        ensures
            r@ == no_logits(),
    {
        broadcast use views_of_empty;

        PrefillLogits { decode_position: 0, logits: Vec::new(), errors: Vec::new() }
    }
}

/// Opens the scores at the position that decoding resumes from: absolute, the
/// stage's start plus the rows it saw.
pub fn begin_logits(output: PrefillLogits, position: &FinalPosition, start_position: u32) -> (r:
    PrefillLogits)
    requires
        start_position + position.token_count <= u32::MAX,
    ensures
        r@ == (LogitsView {
            decode_position: (start_position + position@.token_count) as u32,
            ..output@
        }),
{
    let mut output: PrefillLogits = output;
    output.decode_position = start_position + position.token_count;
    output
}

/// The token id of row `i` of a page whose first row is `first`, as a `u32`.
pub open spec fn row_token(first: int, i: int) -> u32 {
    ((first + i) % 0x1_0000_0000) as u32
}

/// The scores of one page of vocabulary rows, or why the page is refused.
pub open spec fn page_logits<K: Fn(KernelCall) -> Vec<i32>>(
    kernels: K,
    page: PageView,
    position: PageView,
    params: FinalHeadParams,
) -> Result<Seq<LogitEntry>, Seq<char>> {
    let hidden = params.hidden_size;
    match lanes_of(position.bytes) {
        Err(e) => Err(e),
        Ok(position) => if position.len() != hidden {
            Err(
                "normalised position has "@ + dec(position.len()) + " values, expected "@ + dec(
                    hidden as nat,
                ),
            )
        } else {
            match lanes_of(page.bytes) {
                Err(e) => Err(e),
                Ok(weights) => if hidden == 0 || weights.len() as int % hidden as int != 0 {
                    Err(
                        "projection page at offset "@ + dec(page.offset as nat)
                            + " is not a whole number of hidden-width rows"@,
                    )
                } else if page.offset as int % (4 * hidden) != 0 {
                    Err("projection page offset is not row-aligned"@)
                } else {
                    Ok(
                        Seq::new(
                            (weights.len() as int / hidden as int) as nat,
                            |i: int|
                                LogitEntry {
                                    token_id: row_token(page.offset as int / (4 * hidden), i),
                                    value: softcap_spec(
                                        kernels,
                                        dot_spec(position, matrix_row(weights, hidden as int, i)),
                                        params.softcap,
                                    ),
                                },
                        ),
                    )
                },
            }
        },
    }
}

/// The scores after one page: its entries appended, or its refusal recorded.
pub open spec fn with_page<K: Fn(KernelCall) -> Vec<i32>>(
    kernels: K,
    output: LogitsView,
    page: PageView,
    position: PageView,
    params: FinalHeadParams,
) -> LogitsView {
    match page_logits(kernels, page, position, params) {
        Ok(entries) => LogitsView { logits: output.logits + entries, ..output },
        Err(e) => LogitsView { errors: output.errors.push(e), ..output },
    }
}

fn with_error(output: PrefillLogits, error: String) -> (r: PrefillLogits)
    ensures
        r@ == (LogitsView { errors: output@.errors.push(error@), ..output@ }),
{
    broadcast use views_of_push;

    let mut output: PrefillLogits = output;
    output.errors.push(error);
    output
}

/// Scores one page of the vocabulary: an inner product per row, then softcap.
pub fn project_logit_page<K: Fn(KernelCall) -> Vec<i32>>(
    kernels: &K,
    page: &BytesPage,
    output: PrefillLogits,
    normalized: &NormalizedPosition,
    params: &FinalHeadParams,
) -> (r: PrefillLogits)
    requires
        reliable(*kernels),
    ensures
        r@ == with_page(*kernels, output@, page@, normalized@, *params),
{
    let position: Vec<i32> = match unpack_i32s(&normalized.values) {
        Ok(lanes) => lanes,
        Err(e) => return with_error(output, e),
    };
    let hidden: usize = params.hidden_size as usize;
    if position.len() != hidden {
        return with_error(
            output,
            String::from_str("normalised position has ").concat(
                decimal(position.len() as u64).as_str(),
            ).concat(" values, expected ").concat(decimal(hidden as u64).as_str()),
        );
    }
    let weights: Vec<i32> = match unpack_i32s(page) {
        Ok(lanes) => lanes,
        Err(e) => return with_error(output, e),
    };
    if hidden == 0 || weights.len() % hidden != 0 {
        return with_error(
            output,
            String::from_str("projection page at offset ").concat(
                decimal(page.offset()).as_str(),
            ).concat(" is not a whole number of hidden-width rows"),
        );
    }
    let stride: u64 = hidden as u64 * 4;
    if page.offset() % stride != 0 {
        return with_error(
            output,
            String::from_str("projection page offset is not row-aligned"),
        );
    }
    let first_id: u64 = page.offset() / stride;
    let rows: usize = weights.len() / hidden;
    let ghost w = hidden as int;
    let ghost entries = page_logits(*kernels, page@, normalized@, *params)->Ok_0;
    let ghost before = output@;
    let mut output: PrefillLogits = output;
    proof {
        vstd::arithmetic::div_mod::lemma_fundamental_div_mod(weights@.len() as int, w);
        assert(rows * w == w * rows) by (nonlinear_arith);
        assert(first_id <= 0x4000_0000_0000_0000) by (nonlinear_arith)
            requires
                first_id == page.offset / stride,
                stride >= 4,
        ;
        assert(before.logits + entries.take(0) =~= before.logits);
    }
    let mut local: usize = 0;
    while local < rows
        invariant
            local <= rows,
            reliable(*kernels),
            rows * w == weights@.len(),
            w == hidden,
            w > 0,
            position@.len() == w,
            params.hidden_size == hidden,
            first_id == page@.offset as int / (4 * params.hidden_size),
            first_id <= 0x4000_0000_0000_0000,
            entries == Seq::new(
                rows as nat,
                |i: int|
                    LogitEntry {
                        token_id: row_token(page@.offset as int / (4 * params.hidden_size), i),
                        value: softcap_spec(
                            *kernels,
                            dot_spec(position@, matrix_row(weights@, w, i)),
                            params.softcap,
                        ),
                    },
            ),
            output@ == (LogitsView { logits: before.logits + entries.take(local as int), ..before }),
        decreases rows - local,
    {
        assert(0 <= local * w && (local + 1) * w == local * w + w && (local + 1) * w
            <= weights@.len()) by (nonlinear_arith)
            requires
                local < rows,
                rows * w == weights@.len(),
                w > 0,
        ;
        assert(local * w >= local) by (nonlinear_arith)
            requires
                w > 0,
        ;
        assert(weights.len() <= usize::MAX);
        let from: usize = local * hidden;
        let row: &[i32] = &weights[from..from + hidden];
        assert(row@ =~= matrix_row(weights@, w, local as int));
        let value: i32 = match dot(position.as_slice(), row) {
            Ok(value) => value,
            Err(e) => {
                return with_error(output, e);
            },
        };
        let token_id: u32 = row_id(first_id, local);
        let entry: LogitEntry = LogitEntry {
            token_id,
            value: softcap(kernels, value, params.softcap),
        };
        assert(entry == entries[local as int]);
        output.logits.push(entry);
        local += 1;
        assert(entries.take(local as int) =~= entries.take(local - 1).push(entry));
        assert(before.logits + entries.take(local as int) =~= (before.logits + entries.take(
            local - 1,
        )).push(entry));
    }
    assert(entries.take(rows as int) =~= entries);
    output
}

/// The token id of a vocabulary row.
fn row_id(first_id: u64, local: usize) -> (r: u32)
    ensures
        r == row_token(first_id as int, local as int),
{
    ((first_id as u128 + local as u128) % 0x1_0000_0000) as u32
}

/// The scores after the first `n` pages.
pub open spec fn with_pages<K: Fn(KernelCall) -> Vec<i32>>(
    kernels: K,
    output: LogitsView,
    pages: Seq<PageView>,
    position: PageView,
    params: FinalHeadParams,
    n: nat,
) -> LogitsView
    decreases n,
{
    if n == 0 {
        output
    } else {
        with_page(
            kernels,
            with_pages(kernels, output, pages, position, params, (n - 1) as nat),
            pages[n - 1],
            position,
            params,
        )
    }
}

/// Whether every page was scored, and the message if not.
pub open spec fn logits_check(count: int, first: Seq<char>) -> Result<u32, Seq<char>> {
    if count == 0 {
        Ok(0)
    } else {
        Err(dec(count as nat) + " vocabulary row(s) failed to score; first: "@ + first)
    }
}

/// Rejects an incomplete logit vector.
pub fn assert_logits_complete(error_count: u32, first_error: &String) -> (r: Result<u32, String>)
    ensures
        outcome(r, logits_check(error_count as int, first_error@)),
{
    if error_count == 0 {
        Ok(error_count)
    } else {
        Err(
            decimal(error_count as u64).concat(
                " vocabulary row(s) failed to score; first: ",
            ).concat(first_error.as_str()),
        )
    }
}

/// The next-token scores of a run of activations, or why there are none.
pub open spec fn finalize_result<K: Fn(KernelCall) -> Vec<i32>>(
    kernels: K,
    activations: ActivationsView,
    head: FinalHead,
) -> Result<LogitsView, Seq<char>> {
    match head_error(head.params) {
        Some(e) => Err(e),
        None => {
            let position = last_position(activations.rows);
            match normalized(kernels, position, head.params) {
                Err(e) => Err(e),
                Ok(normed) => {
                    let opened = LogitsView {
                        decode_position: (activations.start_position + position.token_count) as u32,
                        ..no_logits()
                    };
                    let pages = head.projection@.pages;
                    let logits = with_pages(
                        kernels,
                        opened,
                        pages,
                        normed,
                        head.params,
                        pages.len(),
                    );
                    let summary = summary_of(logits.errors);
                    match logits_check(summary.count, summary.first) {
                        Err(e) => Err(e),
                        Ok(_) => Ok(logits),
                    }
                },
            }
        },
    }
}

/// Runs the stage: normalises the run's last position and scores the whole
/// vocabulary against it.
pub fn finalize_prefill<K: Fn(KernelCall) -> Vec<i32>>(
    kernels: &K,
    activations: &ActivationSequence,
    head: FinalHead,
) -> (r: Result<PrefillLogits, String>)
    requires
        reliable(*kernels),
        activations.start_position + activations.rows@.len() <= u32::MAX,
        head.projection.pages@.len() <= u32::MAX,
    ensures
        outcome(r, finalize_result(*kernels, activations@, head)),
{
    let FinalHead { params, projection } = head;
    let params: FinalHeadParams = match validate_final_head(params) {
        Ok(params) => params,
        Err(e) => return Err(e),
    };
    let position: FinalPosition = find_final_position(&activations.rows);
    let normed: NormalizedPosition = match normalize_final_position(kernels, &position, &params) {
        Ok(normed) => normed,
        Err(e) => return Err(e),
    };
    let mut output: PrefillLogits = begin_logits(
        PrefillLogits::empty(),
        &position,
        activations.start_position,
    );
    let ghost opened = output@;
    let mut i: usize = 0;
    while i < projection.pages.len()
        invariant
            i <= projection.pages.len(),
            reliable(*kernels),
            output@.errors.len() <= i,
            output@ == with_pages(*kernels, opened, projection@.pages, normed@, params, i as nat),
        decreases projection.pages.len() - i,
    {
        output = project_logit_page(kernels, &projection.pages[i], output, &normed, &params);
        i += 1;
    }
    let summary: ErrorSummary = summarise(&output.errors);
    match assert_logits_complete(summary.count, &summary.first) {
        Ok(_) => Ok(output),
        Err(e) => Err(e),
    }
}

/// The score of every vocabulary row against a position, in token order.
pub open spec fn vocabulary_scores<K: Fn(KernelCall) -> Vec<i32>>(
    kernels: K,
    position: Seq<i32>,
    table: Seq<i32>,
    vocab: nat,
    cap: i32,
) -> Seq<LogitEntry> {
    Seq::new(
        vocab,
        |t: int|
            LogitEntry {
                token_id: t as u32,
                value: softcap_spec(
                    kernels,
                    dot_spec(position, matrix_row(table, position.len() as int, t)),
                    cap,
                ),
            },
    )
}

proof fn lemma_vocabulary_sweep<K: Fn(KernelCall) -> Vec<i32>>(
    kernels: K,
    output: LogitsView,
    table: Seq<i32>,
    position: Seq<i32>,
    vocab: u32,
    params: FinalHeadParams,
    page_size: u64,
    rows: int,
    n: nat,
)
    requires
        params.hidden_size > 0,
        position.len() == params.hidden_size,
        table.len() == vocab * params.hidden_size,
        4 * table.len() <= u64::MAX,
        rows > 0,
        page_size == rows * (4 * params.hidden_size),
        n <= region(packed(table), page_size).pages.len(),
    ensures
        with_pages(
            kernels,
            output,
            region(packed(table), page_size).pages,
            standalone(packed(position)),
            params,
            n,
        ) == (LogitsView {
            logits: output.logits + vocabulary_scores(
                kernels,
                position,
                table,
                (if n * rows < vocab {
                    n * rows
                } else {
                    vocab as int
                }) as nat,
                params.softcap,
            ),
            ..output
        }),
    decreases n,
{
    let pages = region(packed(table), page_size).pages;
    let all = vocabulary_scores(kernels, position, table, vocab as nat, params.softcap);
    if n == 0 {
        assert(n * rows == 0) by (nonlinear_arith)
            requires
                n == 0,
        ;
        assert(output.logits + vocabulary_scores(kernels, position, table, 0, params.softcap)
            =~= output.logits);
    } else {
        lemma_vocabulary_sweep(
            kernels,
            output,
            table,
            position,
            vocab,
            params,
            page_size,
            rows,
            (n - 1) as nat,
        );
        page_holds_whole_rows(table, vocab, params.hidden_size, page_size, rows, n - 1);
        crate::pages::unpack_undoes_pack(position);
        let s = (n - 1) * rows;
        let e = rows_end(n - 1, rows, vocab as int);
        let w = params.hidden_size as int;
        let weights = table.subrange(s * w, e * w);
        let entries = page_logits(
            kernels,
            pages[n - 1],
            standalone(packed(position)),
            params,
        )->Ok_0;
        assert(entries.len() == e - s);
        assert forall|i: int| 0 <= i < e - s implies entries[i] == all[s + i] by {
            assert(matrix_row(weights, w, (s + i) - s) == matrix_row(table, w, s + i));
        }
        assert(vocabulary_scores(kernels, position, table, s as nat, params.softcap) + entries
            =~= vocabulary_scores(kernels, position, table, e as nat, params.softcap));
        assert(output.logits + vocabulary_scores(kernels, position, table, s as nat, params.softcap)
            + entries =~= output.logits + vocabulary_scores(
            kernels,
            position,
            table,
            e as nat,
            params.softcap,
        ));
        assert((n - 1 + 1) * rows == n * rows);
        assert((n - 1) * rows == s && s < vocab);
    }
}

/// Scoring the pages of the whole vocabulary yields one entry per token id, in
/// order, each the softcapped inner product of the position with the token's
/// row, provided that a page is a whole number of rows.
pub proof fn every_token_is_scored_once<K: Fn(KernelCall) -> Vec<i32>>(
    kernels: K,
    output: LogitsView,
    table: Seq<i32>,
    position: Seq<i32>,
    vocab: u32,
    params: FinalHeadParams,
    page_size: u64,
)
    requires
        params.hidden_size > 0,
        position.len() == params.hidden_size,
        table.len() == vocab * params.hidden_size,
        4 * table.len() <= u64::MAX,
        page_size > 0,
        page_size as int % (4 * params.hidden_size) == 0,
    ensures
        ({
            let pages = region(packed(table), page_size).pages;
            with_pages(
                kernels,
                output,
                pages,
                standalone(packed(position)),
                params,
                pages.len(),
            ) == (LogitsView {
                logits: output.logits + vocabulary_scores(
                    kernels,
                    position,
                    table,
                    vocab as nat,
                    params.softcap,
                ),
                ..output
            })
        }),
{
    let stride = 4 * params.hidden_size;
    let rows = page_size as int / stride;
    vstd::arithmetic::div_mod::lemma_fundamental_div_mod(page_size as int, stride);
    assert(page_size == rows * stride) by (nonlinear_arith)
        requires
            page_size == stride * rows,
    ;
    assert(rows > 0) by (nonlinear_arith)
        requires
            page_size == rows * stride,
            page_size > 0,
            stride > 0,
    ;
    let pages = region(packed(table), page_size).pages;
    let n = pages.len() as int;
    lemma_vocabulary_sweep(
        kernels,
        output,
        table,
        position,
        vocab,
        params,
        page_size,
        rows,
        n as nat,
    );
    let len = packed(table).len() as int;
    let ps = page_size as int;
    assert(n * ps >= len) by (nonlinear_arith)
        requires
            ps > 0,
            n == (len + ps - 1) / ps,
    ;
    assert(n * rows >= vocab) by (nonlinear_arith)
        requires
            n * ps >= len,
            ps == rows * (4 * params.hidden_size),
            len == 4 * (vocab * params.hidden_size),
            params.hidden_size > 0,
    ;
}

/// The position a run's scores are for is the one right after its last row,
/// counted from the start of the whole sequence.
pub proof fn decode_position_is_absolute<K: Fn(KernelCall) -> Vec<i32>>(
    kernels: K,
    activations: ActivationsView,
    head: FinalHead,
)
    requires
        activations.start_position + activations.rows.len() <= u32::MAX,
        finalize_result(kernels, activations, head) is Ok,
    ensures
        finalize_result(kernels, activations, head)->Ok_0.decode_position
            == activations.start_position + activations.rows.len(),
{
    let position = last_position(activations.rows);
    let normed = normalized(kernels, position, head.params)->Ok_0;
    lemma_pages_keep_the_position(
        kernels,
        LogitsView {
            decode_position: (activations.start_position + position.token_count) as u32,
            ..no_logits()
        },
        head.projection@.pages,
        normed,
        head.params,
        head.projection@.pages.len(),
    );
}

proof fn lemma_pages_keep_the_position<K: Fn(KernelCall) -> Vec<i32>>(
    kernels: K,
    output: LogitsView,
    pages: Seq<PageView>,
    position: PageView,
    params: FinalHeadParams,
    n: nat,
)
    ensures
        with_pages(kernels, output, pages, position, params, n).decode_position
            == output.decode_position,
    decreases n,
{
    if n > 0 {
        lemma_pages_keep_the_position(kernels, output, pages, position, params, (n - 1) as nat);
    }
}

} // verus!
