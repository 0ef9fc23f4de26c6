//! The activation type that every stage of the chain passes on, and the
//! accounting of rows that could not be produced.

use crate::lists::{views, views_of_empty};
use crate::pages::{BytesPage, PageView};
use vstd::prelude::*;

verus! {

/// One sequence position: the token that produced it and its activation row.
pub struct ActivationRow {
    pub token_id: u32,
    pub values: BytesPage,
}

/// An activation row as a mathematical value.
#[verifier::ext_equal]
pub struct RowView {
    pub token_id: u32,
    pub values: PageView,
}

impl View for ActivationRow {
    type V = RowView;

    open spec fn view(&self) -> RowView {
        RowView { token_id: self.token_id, values: self.values@ }
    }
}

/// Key/value side of one token: one entry of a layer's cache.
pub struct KeyRow {
    pub position: u32,
    pub k: BytesPage,
    pub v: BytesPage,
}

/// A cache entry as a mathematical value.
#[verifier::ext_equal]
pub struct KeyView {
    pub position: u32,
    pub k: PageView,
    pub v: PageView,
}

impl View for KeyRow {
    type V = KeyView;

    open spec fn view(&self) -> KeyView {
        KeyView { position: self.position, k: self.k@, v: self.v@ }
    }
}

impl Clone for KeyRow {
    fn clone(&self) -> (r: KeyRow)
        ensures
            r@ == self@,
    {
        KeyRow { position: self.position, k: self.k.copy(), v: self.v.copy() }
    }
}

impl Clone for ActivationRow {
    fn clone(&self) -> (r: ActivationRow)
        ensures
            r@ == self@,
    {
        ActivationRow { token_id: self.token_id, values: self.values.copy() }
    }
}

/// A run of activations, in sequence order.
pub struct ActivationSequence {
    pub rows: Vec<ActivationRow>,
    pub errors: Vec<String>,
    /// This layer's key/value cache after the stage that made it.
    pub kv: Vec<KeyRow>,
    /// Absolute position of the first row in the full sequence: zero for the
    /// prompt, past everything before it for a decode step.
    pub start_position: u32,
}

/// A run of activations as a mathematical value.
#[verifier::ext_equal]
pub struct ActivationsView {
    pub rows: Seq<RowView>,
    pub errors: Seq<Seq<char>>,
    pub kv: Seq<KeyView>,
    pub start_position: u32,
}

impl View for ActivationSequence {
    type V = ActivationsView;

    open spec fn view(&self) -> ActivationsView {
        ActivationsView {
            rows: views(self.rows@),
            errors: views(self.errors@),
            kv: views(self.kv@),
            start_position: self.start_position,
        }
    }
}

/// No rows, no errors, an empty cache, at position zero.
pub open spec fn no_activations() -> ActivationsView {
    ActivationsView {
        rows: Seq::empty(),
        errors: Seq::empty(),
        kv: Seq::empty(),
        start_position: 0,
    }
}

impl ActivationSequence {
    /// An activation run with nothing in it.
    pub fn empty() -> (r: ActivationSequence)
        ensures
            r@ == no_activations(),
    {
        broadcast use views_of_empty;

        ActivationSequence {
            rows: Vec::new(),
            errors: Vec::new(),
            kv: Vec::new(),
            start_position: 0,
        }
    }
}

/// One token's per-layer embedding.
pub struct PleRow {
    pub values: BytesPage,
}

impl View for PleRow {
    type V = PageView;

    open spec fn view(&self) -> PageView {
        self.values@
    }
}

/// One layer's per-layer embeddings, one row per token of the stage.
pub struct PleLayerInputs {
    pub layer_idx: u32,
    pub rows: Vec<PleRow>,
    pub errors: Vec<String>,
}

/// A layer's per-layer embeddings as a mathematical value.
#[verifier::ext_equal]
pub struct PleInputsView {
    pub layer_idx: u32,
    pub rows: Seq<PageView>,
    pub errors: Seq<Seq<char>>,
}

impl View for PleLayerInputs {
    type V = PleInputsView;

    open spec fn view(&self) -> PleInputsView {
        PleInputsView {
            layer_idx: self.layer_idx,
            rows: views(self.rows@),
            errors: views(self.errors@),
        }
    }
}

/// Loop-carried summary of failed rows: how many, and the first message.
pub struct ErrorSummary {
    pub count: u32,
    pub first: String,
}

/// A summary as a mathematical value.
#[verifier::ext_equal]
pub struct SummaryView {
    pub count: int,
    pub first: Seq<char>,
}

impl View for ErrorSummary {
    type V = SummaryView;

    open spec fn view(&self) -> SummaryView {
        SummaryView { count: self.count as int, first: self.first@ }
    }
}

/// What a list of messages is summarised to.
pub open spec fn summary_of(errors: Seq<Seq<char>>) -> SummaryView {
    SummaryView {
        count: errors.len() as int,
        first: if errors.len() == 0 {
            Seq::empty()
        } else {
            errors[0]
        },
    }
}

/// Folds one recorded failure into the summary.
pub fn summarise_errors(message: String, state: ErrorSummary) -> (r: ErrorSummary)
    requires
        state.count < u32::MAX,
    ensures
        r@.count == state@.count + 1,
        r@.first == (if state.count == 0 {
            message@
        } else {
            state@.first
        }),
{
    if state.count == 0 {
        ErrorSummary { count: 1, first: message }
    } else {
        ErrorSummary { count: state.count + 1, first: state.first }
    }
}

/// Folds a whole list of failures into its summary.
pub fn summarise(errors: &Vec<String>) -> (r: ErrorSummary)
    requires
        errors@.len() <= u32::MAX,
    ensures
        r@ == summary_of(views(errors@)),
{
    let mut state: ErrorSummary = ErrorSummary { count: 0, first: String::new() };
    let mut i: usize = 0;
    while i < errors.len()
        invariant
            i <= errors.len(),
            errors@.len() <= u32::MAX,
            state@ == summary_of(views(errors@).take(i as int)),
        decreases errors.len() - i,
    {
        state = summarise_errors(errors[i].clone(), state);
        i += 1;
        assert(state@ =~= summary_of(views(errors@).take(i as int)));
    }
    assert(views(errors@).take(i as int) =~= views(errors@));
    state
}

} // verus!
