//! The stage's data types.

use crate::activations::KeyRow;
use crate::activations::KeyView;
use crate::lists::views;
use crate::packed::PackedView;
use crate::pages::{Bytes, BytesPage, PageView};
use vstd::prelude::*;

verus! {

/// Scalars and norm vectors of one layer.
pub struct LayerParams {
    pub layer_idx: u32,
    pub hidden_size: u32,
    pub ffn_size: u32,
    pub num_heads: u32,
    pub num_kv_heads: u32,
    pub head_dim: u32,
    /// `0` is full attention; otherwise a key is visible only while
    /// `query.position - key.position < sliding_window`.
    pub sliding_window: u32,
    /// Applied to attention scores.
    pub attn_scale: i32,
    /// Applied to the layer's output row; `0` means "not present".
    pub layer_scalar: i32,
    /// Q32.32 bits.
    pub norm_eps: i64,
    /// Base of the rotary frequency ladder, as Q32.32 bits.
    pub rope_base: i64,
    /// How many of a head's lanes rotate.
    pub rotary_dim: u32,
    /// Denominator dimension of the rotary frequency ladder.
    pub rope_freq_base_dim: u32,
    /// Layer this one borrows its cache from, or `-1` when it computes its own.
    pub kv_donor_layer: i32,
    /// The two donor layers carried uniformly by every stage. Unused slots are
    /// negative values other than `-1`.
    pub donor_a_layer: i32,
    pub donor_b_layer: i32,
    pub norm_input: BytesPage,
    pub norm_post_attn: BytesPage,
    pub norm_pre_ffw: BytesPage,
    pub norm_post_ffw: BytesPage,
    pub q_norm: BytesPage,
    pub k_norm: BytesPage,
    /// Width of this layer's per-layer-embedding vector.
    pub ple_width: u32,
    /// Norm of the per-layer-embedding block, of hidden width.
    pub ple_post_norm: BytesPage,
}

/// One transformer layer: its parameters and its weight matrices.
pub struct TransformerLayer {
    pub params: LayerParams,
    pub w_q: Bytes,
    pub w_k: Bytes,
    pub w_v: Bytes,
    pub w_o: Bytes,
    pub w_gate: Bytes,
    pub w_up: Bytes,
    pub w_down: Bytes,
    /// Per-layer-embedding gate, hidden width to `ple_width`.
    pub ple_input_gate: Bytes,
    /// Per-layer-embedding projection, `ple_width` back to hidden width.
    pub ple_layer_projection: Bytes,
}

/// A packed vector that may carry a failure from an earlier step.
pub struct PackedVec {
    pub values: BytesPage,
    pub error: String,
}

impl View for PackedVec {
    type V = PackedView;

    open spec fn view(&self) -> PackedView {
        PackedView { values: self.values@, error: self.error@ }
    }
}

/// Query side of one token, plus the residual it will be added back to.
pub struct QueryRow {
    /// Absolute position in the full sequence.
    pub position: u32,
    /// Index of this token within this stage.
    pub local: u32,
    pub token_id: u32,
    pub q: BytesPage,
    pub residual: BytesPage,
}

/// A query as a mathematical value.
#[verifier::ext_equal]
pub struct QueryView {
    pub position: u32,
    pub local: u32,
    pub token_id: u32,
    pub q: PageView,
    pub residual: PageView,
}

impl View for QueryRow {
    type V = QueryView;

    open spec fn view(&self) -> QueryView {
        QueryView {
            position: self.position,
            local: self.local,
            token_id: self.token_id,
            q: self.q@,
            residual: self.residual@,
        }
    }
}

/// The loop-carried position pair of the first pass: both fields advance in
/// lockstep and differ by the stage's start position.
#[derive(Clone, Copy, PartialEq, Eq, Structural)]
pub struct TokenCursor {
    pub position: u32,
    pub local: u32,
}

/// The first pass's result.
pub struct KvSequence {
    pub keys: Vec<KeyRow>,
    pub queries: Vec<QueryRow>,
    pub errors: Vec<String>,
}

/// The first pass's result as a mathematical value.
#[verifier::ext_equal]
pub struct KvView {
    pub keys: Seq<KeyView>,
    pub queries: Seq<QueryView>,
    pub errors: Seq<Seq<char>>,
}

impl View for KvSequence {
    type V = KvView;

    open spec fn view(&self) -> KvView {
        KvView {
            keys: views(self.keys@),
            queries: views(self.queries@),
            errors: views(self.errors@),
        }
    }
}

/// A normalised activation, ready for the query, key and value products.
pub struct QkvPrep {
    pub token_id: u32,
    pub residual: BytesPage,
    pub normed: BytesPage,
    pub error: String,
}

/// A normalised activation as a mathematical value.
#[verifier::ext_equal]
pub struct PrepView {
    pub token_id: u32,
    pub residual: PageView,
    pub normed: PageView,
    pub error: Seq<char>,
}

impl View for QkvPrep {
    type V = PrepView;

    open spec fn view(&self) -> PrepView {
        PrepView {
            token_id: self.token_id,
            residual: self.residual@,
            normed: self.normed@,
            error: self.error@,
        }
    }
}

/// Per-query attention scores, key-major: `scores[slot * num_heads + head]`,
/// where a key's slot is its distance from the start of the window.
pub struct ScoreAccum {
    pub scores: BytesPage,
    /// How many slots have been written.
    pub filled: u32,
    /// Number of positions this query sees.
    pub window_len: u32,
    pub error: String,
}

/// Attention scores as a mathematical value.
#[verifier::ext_equal]
pub struct ScoresView {
    pub scores: PageView,
    pub filled: u32,
    pub window_len: u32,
    pub error: Seq<char>,
}

impl View for ScoreAccum {
    type V = ScoresView;

    open spec fn view(&self) -> ScoresView {
        ScoresView {
            scores: self.scores@,
            filled: self.filled,
            window_len: self.window_len,
            error: self.error@,
        }
    }
}

/// Softmax weights, in the layout of the scores they came from.
pub struct WeightVec {
    pub weights: BytesPage,
    pub count: u32,
    pub error: String,
}

/// Softmax weights as a mathematical value.
#[verifier::ext_equal]
pub struct WeightsView {
    pub weights: PageView,
    pub count: u32,
    pub error: Seq<char>,
}

impl View for WeightVec {
    type V = WeightsView;

    open spec fn view(&self) -> WeightsView {
        WeightsView { weights: self.weights@, count: self.count, error: self.error@ }
    }
}

/// Weighted-sum accumulator: one `i64` per head and lane.
pub struct CtxAccum {
    pub acc: BytesPage,
    pub error: String,
}

impl View for CtxAccum {
    type V = PackedView;

    open spec fn view(&self) -> PackedView {
        PackedView { values: self.acc@, error: self.error@ }
    }
}

/// Streaming softmax state: one running maximum, sum and weighted accumulator
/// per head.
pub struct AttnState {
    pub started: bool,
    pub max: BytesPage,
    pub sum: BytesPage,
    pub acc: BytesPage,
    pub error: String,
}

/// Streaming softmax state as a mathematical value.
#[verifier::ext_equal]
pub struct AttnView {
    pub started: bool,
    pub max: PageView,
    pub sum: PageView,
    pub acc: PageView,
    pub error: Seq<char>,
}

impl View for AttnState {
    type V = AttnView;

    open spec fn view(&self) -> AttnView {
        AttnView {
            started: self.started,
            max: self.max@,
            sum: self.sum@,
            acc: self.acc@,
            error: self.error@,
        }
    }
}

} // verus!
