//! Stage `prefill_range`: one transformer layer over a run of tokens.
//!
//! Weight matrices are paged byte regions and each matrix-vector product is a
//! sweep over pages. A layer is two passes: the first projects every token to
//! its query, key and value rows, the second attends and runs the feed-forward
//! block. The same stage serves the prompt and every decode step: positions are
//! absolute, and the layer's cache is handed in and handed on.

pub mod attend;
pub mod attention_laws;
pub mod input;
pub mod laws;
pub mod layer;
pub mod layer_laws;
pub mod matvec;
pub mod project;
pub mod run_laws;
pub mod stage;
pub mod streaming;
pub mod streaming_laws;
pub mod sweep_laws;
