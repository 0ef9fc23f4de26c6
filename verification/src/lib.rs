//! Verified stages of a layer-by-layer Gemma inference chain.

pub mod activations;
pub mod arith_laws;
pub mod aux_laws;
pub mod decode;
pub mod decode_embed;
pub mod det_num;
pub mod digest;
pub mod embedding_laws;
pub mod failure_laws;
pub mod finalize_laws;
pub mod floor_num;
pub mod input_embedding;
pub mod kernels;
pub mod lists;
pub mod matvec;
pub mod message_laws;
pub mod model_import;
pub mod numeric_laws;
pub mod numerics;
pub mod output_finalize;
pub mod output_laws;
pub mod packed;
pub mod page_laws;
pub mod pages;
pub mod prefill_finalize;
pub mod prefill_prepare_aux;
pub mod prefill_range;
pub mod prompt_laws;
pub mod prompt_prepare;
pub mod stage_laws;
pub mod text;
pub mod token_laws;
