//! Import of a model bundle into the externals and the manifest of a chain.

pub mod args;
pub mod artifact_laws;
pub mod buckets;
pub mod detwgt;
pub mod external_laws;
pub mod externals;
pub mod import_laws;
pub mod json;
pub mod manifest;
pub mod manifest_laws;
pub mod order;
pub mod prompt;
pub mod shape;
pub mod shape_laws;
pub mod text_laws;
pub mod text_lines;
pub mod tokenizer;
pub mod tokenizer_laws;
pub mod wiring_laws;
