//! Operations on a manifest: its pipe graph, validation, description and
//! code generation.
pub mod analyze;
pub mod graph;
pub mod paths;
pub mod upstream;

pub mod validate;
pub mod describe;
pub mod generate;
