//! Code generation and validation for pipeline manifests, with the small
//! data-handling pieces of the pipeline plugins.
pub mod bytes;
pub mod error;
pub mod models;
pub mod ops;
pub mod text;
pub mod ware;
