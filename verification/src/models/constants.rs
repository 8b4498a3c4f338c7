//! Names used in generated code and in validation messages.
use vstd::prelude::*;

verus! {

/// One level of indentation.
pub const INDENT_LITERAL: &'static str = "    ";

/// The application object's type name.
pub const APP_OBJECT_NAME: &'static str = "App";

/// The bootstrap function's name.
pub const BOOTSTRAP_FUNCTION_NAME: &'static str = "bootstrap";

/// The attribute on the bootstrap function.
pub const BOOTSTRAP_FUNCTION_META: &'static str = "bootstrap(App)";

/// The expression that makes the application object.
pub const DEFAULT_APP_OBJECT: &'static str = "App::default()";

/// The attribute on the generated `main`.
pub const PIPEBASE_MAIN: &'static str = "pipebase::main";

/// The name of the `main` attribute's argument that names the application module.
pub const BOOTSTRAP_MODULE_META_PATH: &'static str = "bootstrap";

/// The tracing attribute on the generated `main`.
pub const TRACING_INSTRUMENT: &'static str = "tracing::instrument";

/// Manifest field names used in validation messages.
pub const PIPE_ENTITY_ID_FIELD: &'static str = "name";

pub const PIPE_ENTITY_DEPENDENCY_FIELD: &'static str = "upstreams";

pub const PIPE_OUTPUT_FIELD: &'static str = "output";

pub const OBJECT_ENTITY_ID_FIELD: &'static str = "ty";

pub const DATA_FIELD_ENTITY_ID_FIELD: &'static str = "name";

pub const CONTEXT_STORE_ENTITY_ID_FIELD: &'static str = "name";

} // verus!
