//! Helpers that the manager and the tools share.
pub mod llm_arg_normalizer;
pub mod logger;
pub mod namespace;
pub mod schema_validator;
pub mod truncate_args;
