//! Resolvers: from references to handlers to what is to be run.
pub mod builtin_resolver;
pub mod composite_resolver;
pub mod http_resolver;
pub mod script_resolver;
