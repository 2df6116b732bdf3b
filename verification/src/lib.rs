//! Tool management for agents: a registry of tools with namespaces, lifecycle hooks, handler
//! resolvers, validation of inputs and configurations, and the built-in tools.
//!
//! The library decides; its caller does the input and output. Handlers, hooks and guards are
//! known here by number only.
pub mod error;
pub mod handler_debug;
pub mod handler_refs;
pub mod ignores;
pub mod json;
pub mod json_text;
pub mod lists;
pub mod manager;
pub mod patterns;
pub mod resolvers;
pub mod schema_json;
pub mod serialized;
pub mod syntax;
pub mod text;
pub mod types;
pub mod utils;
pub mod web;
pub mod tools;
