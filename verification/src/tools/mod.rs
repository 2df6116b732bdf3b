//! The built-in tools.
pub mod ast;
pub mod browser;
pub mod define;
pub mod edit;
pub mod eval;
pub mod fetch;
pub mod file;
pub mod find;
pub mod git;
pub mod mcp;
pub mod outline;
pub mod packages;
pub mod playwright;
pub mod screenshot;
pub mod search;
pub mod shell;
pub mod todo;
