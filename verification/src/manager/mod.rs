//! Registry, hooks, validation and the tool manager.
pub mod config_validator;
pub mod hook_manager;
pub mod tool_registry;
pub mod tool_manager;
pub mod factory;
pub mod config_ops;
