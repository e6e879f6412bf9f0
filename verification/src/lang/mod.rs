//! The language's values as plain data, and the rules that apply to them.
pub mod component;
pub mod error;
pub mod interface;
pub mod interface_validation;
pub mod loader;
pub mod module;
pub mod placeholders;
pub mod spice;
pub mod symbol_cache;
