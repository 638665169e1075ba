//! Command-line recipe catalog: template parsing, placeholder overrides and rendering.

pub mod text;
pub mod segment;
pub mod command;
pub mod browser;
pub mod event;
pub mod catalog;
