//! Parsing and formatting of container log lines.

pub mod color;
pub mod color_manager;
pub mod format_context;
pub mod formatter;
pub mod log_entry;
pub mod parser;
pub mod text;
