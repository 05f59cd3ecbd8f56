//! Permission cards for pending tool calls.

pub mod components;
pub mod shell;
