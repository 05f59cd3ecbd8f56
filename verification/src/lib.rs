use vstd::prelude::*;

pub mod agents;
pub mod assoc;
pub mod at_ref;
pub mod at_ref_complete;
pub mod at_ref_send;
pub mod channels;
pub mod checkpoint;
pub mod diff;
pub mod formatters;
pub mod highlight;
pub mod highlight_cache;
pub mod json;
pub mod pattern;
pub mod permission;
pub mod plugin;
pub mod prompt_check;
pub mod render;
pub mod segment;
pub mod sources;
pub mod spinner;
pub mod statusline;
pub mod text;
pub mod toolcard;
pub mod tree;
pub mod turn;
