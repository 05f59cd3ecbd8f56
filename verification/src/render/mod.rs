//! Streaming renderers: the markdown split point and the reasoning-tag
//! filter.

pub mod reasoning_filter;
pub mod safe_split;
