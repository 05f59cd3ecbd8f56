//! Chat-channel plumbing: outbound chunking, inbound admission, session
//! keys, duplicate suppression and the auto-reply rate limiter.

pub mod admission;
pub mod chunk;
pub mod dedupe;
pub mod error;
pub mod message;
pub mod mock;
pub mod outgoing;
pub mod rate_limit;
pub mod session_key;
