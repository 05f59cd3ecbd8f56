//! Error surfaces of channel adapters and channel loading.

use vstd::prelude::*;

verus! {

/// Unified error surface for channel adapters.
#[derive(Debug)]
#[non_exhaustive]
pub enum ChannelError {
    /// `poll_events` / `send_message` before `start()` or after `stop()`.
    NotStarted,
    /// Platform-side authentication failed.
    Auth(String),
    /// Network / transport failure (retryable, unlike `Auth`).
    Transport(String),
    /// Config file missing or malformed.
    Config(String),
    /// The platform rejected the request.
    Rejected(String),
    /// Anything else.
    Other(String),
}

/// Errors while loading and constructing a channel from disk.
#[derive(Debug)]
pub enum ChannelLoadError {
    /// The platform string matched no registered factory.
    UnknownPlatform(String),
    /// Parse or deserialization failure of the channel config.
    Config(String),
    /// The channel constructor failed.
    Construct(String),
}

} // verus!
