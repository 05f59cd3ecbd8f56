//! Inbound message shape, inbound policy, and the events a channel emits.

use vstd::prelude::*;

verus! {

/// The kind of conversation a message arrived in.
#[derive(Debug, Clone, Copy, PartialEq, Eq, Structural)]
pub enum ChatType {
    /// A one-to-one conversation.
    Direct,
    /// A multi-member group chat.
    Group,
    /// A broadcast-style channel.
    Channel,
}

/// One inbound message, as the dispatch kernel sees it.
#[derive(Debug, Clone)]
pub struct IncomingMessage {
    /// Platform-assigned message id.
    pub id: String,
    /// Channel / room / DM identifier.
    pub conversation_id: String,
    /// Display name of the author.
    pub author: String,
    /// Stable sender identity (defaults to the author).
    pub sender_id: String,
    /// Message text.
    pub text: String,
    /// Platform timestamp in seconds.
    pub ts_secs: u64,
    /// The kind of conversation.
    pub chat_type: ChatType,
    /// Thread the message belongs to, when the platform threads replies.
    pub thread_id: Option<String>,
    /// Authored by this channel's own account.
    pub is_self: bool,
    /// Authored by a bot.
    pub is_bot: bool,
    /// The message addresses the agent (an @-mention or a reply).
    pub was_mentioned: bool,
}

impl IncomingMessage {
    /// A direct message from `author` with no thread, not self/bot
    /// authored and not a mention; `sender_id` starts as the author.
    pub fn new(id: &str, conversation_id: &str, author: &str, text: &str, ts_secs: u64) -> (m: Self)
        ensures
            m.id@ == id@,
            m.conversation_id@ == conversation_id@,
            m.author@ == author@,
            m.sender_id@ == author@,
            m.text@ == text@,
            m.ts_secs == ts_secs,
            m.chat_type == ChatType::Direct,
            m.thread_id is None,
            !m.is_self,
            !m.is_bot,
            !m.was_mentioned,
    {
        IncomingMessage {
            id: id.to_owned(),
            conversation_id: conversation_id.to_owned(),
            author: author.to_owned(),
            sender_id: author.to_owned(),
            text: text.to_owned(),
            ts_secs,
            chat_type: ChatType::Direct,
            thread_id: None,
            is_self: false,
            is_bot: false,
            was_mentioned: false,
        }
    }
}

/// Operator policy for inbound messages.
#[derive(Debug, Clone, Copy, PartialEq, Eq, Structural)]
pub struct InboundPolicy {
    /// In groups/channels, only an addressed message starts a turn.
    pub require_mention: bool,
    /// Groups get one session per sender.
    pub group_sessions_per_user: bool,
    /// Group threads get their own session.
    pub thread_sessions_per_user: bool,
}

impl Default for InboundPolicy {
    /// Groups are isolated per user, threads share their parent chat's
    /// session, and mention-gating is off.
    fn default() -> (p: Self)
        ensures
            !p.require_mention,
            p.group_sessions_per_user,
            !p.thread_sessions_per_user,
    {
        InboundPolicy {
            require_mention: false,
            group_sessions_per_user: true,
            thread_sessions_per_user: false,
        }
    }
}

/// A channel's connection state.
#[derive(Debug, Clone, Copy, PartialEq, Eq, Structural)]
pub enum ConnectionState {
    Connected,
    Disconnected,
}

/// An event a channel hands to the dispatcher.
#[derive(Debug, Clone)]
pub enum ChannelEvent {
    /// An inbound message arrived.
    MessageReceived { msg: IncomingMessage },
    /// The connection state changed.
    ConnectionStateChanged { state: ConnectionState },
}

/// The platform's acknowledgement of a sent message.
#[derive(Debug, Clone)]
pub struct MessageReceipt {
    /// Platform id of the sent message.
    pub id: String,
    /// Conversation the message went to.
    pub conversation_id: String,
    /// Send time in seconds.
    pub ts_secs: u64,
}

} // verus!
