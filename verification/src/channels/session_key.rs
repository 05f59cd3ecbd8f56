//! Session-key derivation: which agent session an inbound message routes to.

use vstd::prelude::*;
use super::message::{ChatType, IncomingMessage, InboundPolicy};
use crate::text::{append_str, push_char};

verus! {

/// The session key of `msg` on channel `channel` under `policy`.
pub open spec fn session_key(channel: Seq<char>, msg: IncomingMessage, policy: InboundPolicy) -> Seq<char> {
    match msg.chat_type {
        ChatType::Direct => {
            let base = "agent:main:"@ + channel + ":dm:"@ + msg.conversation_id@;
            match msg.thread_id {
                Some(t) => base.push(':') + t@,
                None => base,
            }
        },
        _ => {
            let base = "agent:main:"@ + channel + ":"@ + msg.conversation_id@;
            let with_user = if policy.group_sessions_per_user {
                base.push(':') + msg.sender_id@
            } else {
                base
            };
            match msg.thread_id {
                Some(t) => if policy.thread_sessions_per_user { with_user.push(':') + t@ } else { with_user },
                None => with_user,
            }
        },
    }
}

/// Derive the session key for `msg` within `channel_name`.
///
/// Direct messages: `agent:main:<channel>:dm:<conversation>`, plus
/// `:<thread>` when the message carries a thread id. Groups/channels:
/// `agent:main:<channel>:<conversation>`, plus `:<sender>` when
/// `group_sessions_per_user`, plus `:<thread>` when the message has a
/// thread id and `thread_sessions_per_user` is set.
pub fn build_session_key(channel_name: &str, msg: &IncomingMessage, policy: &InboundPolicy) -> (r: String)
    ensures
        r@ == session_key(channel_name@, *msg, *policy),
{
    let mut key = String::new();
    match msg.chat_type {
        ChatType::Direct => {
            append_str(&mut key, "agent:main:");
            append_str(&mut key, channel_name);
            append_str(&mut key, ":dm:");
            append_str(&mut key, msg.conversation_id.as_str());
            if let Some(thread) = &msg.thread_id {
                push_char(&mut key, ':');
                append_str(&mut key, thread.as_str());
            }
        },
        _ => {
            append_str(&mut key, "agent:main:");
            append_str(&mut key, channel_name);
            append_str(&mut key, ":");
            append_str(&mut key, msg.conversation_id.as_str());
            if policy.group_sessions_per_user {
                push_char(&mut key, ':');
                append_str(&mut key, msg.sender_id.as_str());
            }
            if policy.thread_sessions_per_user {
                if let Some(thread) = &msg.thread_id {
                    push_char(&mut key, ':');
                    append_str(&mut key, thread.as_str());
                }
            }
        },
    }
    proof {
        assert(Seq::<char>::empty() + "agent:main:"@ == "agent:main:"@);
    }
    key
}

/// Every key starts `agent:main:<channel>:`; a direct message's key
/// continues `dm:<conversation>`, a group or channel message's key
/// continues `<conversation>`.
pub proof fn law_key_prefix(channel: Seq<char>, msg: IncomingMessage, policy: InboundPolicy)
    ensures
        ({
            let k = session_key(channel, msg, policy);
            let head = "agent:main:"@ + channel + ":"@;
            let rest = if msg.chat_type == ChatType::Direct { "dm:"@ + msg.conversation_id@ } else { msg.conversation_id@ };
            k.len() >= head.len() + rest.len()
                && k.subrange(0, (head.len() + rest.len()) as int) == head + rest
        }),
{
    reveal_strlit(":dm:");
    reveal_strlit(":");
    reveal_strlit("dm:");
    let k = session_key(channel, msg, policy);
    let head = "agent:main:"@ + channel + ":"@;
    let rest = if msg.chat_type == ChatType::Direct { "dm:"@ + msg.conversation_id@ } else { msg.conversation_id@ };
    let base = head + rest;
    assert(":dm:"@ =~= ":"@ + "dm:"@);
    if msg.chat_type == ChatType::Direct {
        assert("agent:main:"@ + channel + ":dm:"@ + msg.conversation_id@ =~= base);
    } else {
        assert("agent:main:"@ + channel + ":"@ + msg.conversation_id@ =~= base);
    }
    let with_user = if msg.chat_type != ChatType::Direct && policy.group_sessions_per_user {
        base.push(':') + msg.sender_id@
    } else {
        base
    };
    assert(with_user.subrange(0, base.len() as int) =~= base);
    match msg.thread_id {
        Some(t) => {
            assert((with_user.push(':') + t@).subrange(0, base.len() as int) =~= base);
            assert((base.push(':') + t@).subrange(0, base.len() as int) =~= base);
        },
        None => {},
    }
}

/// A thread id splits a direct message's session: its key is the key of
/// the same message without the thread, then `:` and the thread id.
pub proof fn law_direct_thread_suffix(channel: Seq<char>, msg: IncomingMessage, policy: InboundPolicy, t: String)
    requires
        msg.chat_type == ChatType::Direct,
    ensures
        session_key(channel, IncomingMessage { thread_id: Some(t), ..msg }, policy)
            == session_key(channel, IncomingMessage { thread_id: None, ..msg }, policy).push(':') + t@,
{
}

/// In a group or channel, `thread_sessions_per_user` decides whether a
/// thread gets its own session: with it set, the key of a message in
/// thread `t` is the key it gets with the flag unset, then `:` and `t`,
/// whatever `group_sessions_per_user` is; with it unset, the thread id
/// changes nothing.
pub proof fn law_group_thread_suffix(channel: Seq<char>, msg: IncomingMessage, group_per_user: bool, require_mention: bool, t: String)
    requires
        msg.chat_type != ChatType::Direct,
    ensures
        ({
            let m = IncomingMessage { thread_id: Some(t), ..msg };
            let on = InboundPolicy { require_mention, group_sessions_per_user: group_per_user, thread_sessions_per_user: true };
            let off = InboundPolicy { require_mention, group_sessions_per_user: group_per_user, thread_sessions_per_user: false };
            &&& session_key(channel, m, on) == session_key(channel, m, off).push(':') + t@
            &&& session_key(channel, m, off) == session_key(channel, IncomingMessage { thread_id: None, ..msg }, off)
            &&& session_key(channel, IncomingMessage { thread_id: None, ..msg }, on)
                == session_key(channel, IncomingMessage { thread_id: None, ..msg }, off)
        }),
{
}

/// In a group or channel, `group_sessions_per_user` isolates senders: with
/// it set and no thread split, the key is the shared key, then `:` and the
/// sender id.
pub proof fn law_group_sender_suffix(channel: Seq<char>, msg: IncomingMessage, require_mention: bool, thread_per_user: bool)
    requires
        msg.chat_type != ChatType::Direct,
        !thread_per_user || msg.thread_id is None,
    ensures
        session_key(channel, msg, InboundPolicy { require_mention, group_sessions_per_user: true, thread_sessions_per_user: thread_per_user })
            == session_key(channel, msg, InboundPolicy { require_mention, group_sessions_per_user: false, thread_sessions_per_user: thread_per_user })
                .push(':') + msg.sender_id@,
{
}

} // verus!
