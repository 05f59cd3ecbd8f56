//! Turn admission: whether an inbound message is turn-worthy,
//! observe-only, or dropped. Independent of access control.

use vstd::prelude::*;
use super::message::{ChatType, IncomingMessage, InboundPolicy};

verus! {

/// What the dispatch kernel does with an inbound message.
#[derive(Debug, Clone, PartialEq, Eq, Structural)]
pub enum TurnAdmission {
    /// A candidate turn (the access gate still decides).
    Dispatch,
    /// Record to history, start no turn.
    ObserveOnly,
    /// Already handled by an earlier stage.
    Handled,
    /// Drop the message; `record_history` says whether it is journaled.
    Drop { record_history: bool },
}

/// The admission a message gets under `policy`.
pub open spec fn admission(msg: IncomingMessage, policy: InboundPolicy) -> TurnAdmission {
    if msg.is_self || msg.is_bot {
        TurnAdmission::Drop { record_history: false }
    } else if msg.chat_type != ChatType::Direct && policy.require_mention && !msg.was_mentioned {
        TurnAdmission::ObserveOnly
    } else {
        TurnAdmission::Dispatch
    }
}

/// Classify a message: self/bot authored messages are dropped silently
/// (loop guard); an un-addressed group/channel message under
/// `require_mention` is observe-only; anything else is a dispatch
/// candidate. This does not enforce access control.
pub fn classify(msg: &IncomingMessage, policy: &InboundPolicy) -> (r: TurnAdmission)
    ensures
        r == admission(*msg, *policy),
{
    if msg.is_self || msg.is_bot {
        return TurnAdmission::Drop { record_history: false };
    }
    let is_group = match msg.chat_type {
        ChatType::Direct => false,
        _ => true,
    };
    if is_group && policy.require_mention && !msg.was_mentioned {
        return TurnAdmission::ObserveOnly;
    }
    TurnAdmission::Dispatch
}

} // verus!
