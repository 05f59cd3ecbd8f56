//! Uniform outbound message shape across platforms.

use vstd::prelude::*;

verus! {

/// One outbound message.
#[derive(Debug, Clone, PartialEq, Eq)]
pub struct OutgoingMessage {
    /// Channel / room / thread / DM identifier.
    pub conversation_id: String,
    /// Message text.
    pub text: String,
    /// Optional reply target on platforms that thread replies.
    pub reply_to: Option<String>,
    /// Attachments as URL / platform references.
    pub attachments: Vec<String>,
}

impl OutgoingMessage {
    /// A text-only outbound message: no reply target, no attachments.
    pub fn text(conversation_id: &str, text: &str) -> (m: Self)
        ensures
            m.conversation_id@ == conversation_id@,
            m.text@ == text@,
            m.reply_to is None,
            m.attachments@.len() == 0,
    {
        OutgoingMessage {
            conversation_id: conversation_id.to_owned(),
            text: text.to_owned(),
            reply_to: None,
            attachments: Vec::new(),
        }
    }
}

} // verus!
