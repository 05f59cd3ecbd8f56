//! `MockChannel`: an in-memory channel for tests and a reference for how
//! the lifecycle hooks compose.

use vstd::prelude::*;
use super::error::ChannelError;
use super::message::{ChannelEvent, ConnectionState, IncomingMessage, MessageReceipt};
use super::outgoing::OutgoingMessage;
use crate::text::{append_str, decimal, u64_decimal};

verus! {

/// Mock channel. `start()` queues a `Connected` state change, `stop()` a
/// `Disconnected` one; `inject` queues an inbound event for the next
/// `poll_events`; `sent` records every outbound message.
pub struct MockChannel {
    name: String,
    started: bool,
    inbound: Vec<ChannelEvent>,
    pub sent: Vec<OutgoingMessage>,
    next_id: u64,
}

impl MockChannel {
    pub closed spec fn spec_name(&self) -> Seq<char> {
        self.name@
    }

    pub closed spec fn spec_started(&self) -> bool {
        self.started
    }

    pub closed spec fn spec_inbound(&self) -> Seq<ChannelEvent> {
        self.inbound@
    }

    pub closed spec fn spec_sent(&self) -> Seq<OutgoingMessage> {
        self.sent@
    }

    pub closed spec fn spec_next_id(&self) -> nat {
        self.next_id as nat
    }

    /// A stopped mock channel named `name` on platform `mock`, with
    /// nothing queued or sent.
    pub fn new(name: &str) -> (c: Self)
        ensures
            c.spec_name() == name@,
            !c.spec_started(),
            c.spec_inbound().len() == 0,
            c.spec_sent().len() == 0,
            c.spec_next_id() == 0,
    {
        MockChannel {
            name: name.to_owned(),
            started: false,
            inbound: Vec::new(),
            sent: Vec::new(),
            next_id: 0,
        }
    }

    /// The channel's name.
    pub fn name(&self) -> (r: &str)
        ensures
            r@ == self.spec_name(),
    {
        self.name.as_str()
    }

    /// The platform tag, `mock`.
    pub fn platform(&self) -> (r: &'static str)
        ensures
            r@ == "mock"@,
    {
        "mock"
    }

    /// Queue an inbound event for the next `poll_events`.
    pub fn inject(&mut self, ev: ChannelEvent)
        ensures
            final(self).spec_inbound() == old(self).spec_inbound().push(ev),
            final(self).spec_started() == old(self).spec_started(),
            final(self).spec_next_id() == old(self).spec_next_id(),
            final(self).spec_sent() == old(self).spec_sent(),
            final(self).spec_name() == old(self).spec_name(),
    {
        self.inbound.push(ev);
    }

    /// Queue an inbound direct message `text` from `author` in
    /// `conversation_id`, with id `mock-in-<n>` for the next counter `n`.
    pub fn inject_text(&mut self, conversation_id: &str, author: &str, text: &str)
        requires
            old(self).spec_next_id() < u64::MAX,
        ensures
            final(self).spec_inbound().len() == old(self).spec_inbound().len() + 1,
            final(self).spec_inbound().take(old(self).spec_inbound().len() as int) == old(self).spec_inbound(),
            ({
                let ev = final(self).spec_inbound().last();
                &&& ev matches ChannelEvent::MessageReceived { msg }
                &&& msg.id@ == "mock-in-"@ + decimal(old(self).spec_next_id())
                &&& msg.conversation_id@ == conversation_id@
                &&& msg.author@ == author@
                &&& msg.text@ == text@
                &&& msg.ts_secs == 0
            }),
            final(self).spec_next_id() == old(self).spec_next_id() + 1,
            final(self).spec_started() == old(self).spec_started(),
            final(self).spec_sent() == old(self).spec_sent(),
            final(self).spec_name() == old(self).spec_name(),
    {
        let mut id = String::new();
        append_str(&mut id, "mock-in-");
        let digits = u64_decimal(self.next_id);
        append_str(&mut id, digits.as_str());
        proof {
            assert(Seq::<char>::empty() + "mock-in-"@ == "mock-in-"@);
        }
        let msg = IncomingMessage::new(id.as_str(), conversation_id, author, text, 0);
        self.inject(ChannelEvent::MessageReceived { msg });
        self.next_id = self.next_id + 1;
    }

    /// Mark the channel started; the first start queues a `Connected`
    /// state change.
    pub fn start(&mut self) -> (r: Result<(), ChannelError>)
        ensures
            r is Ok,
            final(self).spec_started(),
            final(self).spec_inbound() == if old(self).spec_started() {
                old(self).spec_inbound()
            } else {
                old(self).spec_inbound().push(ChannelEvent::ConnectionStateChanged { state: ConnectionState::Connected })
            },
            final(self).spec_sent() == old(self).spec_sent(),
            final(self).spec_next_id() == old(self).spec_next_id(),
    {
        if !self.started {
            self.started = true;
            self.inbound.push(ChannelEvent::ConnectionStateChanged { state: ConnectionState::Connected });
        }
        Ok(())
    }

    /// Mark the channel stopped; stopping a started channel queues a
    /// `Disconnected` state change.
    pub fn stop(&mut self) -> (r: Result<(), ChannelError>)
        ensures
            r is Ok,
            !final(self).spec_started(),
            final(self).spec_inbound() == if old(self).spec_started() {
                old(self).spec_inbound().push(ChannelEvent::ConnectionStateChanged { state: ConnectionState::Disconnected })
            } else {
                old(self).spec_inbound()
            },
            final(self).spec_sent() == old(self).spec_sent(),
            final(self).spec_next_id() == old(self).spec_next_id(),
    {
        if self.started {
            self.started = false;
            self.inbound.push(ChannelEvent::ConnectionStateChanged { state: ConnectionState::Disconnected });
        }
        Ok(())
    }

    /// Drain every queued inbound event, oldest first. Fails with
    /// `NotStarted` when the channel is stopped and nothing is queued.
    pub fn poll_events(&mut self) -> (r: Result<Vec<ChannelEvent>, ChannelError>)
        ensures
            !old(self).spec_started() && old(self).spec_inbound().len() == 0 ==> (r matches Err(e) && e is NotStarted)
                && final(self).spec_inbound() == old(self).spec_inbound(),
            old(self).spec_started() || old(self).spec_inbound().len() > 0 ==> (r matches Ok(v) && v@ == old(self).spec_inbound())
                && final(self).spec_inbound().len() == 0,
            final(self).spec_started() == old(self).spec_started(),
            final(self).spec_sent() == old(self).spec_sent(),
            final(self).spec_next_id() == old(self).spec_next_id(),
    {
        if !self.started && self.inbound.len() == 0 {
            return Err(ChannelError::NotStarted);
        }
        let mut drained: Vec<ChannelEvent> = Vec::new();
        std::mem::swap(&mut drained, &mut self.inbound);
        Ok(drained)
    }

    /// Record an outbound message and return a receipt `mock-out-<n>`.
    /// Fails with `NotStarted` on a stopped channel.
    pub fn send_message(&mut self, msg: OutgoingMessage) -> (r: Result<MessageReceipt, ChannelError>)
        requires
            old(self).spec_next_id() < u64::MAX,
        ensures
            !old(self).spec_started() ==> (r matches Err(e) && e is NotStarted) && final(self).spec_sent() == old(self).spec_sent()
                && final(self).spec_next_id() == old(self).spec_next_id(),
            old(self).spec_started() ==> (r matches Ok(receipt)
                && receipt.id@ == "mock-out-"@ + decimal(old(self).spec_next_id())
                && receipt.conversation_id@ == msg.conversation_id@
                && receipt.ts_secs == 0)
                && final(self).spec_sent() == old(self).spec_sent().push(msg)
                && final(self).spec_next_id() == old(self).spec_next_id() + 1,
            final(self).spec_started() == old(self).spec_started(),
            final(self).spec_inbound() == old(self).spec_inbound(),
    {
        if !self.started {
            return Err(ChannelError::NotStarted);
        }
        let mut id = String::new();
        append_str(&mut id, "mock-out-");
        let digits = u64_decimal(self.next_id);
        append_str(&mut id, digits.as_str());
        proof {
            assert(Seq::<char>::empty() + "mock-out-"@ == "mock-out-"@);
        }
        self.next_id = self.next_id + 1;
        let receipt = MessageReceipt {
            id,
            conversation_id: msg.conversation_id.clone(),
            ts_secs: 0,
        };
        self.sent.push(msg);
        Ok(receipt)
    }

    /// A description of the channel's configuration schema.
    pub fn config_schema(&self) -> (r: &'static str)
        ensures
            r@ == "{\"name\": \"string\", \"platform\": \"mock\"}"@,
    {
        "{\"name\": \"string\", \"platform\": \"mock\"}"
    }
}

} // verus!
