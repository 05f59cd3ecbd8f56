use wcore::channels::admission::{classify, TurnAdmission};
use wcore::channels::message::{ChatType, InboundPolicy, IncomingMessage};

fn msg() -> IncomingMessage {
    IncomingMessage::new("id1", "conv1", "Alice", "hi", 0)
}

#[test]
fn self_message_dropped_without_history() {
    let mut m = msg();
    m.is_self = true;
    assert_eq!(
        classify(&m, &InboundPolicy::default()),
        TurnAdmission::Drop { record_history: false }
    );
}

#[test]
fn bot_message_dropped_without_history() {
    let mut m = msg();
    m.is_bot = true;
    assert_eq!(
        classify(&m, &InboundPolicy::default()),
        TurnAdmission::Drop { record_history: false }
    );
}

#[test]
fn unmentioned_group_is_observe_only() {
    let p = InboundPolicy { require_mention: true, ..Default::default() };
    let mut m = msg();
    m.chat_type = ChatType::Group;
    m.was_mentioned = false;
    assert_eq!(classify(&m, &p), TurnAdmission::ObserveOnly);
}

#[test]
fn mentioned_group_dispatches() {
    let p = InboundPolicy { require_mention: true, ..Default::default() };
    let mut m = msg();
    m.chat_type = ChatType::Group;
    m.was_mentioned = true;
    assert_eq!(classify(&m, &p), TurnAdmission::Dispatch);
}

#[test]
fn group_without_require_mention_dispatches() {
    let p = InboundPolicy { require_mention: false, ..Default::default() };
    let mut m = msg();
    m.chat_type = ChatType::Group;
    m.was_mentioned = false;
    assert_eq!(classify(&m, &p), TurnAdmission::Dispatch);
}

#[test]
fn channel_unmentioned_is_observe_only() {
    let p = InboundPolicy { require_mention: true, ..Default::default() };
    let mut m = msg();
    m.chat_type = ChatType::Channel;
    m.was_mentioned = false;
    assert_eq!(classify(&m, &p), TurnAdmission::ObserveOnly);
}

#[test]
fn dm_dispatches_regardless_of_mention() {
    let p = InboundPolicy { require_mention: true, ..Default::default() };
    let mut m = msg();
    m.chat_type = ChatType::Direct;
    m.was_mentioned = false;
    assert_eq!(classify(&m, &p), TurnAdmission::Dispatch);
}

#[test]
fn self_flag_beats_mention_gating() {
    let p = InboundPolicy { require_mention: true, ..Default::default() };
    let mut m = msg();
    m.chat_type = ChatType::Group;
    m.is_self = true;
    assert_eq!(classify(&m, &p), TurnAdmission::Drop { record_history: false });
}
