use wcore::channels::error::ChannelError;
use wcore::channels::message::{ChannelEvent, ConnectionState};
use wcore::channels::mock::MockChannel;
use wcore::channels::outgoing::OutgoingMessage;

#[test]
fn lifecycle_start_then_stop_emits_state_changes() {
    let mut ch = MockChannel::new("acme");
    ch.start().unwrap();
    let evs = ch.poll_events().unwrap();
    assert!(matches!(
        evs[0],
        ChannelEvent::ConnectionStateChanged { state: ConnectionState::Connected }
    ));
    ch.stop().unwrap();
    let evs = ch.poll_events().unwrap();
    assert!(matches!(
        evs[0],
        ChannelEvent::ConnectionStateChanged { state: ConnectionState::Disconnected }
    ));
}

#[test]
fn send_after_stop_errors() {
    let mut ch = MockChannel::new("acme");
    ch.start().unwrap();
    let _ = ch.poll_events().unwrap();
    ch.stop().unwrap();
    let _ = ch.poll_events().unwrap();
    let err = ch
        .send_message(OutgoingMessage::text("c1", "hello"))
        .expect_err("expected NotStarted");
    assert!(matches!(err, ChannelError::NotStarted));
}

#[test]
fn inject_text_round_trips() {
    let mut ch = MockChannel::new("acme");
    ch.start().unwrap();
    let _ = ch.poll_events().unwrap();
    ch.inject_text("c1", "alice", "hi there");
    let evs = ch.poll_events().unwrap();
    match &evs[0] {
        ChannelEvent::MessageReceived { msg } => {
            assert_eq!(msg.text, "hi there");
            assert_eq!(msg.author, "alice");
            assert_eq!(msg.id, "mock-in-0");
        }
        other => panic!("expected MessageReceived, got {other:?}"),
    }
}

#[test]
fn send_records_outbound() {
    let mut ch = MockChannel::new("acme");
    ch.start().unwrap();
    let _ = ch.poll_events().unwrap();
    let receipt = ch.send_message(OutgoingMessage::text("c1", "hi")).unwrap();
    assert_eq!(ch.sent.len(), 1);
    assert_eq!(ch.sent[0].text, "hi");
    assert_eq!(receipt.id, "mock-out-0");
    assert_eq!(receipt.conversation_id, "c1");
}

#[test]
fn poll_on_a_never_started_empty_channel_errors() {
    let mut ch = MockChannel::new("acme");
    assert!(matches!(ch.poll_events(), Err(ChannelError::NotStarted)));
    assert_eq!(ch.name(), "acme");
    assert_eq!(ch.platform(), "mock");
}

#[test]
fn injected_ids_count_up_across_sends() {
    let mut ch = MockChannel::new("acme");
    ch.start().unwrap();
    ch.inject_text("c", "a", "one");
    let _ = ch.send_message(OutgoingMessage::text("c", "x")).unwrap();
    ch.inject_text("c", "a", "two");
    let evs = ch.poll_events().unwrap();
    let ids: Vec<String> = evs
        .iter()
        .filter_map(|e| match e {
            ChannelEvent::MessageReceived { msg } => Some(msg.id.clone()),
            _ => None,
        })
        .collect();
    assert_eq!(ids, vec!["mock-in-0".to_string(), "mock-in-2".to_string()]);
}
