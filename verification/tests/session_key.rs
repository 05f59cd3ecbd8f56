use wcore::channels::message::{ChatType, InboundPolicy, IncomingMessage};
use wcore::channels::session_key::build_session_key;

fn base() -> IncomingMessage {
    let mut m = IncomingMessage::new("id1", "conv1", "Alice", "hi", 0);
    m.sender_id = "u1".into();
    m
}

#[test]
fn dm_key_without_thread() {
    let mut m = base();
    m.chat_type = ChatType::Direct;
    let key = build_session_key("slack", &m, &InboundPolicy::default());
    assert_eq!(key, "agent:main:slack:dm:conv1");
}

#[test]
fn dm_key_with_thread() {
    let mut m = base();
    m.chat_type = ChatType::Direct;
    m.thread_id = Some("t9".into());
    let key = build_session_key("slack", &m, &InboundPolicy::default());
    assert_eq!(key, "agent:main:slack:dm:conv1:t9");
}

#[test]
fn group_isolated_per_user() {
    let p = InboundPolicy { group_sessions_per_user: true, ..Default::default() };
    let mut m = base();
    m.chat_type = ChatType::Group;
    let key = build_session_key("slack", &m, &p);
    assert_eq!(key, "agent:main:slack:conv1:u1");
}

#[test]
fn group_shared_when_per_user_off() {
    let p = InboundPolicy { group_sessions_per_user: false, ..Default::default() };
    let mut m = base();
    m.chat_type = ChatType::Group;
    let key = build_session_key("slack", &m, &p);
    assert_eq!(key, "agent:main:slack:conv1");
}

#[test]
fn group_thread_split_when_enabled() {
    let p = InboundPolicy {
        group_sessions_per_user: true,
        thread_sessions_per_user: true,
        ..Default::default()
    };
    let mut m = base();
    m.chat_type = ChatType::Group;
    m.thread_id = Some("t9".into());
    let key = build_session_key("slack", &m, &p);
    assert_eq!(key, "agent:main:slack:conv1:u1:t9");
}

#[test]
fn group_thread_shared_when_disabled() {
    let p = InboundPolicy {
        group_sessions_per_user: true,
        thread_sessions_per_user: false,
        ..Default::default()
    };
    let mut m = base();
    m.chat_type = ChatType::Group;
    m.thread_id = Some("t9".into());
    let key = build_session_key("slack", &m, &p);
    assert_eq!(key, "agent:main:slack:conv1:u1");
}

#[test]
fn group_thread_split_ignored_without_thread_id() {
    let p = InboundPolicy {
        group_sessions_per_user: false,
        thread_sessions_per_user: true,
        ..Default::default()
    };
    let mut m = base();
    m.chat_type = ChatType::Group;
    m.thread_id = None;
    let key = build_session_key("slack", &m, &p);
    assert_eq!(key, "agent:main:slack:conv1");
}

#[test]
fn channel_uses_group_composition() {
    let p = InboundPolicy { group_sessions_per_user: true, ..Default::default() };
    let mut m = base();
    m.chat_type = ChatType::Channel;
    let key = build_session_key("disc", &m, &p);
    assert_eq!(key, "agent:main:disc:conv1:u1");
}
