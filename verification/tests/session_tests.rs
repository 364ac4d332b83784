use mpc_node::message::{Message, MessageEnvelope};
use mpc_node::session::{longer_than, Session, SessionManager, SessionState};
use std::time::Duration;

fn make_manager() -> SessionManager {
    SessionManager::new(1, 3)
}

#[test]
fn test_session_creation() {
    let session = Session::new(2, "127.0.0.1:8002".to_string());
    assert_eq!(session.peer_party_id, 2);
    assert_eq!(session.state, SessionState::Connecting);
    assert!(!session.is_active());
}

#[test]
fn test_session_activate() {
    let mut session = Session::new(2, "127.0.0.1:8002".to_string());
    session.activate();
    assert!(session.is_active());
    assert_eq!(session.state, SessionState::Active);
}

#[test]
fn test_session_disconnect() {
    let mut session = Session::new(2, "127.0.0.1:8002".to_string());
    session.activate();
    session.disconnect();
    assert!(session.is_disconnected());
    assert!(!session.is_active());
}

#[test]
fn test_session_message_counts() {
    let mut session = Session::new(2, "127.0.0.1:8002".to_string());
    session.record_sent();
    session.record_sent();
    session.record_received();
    assert_eq!(session.messages_sent, 2);
    assert_eq!(session.messages_received, 1);
}

#[test]
fn test_session_queue_and_take_pending() {
    let mut session = Session::new(2, "127.0.0.1:8002".to_string());
    let msg = Message::Ping { from_party: 1, timestamp: 42 };
    let envelope = MessageEnvelope::new(1, 2, msg);
    session.queue_message(envelope);
    assert_eq!(session.pending_messages.len(), 1);
    let pending = session.take_pending();
    assert_eq!(pending.len(), 1);
    assert_eq!(session.pending_messages.len(), 0);
}

#[test]
fn test_session_timeout() {
    let session = Session::new(2, "127.0.0.1:8002".to_string());
    assert!(!session.is_timed_out(Duration::from_secs(30)));
    assert!(session.is_timed_out(Duration::from_secs(0)));
}

#[test]
fn test_manager_creation() {
    let mgr = make_manager();
    assert_eq!(mgr.my_party_id, 1);
    assert_eq!(mgr.expected_parties, 3);
    assert_eq!(mgr.active_count(), 0);
}

#[test]
fn test_manager_add_session() {
    let mut mgr = make_manager();
    mgr.add_session(2, "127.0.0.1:8002".to_string());
    assert!(mgr.get_session(2).is_some());
}

#[test]
fn test_manager_activate_session() {
    let mut mgr = make_manager();
    mgr.add_session(2, "127.0.0.1:8002".to_string());
    mgr.activate_session(2);
    assert_eq!(mgr.active_count(), 1);
}

#[test]
fn test_manager_all_connected() {
    let mut mgr = make_manager();
    mgr.add_session(2, "127.0.0.1:8002".to_string());
    mgr.activate_session(2);
    assert!(!mgr.all_connected());
    mgr.add_session(3, "127.0.0.1:8003".to_string());
    mgr.activate_session(3);
    assert!(mgr.all_connected());
}

#[test]
fn test_manager_handles_hello() {
    let mut mgr = make_manager();
    let hello = Message::Hello { from_party: 2, party_count: 3, version: "0.1.0".to_string() };
    let envelope = MessageEnvelope::new(2, 1, hello);
    let result = mgr.handle_handshake(&envelope);
    assert!(result);
    assert!(mgr.get_session(2).is_some());
}

#[test]
fn test_manager_handles_hello_ack() {
    let mut mgr = make_manager();
    mgr.add_session(2, "127.0.0.1:8002".to_string());
    let ack = Message::HelloAck { from_party: 2, accepted: true };
    let envelope = MessageEnvelope::new(2, 1, ack);
    let result = mgr.handle_handshake(&envelope);
    assert!(result);
    assert!(mgr.get_session(2).unwrap().is_active());
}

#[test]
fn test_manager_rejected_hello_ack() {
    let mut mgr = make_manager();
    mgr.add_session(2, "127.0.0.1:8002".to_string());
    let ack = Message::HelloAck { from_party: 2, accepted: false };
    let envelope = MessageEnvelope::new(2, 1, ack);
    let result = mgr.handle_handshake(&envelope);
    assert!(!result);
    assert!(mgr.get_session(2).unwrap().is_disconnected());
}

#[test]
fn test_manager_cleanup_disconnected() {
    let mut mgr = make_manager();
    mgr.add_session(2, "127.0.0.1:8002".to_string());
    mgr.add_session(3, "127.0.0.1:8003".to_string());
    mgr.activate_session(2);
    mgr.disconnect_session(3);
    mgr.cleanup_disconnected();
    assert!(mgr.get_session(2).is_some());
    assert!(mgr.get_session(3).is_none());
}

#[test]
fn test_manager_total_counts() {
    let mut mgr = make_manager();
    mgr.add_session(2, "127.0.0.1:8002".to_string());
    mgr.add_session(3, "127.0.0.1:8003".to_string());
    if let Some(s) = mgr.get_session_mut(2) {
        s.record_sent();
        s.record_sent();
    }
    if let Some(s) = mgr.get_session_mut(3) {
        s.record_received();
    }
    assert_eq!(mgr.total_sent(), 2);
    assert_eq!(mgr.total_received(), 1);
}

#[test]
fn session_hello_from_unknown_party_opens_handshaking_session() {
    let mut mgr = make_manager();
    let hello = Message::Hello { from_party: 7, party_count: 3, version: "0.1.0".to_string() };
    assert!(mgr.handle_handshake(&MessageEnvelope::new(7, 1, hello)));
    let s = mgr.get_session(7).unwrap();
    assert_eq!(s.state, SessionState::Handshaking);
    assert_eq!(s.peer_addr, "party-7");
    assert_eq!(s.messages_received, 1);
    assert_eq!(s.messages_sent, 0);
}

#[test]
fn session_other_messages_are_not_handshakes() {
    let mut mgr = make_manager();
    let ping = Message::Ping { from_party: 2, timestamp: 1 };
    assert!(!mgr.handle_handshake(&MessageEnvelope::new(2, 1, ping)));
    assert!(mgr.get_session(2).is_none());
    assert!(!mgr.activate_session(9));
}

#[test]
fn session_active_party_ids() {
    let mut mgr = make_manager();
    mgr.add_session(2, "a".to_string());
    mgr.add_session(3, "b".to_string());
    mgr.add_session(4, "c".to_string());
    mgr.activate_session(2);
    mgr.activate_session(4);
    let mut ids = mgr.active_party_ids();
    ids.sort();
    assert_eq!(ids, vec![2, 4]);
}

#[test]
fn session_take_pending_keeps_order() {
    let mut session = Session::new(2, "x".to_string());
    session.queue_message(MessageEnvelope::new(1, 2, Message::Ping { from_party: 1, timestamp: 1 }));
    session.queue_message(MessageEnvelope::new(1, 2, Message::Ping { from_party: 1, timestamp: 2 }));
    let pending = session.take_pending();
    match (&pending[0].payload, &pending[1].payload) {
        (Message::Ping { timestamp: a, .. }, Message::Ping { timestamp: b, .. }) => {
            assert_eq!((*a, *b), (1, 2));
        }
        _ => panic!("unexpected payloads"),
    }
    assert!(session.take_pending().is_empty());
}

#[test]
fn session_longer_than() {
    assert!(longer_than(&Duration::from_millis(1500), &Duration::from_secs(1)));
    assert!(!longer_than(&Duration::from_secs(1), &Duration::from_millis(1000)));
}
