use mpc_node::message::{Message, MessageEnvelope};
use mpc_node::network::{NetworkEvent, PeerMap};

#[test]
fn test_network_event_debug() {
    let event = NetworkEvent::Error { description: "test error".to_string() };
    let debug_str = format!("{:?}", event);
    assert!(debug_str.contains("test error"));
}

#[test]
fn test_peer_map_creation() {
    let map = PeerMap::new();
    assert_eq!(map.peer_count(), 0);
}

#[test]
fn test_peer_map_is_connected_false() {
    let map = PeerMap::new();
    assert!(!map.is_connected(1));
    assert!(!map.is_connected(2));
}

#[test]
fn network_empty_peer_map_has_no_writers() {
    let mut map = PeerMap::new();
    assert!(map.peer_ids().is_empty());
    assert!(map.writer_mut(3).is_none());
    map.remove_peer(3);
    assert_eq!(map.peer_count(), 0);
}

#[test]
fn network_event_carries_envelope() {
    let env = MessageEnvelope::new(1, 2, Message::Ping { from_party: 1, timestamp: 5 });
    let event = NetworkEvent::MessageReceived { envelope: env };
    match event {
        NetworkEvent::MessageReceived { envelope } => assert_eq!(envelope.to, 2),
        _ => panic!("unexpected event"),
    }
}
