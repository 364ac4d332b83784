use mpc_node::message::{Message, MessageEnvelope, Operation};

#[test]
fn test_broadcast_envelope() {
    let msg = Message::Ping { from_party: 1, timestamp: 12345 };
    let envelope = MessageEnvelope::new(1, 255, msg);
    assert!(envelope.is_broadcast());
}

#[test]
fn test_envelope_has_unique_id() {
    let msg1 = Message::Ping { from_party: 1, timestamp: 1 };
    let msg2 = Message::Ping { from_party: 1, timestamp: 1 };
    let e1 = MessageEnvelope::new(1, 2, msg1);
    let e2 = MessageEnvelope::new(1, 2, msg2);
    assert_ne!(e1.id, e2.id);
}

#[test]
fn message_envelope_routing_fields() {
    let msg = Message::ShareMsg {
        job_id: "job-123".to_string(),
        from_party: 1,
        to_party: 2,
        share_x: 42,
        share_y: 999,
        mac_tag: 777,
    };
    let envelope = MessageEnvelope::new(1, 2, msg);
    assert_eq!(envelope.from, 1);
    assert_eq!(envelope.to, 2);
    assert!(!envelope.is_broadcast());
    assert_eq!(envelope.id.len(), 36);
    assert!(envelope.timestamp > 0);
}

#[test]
fn message_clone_keeps_contents() {
    let msg = Message::Abort {
        job_id: "job-789".to_string(),
        from_party: 2,
        reason: "MAC verification failed".to_string(),
    };
    let envelope = MessageEnvelope::new(2, 255, msg);
    let copy = envelope.clone();
    assert_eq!(copy.id, envelope.id);
    assert_eq!(copy.timestamp, envelope.timestamp);
    match copy.payload {
        Message::Abort { job_id, from_party, reason } => {
            assert_eq!(job_id, "job-789");
            assert_eq!(from_party, 2);
            assert_eq!(reason, "MAC verification failed");
        }
        _ => panic!("payload changed"),
    }
    let op = Operation::Custom { description: "median".to_string() };
    match op.clone() {
        Operation::Custom { description } => assert_eq!(description, "median"),
        _ => panic!("operation changed"),
    }
}
