use mpc_node::message::{Message, MessageEnvelope, Operation};
use mpc_node::node::{Job, JobState, MpcNode, NodeConfig};

fn make_node(party_id: u32) -> MpcNode {
    let config = NodeConfig::new(party_id, 3, &format!("127.0.0.1:800{}", party_id), vec![]);
    MpcNode::new(config)
}

#[test]
fn test_node_creation() {
    let node = make_node(1);
    assert_eq!(node.party_id(), 1);
    assert_eq!(node.party_count(), 3);
    assert!(!node.is_busy());
}

#[test]
fn test_node_start_job() {
    let mut node = make_node(1);
    let result = node.start_job("job-1".to_string(), Operation::Sum, 42);
    assert!(result.is_ok());
    assert!(node.is_busy());
}

#[test]
fn test_node_cannot_start_two_jobs() {
    let mut node = make_node(1);
    node.start_job("job-1".to_string(), Operation::Sum, 10).unwrap();
    let result = node.start_job("job-2".to_string(), Operation::Sum, 20);
    assert!(result.is_err());
}

#[test]
fn test_node_handles_hello() {
    let mut node = make_node(1);
    let hello = Message::Hello { from_party: 2, party_count: 3, version: "0.1.0".to_string() };
    let envelope = MessageEnvelope::new(2, 1, hello);
    let responses = node.handle_message(envelope);
    assert_eq!(responses.len(), 1);
    assert!(matches!(responses[0].payload, Message::HelloAck { .. }));
}

#[test]
fn test_node_handles_ping() {
    let mut node = make_node(1);
    let ping = Message::Ping { from_party: 2, timestamp: 9999 };
    let envelope = MessageEnvelope::new(2, 1, ping);
    let responses = node.handle_message(envelope);
    assert_eq!(responses.len(), 1);
    assert!(matches!(responses[0].payload, Message::Pong { .. }));
}

#[test]
fn test_node_handles_share_message() {
    let mut node = make_node(1);
    node.start_job("job-1".to_string(), Operation::Sum, 10).unwrap();
    let share = Message::ShareMsg {
        job_id: "job-1".to_string(),
        from_party: 2,
        to_party: 1,
        share_x: 2,
        share_y: 555,
        mac_tag: 777,
    };
    let envelope = MessageEnvelope::new(2, 1, share);
    node.handle_message(envelope);
    let job = node.current_job.as_ref().unwrap();
    assert!(job.received_shares.contains_key(&2));
}

#[test]
fn test_node_handles_abort() {
    let mut node = make_node(1);
    node.start_job("job-1".to_string(), Operation::Sum, 10).unwrap();
    let abort = Message::Abort {
        job_id: "job-1".to_string(),
        from_party: 2,
        reason: "test abort".to_string(),
    };
    let envelope = MessageEnvelope::new(2, 1, abort);
    node.handle_message(envelope);
    assert!(matches!(node.job_state(), Some(JobState::Failed(_))));
}

#[test]
fn test_node_complete_job() {
    let mut node = make_node(1);
    node.start_job("job-1".to_string(), Operation::Sum, 10).unwrap();
    node.complete_job(42);
    assert!(matches!(node.job_state(), Some(JobState::Complete(42))));
}

#[test]
fn test_job_tracks_ready_parties() {
    let mut job = Job::new("job-1".to_string(), Operation::Sum, 10);
    job.ready_parties.push(1);
    job.ready_parties.push(2);
    assert!(!job.all_parties_ready(3));
    job.ready_parties.push(3);
    assert!(job.all_parties_ready(3));
}

#[test]
fn test_node_config() {
    let config = NodeConfig::new(2, 3, "127.0.0.1:8002", vec!["127.0.0.1:8001".to_string()]);
    assert_eq!(config.party_id, 2);
    assert_eq!(config.listen_addr, "127.0.0.1:8002");
    assert_eq!(config.peer_addrs.len(), 1);
}

#[test]
fn node_job_announce_starts_job_and_broadcasts_ready() {
    let mut node = make_node(2);
    let announce = Message::JobAnnounce {
        job_id: "job-9".to_string(),
        party_count: 3,
        operation: Operation::Average,
    };
    let responses = node.handle_message(MessageEnvelope::new(1, 255, announce));
    assert_eq!(responses.len(), 1);
    assert_eq!(responses[0].to, 255);
    assert_eq!(responses[0].from, 2);
    match &responses[0].payload {
        Message::JobReady { job_id, from_party } => {
            assert_eq!(job_id, "job-9");
            assert_eq!(*from_party, 2);
        }
        _ => panic!("expected JobReady"),
    }
    let job = node.current_job.as_ref().unwrap();
    assert_eq!(job.job_id, "job-9");
    assert_eq!(job.my_input, 0);
    assert_eq!(job.state, JobState::WaitingForPeers);
    assert_eq!(node.message_log.len(), 1);
}

#[test]
fn node_ready_parties_are_recorded_once() {
    let mut node = make_node(1);
    node.start_job("job-1".to_string(), Operation::Sum, 10).unwrap();
    for p in [2u32, 3, 2] {
        let ready = Message::JobReady { job_id: "job-1".to_string(), from_party: p };
        assert!(node.handle_message(MessageEnvelope::new(p, 1, ready)).is_empty());
    }
    assert_eq!(node.current_job.as_ref().unwrap().ready_parties, vec![2, 3]);
}

#[test]
fn node_share_without_job_is_ignored() {
    let mut node = make_node(1);
    let share = Message::ShareMsg {
        job_id: "job-1".to_string(),
        from_party: 2,
        to_party: 1,
        share_x: 2,
        share_y: 5,
        mac_tag: 7,
    };
    assert!(node.handle_message(MessageEnvelope::new(2, 1, share)).is_empty());
    assert!(!node.is_busy());
}

#[test]
fn node_open_share_and_clear() {
    let mut node = make_node(1);
    node.start_job("job-1".to_string(), Operation::Sum, 10).unwrap();
    let open = Message::OpenShare { job_id: "job-1".to_string(), from_party: 3, share_value: 11, mac_tag: 0 };
    node.handle_message(MessageEnvelope::new(3, 1, open));
    let job = node.current_job.as_ref().unwrap();
    assert_eq!(job.open_shares.get(&3), Some(&(11, 0)));
    assert!(!job.all_open_shares_received(3));
    node.clear_job();
    assert!(node.job_state().is_none());
}
