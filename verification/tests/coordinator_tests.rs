use mpc_node::coordinator::{ComputationResult, CoordinatorState, JobCoordinator};
use mpc_node::message::{Message, MessageEnvelope, Operation};

fn make_coordinator(party_id: u32, input: u64) -> JobCoordinator {
    JobCoordinator::new("test-job".to_string(), party_id, 3, Operation::Sum, input)
}

#[test]
fn test_coordinator_creation() {
    let coord = make_coordinator(1, 100);
    assert_eq!(coord.my_party_id, 1);
    assert_eq!(coord.my_input, 100);
    assert_eq!(coord.state, CoordinatorState::Idle);
}

#[test]
fn test_coordinator_start() {
    let mut coord = make_coordinator(1, 100);
    let messages = coord.start();
    assert!(messages.len() >= 2);
    assert_eq!(coord.state, CoordinatorState::WaitingForParties);
}

#[test]
fn test_coordinator_tracks_ready_parties() {
    let mut coord = make_coordinator(1, 100);
    coord.start();
    assert_eq!(coord.ready_parties.len(), 1);
    coord.handle_job_ready(2);
    assert_eq!(coord.ready_parties.len(), 2);
}

#[test]
fn test_coordinator_shares_input_when_all_ready() {
    let mut coord = make_coordinator(1, 100);
    coord.start();
    coord.handle_job_ready(2);
    let messages = coord.handle_job_ready(3);
    assert_eq!(coord.state, CoordinatorState::SharingInputs);
    assert!(!messages.is_empty());
}

#[test]
fn test_coordinator_handles_received_share() {
    let mut coord = make_coordinator(1, 100);
    coord.start();
    coord.handle_job_ready(2);
    coord.handle_job_ready(3);
    coord.handle_share(2, 2, 500, 0);
    assert!(coord.received_shares.contains_key(&2));
}

#[test]
fn test_full_three_party_sum() {
    let mut c1 = make_coordinator(1, 10);
    let mut c2 = make_coordinator(2, 20);
    let mut c3 = make_coordinator(3, 30);
    c1.start();
    c2.start();
    c3.start();
    c1.handle_job_ready(2);
    c1.handle_job_ready(3);
    c2.handle_job_ready(1);
    c2.handle_job_ready(3);
    c3.handle_job_ready(1);
    c3.handle_job_ready(2);
    assert_eq!(c1.state, CoordinatorState::SharingInputs);
    assert_eq!(c2.state, CoordinatorState::SharingInputs);
    assert_eq!(c3.state, CoordinatorState::SharingInputs);
}

#[test]
fn test_coordinator_is_done_after_failure() {
    let mut coord = make_coordinator(1, 100);
    coord.state = CoordinatorState::Failed("test".to_string());
    assert!(coord.is_done());
}

#[test]
fn test_coordinator_not_done_when_idle() {
    let coord = make_coordinator(1, 100);
    assert!(!coord.is_done());
}

#[test]
fn test_computation_result_structure() {
    let result = ComputationResult {
        job_id: "job-1".to_string(),
        result: 42,
        operation: Operation::Sum,
        party_count: 3,
        success: true,
    };
    assert_eq!(result.result, 42);
    assert!(result.success);
}

#[test]
fn test_coordinator_handle_abort_message() {
    let mut coord = make_coordinator(1, 100);
    coord.start();
    let abort = Message::Abort {
        job_id: "test-job".to_string(),
        from_party: 2,
        reason: "MAC failed".to_string(),
    };
    let envelope = MessageEnvelope::new(2, 1, abort);
    coord.handle_message(envelope);
    assert!(coord.is_done());
    assert!(matches!(coord.state, CoordinatorState::Failed(_)));
}

#[test]
fn coordinator_share_messages_go_to_other_parties() {
    let mut coord = make_coordinator(2, 100);
    coord.start();
    coord.handle_job_ready(1);
    let messages = coord.handle_job_ready(3);
    assert_eq!(messages.len(), 2);
    let targets: Vec<u32> = messages.iter().map(|m| m.to).collect();
    assert_eq!(targets, vec![1, 3]);
    for m in &messages {
        match &m.payload {
            Message::ShareMsg { from_party, to_party, share_x, .. } => {
                assert_eq!(*from_party, 2);
                assert_eq!(*to_party as u64, *share_x);
            }
            _ => panic!("expected a share message"),
        }
    }
    assert_eq!(coord.my_shares_sent.len(), 3);
    assert_eq!(coord.received_shares.get(&2).unwrap().x.value, 2);
}

#[test]
fn coordinator_reconstructs_and_opens() {
    // Party 1 receives the three shares of one degree-one polynomial f(x) = 40 + 3x.
    let mut coord = JobCoordinator::new("job".to_string(), 1, 3, Operation::Sum, 7);
    coord.state = CoordinatorState::SharingInputs;
    assert!(coord.handle_share(1, 1, 43, 0).is_empty());
    assert!(coord.handle_share(2, 2, 46, 0).is_empty());
    let out = coord.handle_share(3, 3, 49, 0);
    assert_eq!(coord.state, CoordinatorState::OpeningOutputs);
    assert_eq!(out.len(), 1);
    assert_eq!(out[0].to, 255);
    match &out[0].payload {
        Message::OpenShare { share_value, from_party, .. } => {
            assert_eq!(*share_value, 40);
            assert_eq!(*from_party, 1);
        }
        _ => panic!("expected an open share"),
    }
    assert_eq!(coord.output_shares.get(&1), Some(&40));
}

#[test]
fn coordinator_average_divides_by_party_count() {
    let mut coord = JobCoordinator::new("job".to_string(), 1, 3, Operation::Average, 7);
    coord.state = CoordinatorState::SharingInputs;
    coord.handle_share(1, 1, 43, 0);
    coord.handle_share(2, 2, 46, 0);
    coord.handle_share(3, 3, 49, 0);
    assert_eq!(coord.output_shares.get(&1), Some(&13));
}

#[test]
fn coordinator_finalizes_with_sum() {
    let mut coord = make_coordinator(1, 0);
    coord.state = CoordinatorState::OpeningOutputs;
    assert!(coord.handle_open_share(1, 10).is_none());
    assert!(coord.handle_open_share(2, 20).is_none());
    let result = coord.handle_open_share(3, 30).unwrap();
    assert_eq!(result.result, 60);
    assert_eq!(result.job_id, "test-job");
    assert_eq!(result.party_count, 3);
    assert!(result.success);
    assert_eq!(coord.state, CoordinatorState::Done);
    assert!(coord.is_done());
}

#[test]
fn coordinator_routes_messages() {
    let mut coord = make_coordinator(1, 0);
    coord.state = CoordinatorState::OpeningOutputs;
    let open = |p: u32, v: u64| {
        MessageEnvelope::new(p, 1, Message::OpenShare { job_id: "test-job".to_string(), from_party: p, share_value: v, mac_tag: 0 })
    };
    assert!(coord.handle_message(open(1, 1)).1.is_none());
    assert!(coord.handle_message(open(2, 2)).1.is_none());
    let (out, result) = coord.handle_message(open(3, 3));
    assert!(out.is_empty());
    assert_eq!(result.unwrap().result, 6);
    let (out, result) = coord.handle_message(MessageEnvelope::new(2, 1, Message::Ping { from_party: 2, timestamp: 0 }));
    assert!(out.is_empty() && result.is_none());
}
