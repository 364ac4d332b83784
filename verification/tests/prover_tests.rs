use mpc_node::air::{AirInstance, ComputationTrace, ConstraintType};
use mpc_node::field::FieldElement;
use mpc_node::prover::{MpcProver, ProofError};
use mpc_node::utils::MerkleTree;

fn make_prover() -> MpcProver {
    MpcProver::new(1)
}

fn make_addition_instance() -> AirInstance {
    let trace = ComputationTrace::for_addition(10, 20, 30);
    AirInstance::new("job-1".to_string(), 1, trace, vec![30])
}

fn make_multiplication_instance() -> AirInstance {
    let x = 6u64;
    let y = 7u64;
    let a = 2u64;
    let b = 3u64;
    let c = 6u64;
    let result = FieldElement::new(x).mul(&FieldElement::new(y)).value;
    let trace = ComputationTrace::for_multiplication(x, y, a, b, c, result);
    AirInstance::new("job-2".to_string(), 1, trace, vec![result])
}

fn make_mac_instance() -> AirInstance {
    let alpha = 7u64;
    let value = 5u64;
    let mac = FieldElement::new(alpha).mul(&FieldElement::new(value)).value;
    let trace = ComputationTrace::for_mac_verify(value, alpha, mac);
    AirInstance::new("job-3".to_string(), 1, trace, vec![value, mac])
}

#[test]
fn test_prove_addition() {
    let prover = make_prover();
    let instance = make_addition_instance();
    let result = prover.prove(&instance);
    assert!(result.is_ok());
}

#[test]
fn test_prove_multiplication() {
    let prover = make_prover();
    let instance = make_multiplication_instance();
    let result = prover.prove(&instance);
    assert!(result.is_ok());
}

#[test]
fn test_prove_mac_verify() {
    let prover = make_prover();
    let instance = make_mac_instance();
    let result = prover.prove(&instance);
    assert!(result.is_ok());
}

#[test]
fn test_proof_has_correct_job_id() {
    let prover = make_prover();
    let instance = make_addition_instance();
    let proof = prover.prove(&instance).unwrap();
    assert_eq!(proof.job_id, "job-1");
}

#[test]
fn test_proof_has_correct_party_id() {
    let prover = make_prover();
    let instance = make_addition_instance();
    let proof = prover.prove(&instance).unwrap();
    assert_eq!(proof.party_id, 1);
}

#[test]
fn test_proof_has_trace_commitment() {
    let prover = make_prover();
    let instance = make_addition_instance();
    let proof = prover.prove(&instance).unwrap();
    assert!(!proof.trace_commitment.iter().all(|&b| b == 0));
}

#[test]
fn test_proof_has_challenge() {
    let prover = make_prover();
    let instance = make_addition_instance();
    let proof = prover.prove(&instance).unwrap();
    assert_ne!(proof.challenge, 0);
}

#[test]
fn test_proof_has_queries() {
    let prover = make_prover();
    let instance = make_addition_instance();
    let proof = prover.prove(&instance).unwrap();
    assert!(!proof.queries.is_empty());
}

#[test]
fn test_proof_constraint_satisfied() {
    let prover = make_prover();
    let instance = make_addition_instance();
    let proof = prover.prove(&instance).unwrap();
    assert!(proof.constraint_evaluations.iter().all(|e| e.satisfied));
}

#[test]
fn test_proof_is_deterministic() {
    let prover = make_prover();
    let i1 = make_addition_instance();
    let i2 = make_addition_instance();
    let p1 = prover.prove(&i1).unwrap();
    let p2 = prover.prove(&i2).unwrap();
    assert_eq!(p1.trace_commitment, p2.trace_commitment);
    assert_eq!(p1.challenge, p2.challenge);
}

#[test]
fn test_invalid_trace_returns_error() {
    let prover = make_prover();
    let mut trace = ComputationTrace::for_addition(10, 20, 30);
    trace.rows[0][2] = 999;
    let instance = AirInstance::new("job-bad".to_string(), 1, trace, vec![999]);
    let result = prover.prove(&instance);
    assert_eq!(result, Err(ProofError::ConstraintViolation));
}

#[test]
fn test_different_jobs_different_challenges() {
    let prover = make_prover();
    let i1 = make_addition_instance();
    let mut i2 = make_addition_instance();
    i2.job_id = "job-99".to_string();
    let p1 = prover.prove(&i1).unwrap();
    let p2 = prover.prove(&i2).unwrap();
    assert_ne!(p1.challenge, p2.challenge);
}

#[test]
fn test_query_merkle_proofs_valid() {
    let prover = make_prover();
    let instance = make_addition_instance();
    let proof = prover.prove(&instance).unwrap();
    for query in &proof.queries {
        assert!(MerkleTree::verify_proof(&query.merkle_proof));
    }
}

#[test]
fn test_proof_public_inputs_preserved() {
    let prover = make_prover();
    let instance = make_addition_instance();
    let proof = prover.prove(&instance).unwrap();
    assert_eq!(proof.public_inputs, vec![30]);
}

#[test]
fn prover_proof_id_and_commitment() {
    let prover = MpcProver::new(7);
    let instance = AirInstance::new("job-x".to_string(), 12, ComputationTrace::for_addition(1, 2, 3), vec![3]);
    let proof = prover.prove(&instance).unwrap();
    assert_eq!(proof.proof_id, "proof-job-x-12");
    assert_eq!(proof.trace_commitment, MerkleTree::new(&[1, 2, 3, 0]).root());
    assert_eq!(proof.proof_size_bytes, 0);
}

#[test]
fn prover_query_positions_follow_challenge() {
    let prover = MpcProver::with_security(1, 3);
    let instance = make_multiplication_instance();
    let proof = prover.prove(&instance).unwrap();
    assert_eq!(proof.queries.len(), 3);
    let cells: Vec<u64> = instance.trace.rows.iter().flatten().cloned().collect();
    let mut seed = proof.challenge;
    for (i, q) in proof.queries.iter().enumerate() {
        let idx = ((seed as usize as u128 + (i as u128) * 7919) % (cells.len() as u128)) as usize;
        assert_eq!(q.value, cells[idx]);
        assert_eq!(q.col, idx % 4);
        assert_eq!(q.row, (idx / 4).min(2));
        assert_eq!(q.merkle_proof.index, idx);
        seed = seed.wrapping_mul(6364136223846793005).wrapping_add(1442695040888963407);
    }
}

#[test]
fn prover_queries_capped_by_cells() {
    let prover = MpcProver::with_security(1, 100);
    let proof = prover.prove(&make_addition_instance()).unwrap();
    assert_eq!(proof.queries.len(), 4);
    let none = MpcProver::with_security(1, 0).prove(&make_addition_instance()).unwrap();
    assert!(none.queries.is_empty());
}

#[test]
fn prover_evaluation_records_constraint() {
    let proof = make_prover().prove(&make_multiplication_instance()).unwrap();
    assert_eq!(proof.constraint_evaluations.len(), 1);
    let e = &proof.constraint_evaluations[0];
    assert_eq!(e.constraint_name, "multiplication");
    assert_eq!(e.inputs, vec![6, 7, 2, 3, 6]);
    assert_eq!(e.output, 42);
    assert!(e.satisfied);
}

#[test]
fn prover_empty_share_valid_trace_is_invalid_trace() {
    let trace = ComputationTrace {
        constraint_type: ConstraintType::ShareValid,
        rows: vec![],
        width: 4,
        length: 0,
    };
    let instance = AirInstance::new("job".to_string(), 1, trace, vec![1]);
    assert_eq!(make_prover().prove(&instance), Err(ProofError::InvalidTrace));
}

#[test]
fn prover_error_messages() {
    assert_eq!(ProofError::InvalidTrace.message(), "Invalid computation trace");
    assert_eq!(ProofError::ConstraintViolation.message(), "Constraint violation detected");
}
