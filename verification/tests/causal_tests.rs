use mpc_node::causal::prove_causal_effect;
use mpc_node::prover::ProofError;

#[test]
fn causal_consistent_effect_proves_and_verifies() {
    let (proof, verified) = prove_causal_effect("job-c".to_string(), 2, 12, 25, 300, 1000, 4);
    let proof = proof.unwrap();
    assert!(verified);
    assert_eq!(proof.job_id, "job-c");
    assert_eq!(proof.party_id, 2);
    assert_eq!(proof.public_inputs, vec![300, 1000, 4]);
}

#[test]
fn causal_inconsistent_effect_is_refused() {
    let (proof, verified) = prove_causal_effect("job-c".to_string(), 2, 12, 25, 301, 1000, 4);
    assert_eq!(proof.err(), Some(ProofError::ConstraintViolation));
    assert!(!verified);
}

#[test]
fn causal_party_zero_does_not_verify() {
    let (proof, verified) = prove_causal_effect("job-c".to_string(), 0, 12, 25, 300, 1000, 4);
    assert!(proof.is_ok());
    assert!(!verified);
}
