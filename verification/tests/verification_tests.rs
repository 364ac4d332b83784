use mpc_node::air::{AirInstance, ComputationTrace};
use mpc_node::field::FieldElement;
use mpc_node::prover::{MpcProver, StarkProof};
use mpc_node::verification::{MpcVerifier, OnChainVerifier, VerificationError, VerificationResult};

fn make_valid_proof(job_id: &str, party_id: u32) -> StarkProof {
    let trace = ComputationTrace::for_addition(10, 20, 30);
    let instance = AirInstance::new(job_id.to_string(), party_id, trace, vec![30]);
    MpcProver::new(party_id).prove(&instance).unwrap()
}

fn make_mul_proof() -> StarkProof {
    let x = 6u64;
    let y = 7u64;
    let result = FieldElement::new(x).mul(&FieldElement::new(y)).value;
    let trace = ComputationTrace::for_multiplication(x, y, 2, 3, 6, result);
    let instance = AirInstance::new("mul-job".to_string(), 1, trace, vec![result]);
    MpcProver::new(1).prove(&instance).unwrap()
}

fn make_mac_proof() -> StarkProof {
    let alpha = 7u64;
    let value = 5u64;
    let mac = FieldElement::new(alpha).mul(&FieldElement::new(value)).value;
    let trace = ComputationTrace::for_mac_verify(value, alpha, mac);
    let instance = AirInstance::new("mac-job".to_string(), 1, trace, vec![value, mac]);
    MpcProver::new(1).prove(&instance).unwrap()
}

#[test]
fn test_verify_valid_addition_proof() {
    let verifier = MpcVerifier::new();
    let proof = make_valid_proof("job-1", 1);
    let report = verifier.verify(&proof);
    assert!(report.is_valid());
}

#[test]
fn test_verify_valid_multiplication_proof() {
    let verifier = MpcVerifier::new();
    let proof = make_mul_proof();
    let report = verifier.verify(&proof);
    assert!(report.is_valid());
}

#[test]
fn test_verify_valid_mac_proof() {
    let verifier = MpcVerifier::new();
    let proof = make_mac_proof();
    let report = verifier.verify(&proof);
    assert!(report.is_valid());
}

#[test]
fn test_verify_report_has_job_id() {
    let verifier = MpcVerifier::new();
    let proof = make_valid_proof("job-abc", 1);
    let report = verifier.verify(&proof);
    assert_eq!(report.job_id, "job-abc");
}

#[test]
fn test_verify_report_has_party_id() {
    let verifier = MpcVerifier::new();
    let proof = make_valid_proof("job-1", 3);
    let report = verifier.verify(&proof);
    assert_eq!(report.party_id, 3);
}

#[test]
fn test_verify_report_checks_passed() {
    let verifier = MpcVerifier::new();
    let proof = make_valid_proof("job-1", 1);
    let report = verifier.verify(&proof);
    assert!(!report.checks_passed.is_empty());
    assert!(report.checks_failed.is_empty());
}

#[test]
fn test_tampered_challenge_fails() {
    let verifier = MpcVerifier::new();
    let mut proof = make_valid_proof("job-1", 1);
    proof.challenge = 99999999;
    let report = verifier.verify(&proof);
    assert!(!report.is_valid());
    assert_eq!(report.result, VerificationResult::Invalid(VerificationError::InvalidChallenge));
}

#[test]
fn test_tampered_merkle_proof_fails() {
    let verifier = MpcVerifier::new();
    let mut proof = make_valid_proof("job-1", 1);
    if !proof.queries.is_empty() {
        proof.queries[0].merkle_proof.root = [0u8; 32];
    }
    let report = verifier.verify(&proof);
    assert!(!report.is_valid());
}

#[test]
fn test_unsatisfied_constraint_fails() {
    let verifier = MpcVerifier::new();
    let mut proof = make_valid_proof("job-1", 1);
    if !proof.constraint_evaluations.is_empty() {
        proof.constraint_evaluations[0].satisfied = false;
    }
    let report = verifier.verify(&proof);
    assert!(!report.is_valid());
    assert_eq!(report.result, VerificationResult::Invalid(VerificationError::ConstraintNotSatisfied));
}

#[test]
fn test_empty_queries_fails() {
    let verifier = MpcVerifier::new();
    let mut proof = make_valid_proof("job-1", 1);
    proof.queries.clear();
    let report = verifier.verify(&proof);
    assert!(!report.is_valid());
    assert_eq!(report.result, VerificationResult::Invalid(VerificationError::MissingQueries));
}

#[test]
fn test_verify_batch_all_valid() {
    let verifier = MpcVerifier::new();
    let proofs = vec![
        make_valid_proof("job-1", 1),
        make_valid_proof("job-2", 2),
        make_valid_proof("job-3", 3),
    ];
    let reports = verifier.verify_batch(&proofs);
    assert_eq!(reports.len(), 3);
    assert!(reports.iter().all(|r| r.is_valid()));
}

#[test]
fn test_verify_all_valid() {
    let verifier = MpcVerifier::new();
    let proofs = vec![make_valid_proof("job-1", 1), make_mul_proof(), make_mac_proof()];
    assert!(verifier.verify_all_valid(&proofs));
}

#[test]
fn test_verify_all_valid_fails_with_one_bad() {
    let verifier = MpcVerifier::new();
    let mut bad_proof = make_valid_proof("job-1", 1);
    bad_proof.queries.clear();
    let proofs = vec![make_valid_proof("job-2", 2), bad_proof];
    assert!(!verifier.verify_all_valid(&proofs));
}

#[test]
fn test_on_chain_verifier_valid() {
    let verifier = OnChainVerifier::new();
    let proof = make_valid_proof("job-1", 1);
    assert!(verifier.verify_on_chain(&proof));
    assert!(!verifier.should_slash(&proof));
}

#[test]
fn test_on_chain_verifier_invalid_triggers_slash() {
    let verifier = OnChainVerifier::new();
    let mut proof = make_valid_proof("job-1", 1);
    proof.queries.clear();
    assert!(!verifier.verify_on_chain(&proof));
    assert!(verifier.should_slash(&proof));
}

#[test]
fn test_verification_result_is_valid() {
    assert!(VerificationResult::Valid.is_valid());
    assert!(!VerificationResult::Invalid(VerificationError::InvalidChallenge).is_valid());
}

#[test]
fn test_recompute_challenge_matches() {
    let verifier = MpcVerifier::new();
    let proof = make_valid_proof("job-1", 1);
    let recomputed = verifier.recompute_challenge(&proof);
    assert_eq!(recomputed, proof.challenge);
}

#[test]
fn verification_check_lists_of_valid_proof() {
    let report = MpcVerifier::new().verify(&make_valid_proof("job-1", 1));
    assert_eq!(
        report.checks_passed,
        vec![
            "structure_check",
            "queries_exist",
            "challenge_check",
            "merkle_proofs",
            "constraint_addition",
            "public_inputs"
        ]
    );
}

#[test]
fn verification_structure_and_inputs_errors() {
    let verifier = MpcVerifier::new();
    let mut proof = make_valid_proof("job-1", 1);
    proof.party_id = 0;
    let report = verifier.verify(&proof);
    assert_eq!(report.result, VerificationResult::Invalid(VerificationError::InvalidProofStructure));
    assert_eq!(report.checks_failed, vec!["structure_check"]);
    assert!(report.checks_passed.is_empty());

    let instance = AirInstance::new("job-1".to_string(), 1, ComputationTrace::for_addition(1, 2, 3), vec![]);
    let proof = MpcProver::new(1).prove(&instance).unwrap();
    let report = verifier.verify(&proof);
    assert_eq!(report.result, VerificationResult::Invalid(VerificationError::PublicInputMismatch));
    assert_eq!(report.checks_failed, vec!["public_inputs"]);
}

#[test]
fn verification_names_the_failing_query() {
    let verifier = MpcVerifier::new();
    let mut proof = make_valid_proof("job-1", 1);
    proof.queries[1].merkle_proof.root = [0u8; 32];
    let report = verifier.verify(&proof);
    assert_eq!(report.result, VerificationResult::Invalid(VerificationError::InvalidMerkleProof));
    assert_eq!(report.checks_failed, vec!["merkle_proof_1"]);
    assert_eq!(report.checks_passed, vec!["structure_check", "queries_exist", "challenge_check"]);
}

#[test]
fn verification_error_messages() {
    assert_eq!(VerificationError::InvalidChallenge.message(), "Fiat-Shamir challenge is invalid");
    assert_eq!(VerificationError::MissingQueries.message(), "Proof has no queries");
}

#[test]
fn verification_rechecks_recorded_evaluation() {
    let verifier = MpcVerifier::new();
    let mut proof = make_valid_proof("job-forged", 1);
    // claims 10 + 20 = 31 while keeping the flag set
    proof.constraint_evaluations[0].output = 31;
    assert!(proof.constraint_evaluations[0].satisfied);
    let report = verifier.verify(&proof);
    assert_eq!(
        report.result,
        VerificationResult::Invalid(VerificationError::ConstraintNotSatisfied)
    );
    assert_eq!(report.checks_failed, vec!["constraint_addition".to_string()]);
}

#[test]
fn verification_rejects_unknown_evaluation_kind() {
    let verifier = MpcVerifier::new();
    let mut proof = make_valid_proof("job-kind", 1);
    proof.constraint_evaluations[0].constraint_name = "division".to_string();
    let report = verifier.verify(&proof);
    assert_eq!(
        report.result,
        VerificationResult::Invalid(VerificationError::ConstraintNotSatisfied)
    );
}

#[test]
fn verification_rejects_proof_against_other_commitment() {
    let verifier = MpcVerifier::new();
    let proof = make_valid_proof("job-a", 1);
    let other = {
        let trace = ComputationTrace::for_addition(1, 2, 3);
        let instance = AirInstance::new("job-a".to_string(), 1, trace, vec![30]);
        MpcProver::new(1).prove(&instance).unwrap()
    };
    let mut mixed = proof.clone();
    // a membership proof that verifies, but in another trace
    mixed.queries[0].merkle_proof = other.queries[0].merkle_proof.clone();
    let report = verifier.verify(&mixed);
    assert_eq!(
        report.result,
        VerificationResult::Invalid(VerificationError::InvalidMerkleProof)
    );
}
