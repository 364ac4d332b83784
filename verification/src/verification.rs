//! Proof verification: structure, queries present, the Fiat-Shamir challenge recomputed,
//! every opened cell's membership proof against the trace commitment, every recorded constraint
//! evaluation (its relation rechecked on its inputs and output), and public
//! inputs present, in that order; the first failing check decides the verdict.
use crate::air::{absorb_statement, addition_holds, mac_holds, multiplication_holds, transcript_bytes, AirInstance, Constraint};
use crate::clock::{elapsed, millis_u64, now};
use crate::prover::{stark_label, ConstraintEvaluation, MpcProver, StarkProof};
use crate::text::{decimal, with_decimal};
use crate::utils::{challenge_of, digest_eq, lemma_merkle_proof_verifies, proof_holds, sha256, MerkleTree, Transcript};
use vstd::prelude::*;

verus! {

/// Why a proof was rejected.
#[derive(Debug, Clone, Copy, PartialEq, Eq, Structural)]
pub enum VerificationError {
    InvalidChallenge,
    InvalidMerkleProof,
    ConstraintNotSatisfied,
    PublicInputMismatch,
    MissingQueries,
    InvalidProofStructure,
    CommitmentMismatch,
}

impl VerificationError {
    /// A sentence describing the error.
    pub fn message(&self) -> (r: &'static str)
        ensures
            *self == VerificationError::InvalidChallenge ==> r@ == "Fiat-Shamir challenge is invalid"@,
            *self == VerificationError::InvalidMerkleProof ==> r@ == "Merkle proof verification failed"@,
            *self == VerificationError::ConstraintNotSatisfied ==> r@ == "Constraint not satisfied"@,
            *self == VerificationError::PublicInputMismatch ==> r@ == "Public inputs do not match"@,
            *self == VerificationError::MissingQueries ==> r@ == "Proof has no queries"@,
            *self == VerificationError::InvalidProofStructure ==> r@ == "Proof structure is invalid"@,
            *self == VerificationError::CommitmentMismatch ==> r@ == "Trace commitment does not match"@,
    {
        match self {
            VerificationError::InvalidChallenge => "Fiat-Shamir challenge is invalid",
            VerificationError::InvalidMerkleProof => "Merkle proof verification failed",
            VerificationError::ConstraintNotSatisfied => "Constraint not satisfied",
            VerificationError::PublicInputMismatch => "Public inputs do not match",
            VerificationError::MissingQueries => "Proof has no queries",
            VerificationError::InvalidProofStructure => "Proof structure is invalid",
            VerificationError::CommitmentMismatch => "Trace commitment does not match",
        }
    }
}

/// The verdict on a proof.
#[derive(Debug, Clone, Copy, PartialEq, Eq, Structural)]
pub enum VerificationResult {
    Valid,
    Invalid(VerificationError),
}

impl VerificationResult {
    /// Whether the verdict is `Valid`.
    pub fn is_valid(&self) -> (r: bool)
        ensures
            r == (*self is Valid),
    {
        match self {
            VerificationResult::Valid => true,
            VerificationResult::Invalid(_) => false,
        }
    }
}

/// The verdict on a proof with the checks that passed and the one that failed.
#[derive(Debug, Clone)]
pub struct VerificationReport {
    pub proof_id: String,
    pub job_id: String,
    pub party_id: u32,
    pub result: VerificationResult,
    pub checks_passed: Vec<String>,
    pub checks_failed: Vec<String>,
    pub verified_at_ms: u64,
}

impl VerificationReport {
    /// Whether the verdict is `Valid`.
    pub fn is_valid(&self) -> (r: bool)
        ensures
            r == (self.result is Valid),
    {
        self.result.is_valid()
    }
}

/// The contents of a list of strings.
pub open spec fn texts(v: Seq<String>) -> Seq<Seq<char>> {
    v.map_values(|s: String| s@)
}

/// The challenge recomputed from what a proof states.
pub open spec fn recomputed_challenge(p: StarkProof) -> u64 {
    challenge_of(
        sha256(
            transcript_bytes(
                stark_label(),
                p.job_id@,
                p.party_id,
                p.trace_commitment@,
                p.public_inputs@,
            ),
        ),
    )
}

/// The membership proof of query `i` verifies, against the proof's trace commitment.
pub open spec fn query_holds(p: StarkProof, i: int) -> bool {
    &&& proof_holds(p.queries@[i].merkle_proof)
    &&& p.queries@[i].merkle_proof.root@ == p.trace_commitment@
}

/// The evaluation is marked satisfied and its relation holds on its inputs and output:
/// `x + y = z` for an addition, the Beaver identity on `[x, y, a, b, c]` for a
/// multiplication, `mac = alpha * value` on `[value, alpha]` for a MAC check; an evaluation
/// of any other name is not correct.
pub open spec fn evaluation_correct(e: ConstraintEvaluation) -> bool {
    let ins = e.inputs@;
    &&& e.satisfied
    &&& if e.constraint_name@ == "addition"@ {
        ins.len() == 2 && addition_holds(ins[0], ins[1], e.output)
    } else if e.constraint_name@ == "multiplication"@ {
        ins.len() == 5 && multiplication_holds(ins[0], ins[1], ins[2], ins[3], ins[4], e.output)
    } else if e.constraint_name@ == "mac_verify"@ {
        ins.len() == 2 && mac_holds(ins[0], ins[1], e.output)
    } else {
        false
    }
}

/// Queries `0..i` hold.
pub open spec fn queries_hold_upto(p: StarkProof, i: int) -> bool {
    forall|j: int| 0 <= j < i ==> #[trigger] query_holds(p, j)
}

/// Evaluations `0..i` are correct.
pub open spec fn satisfied_upto(p: StarkProof, i: int) -> bool {
    forall|j: int| 0 <= j < i ==> evaluation_correct(#[trigger] p.constraint_evaluations@[j])
}

/// The first query whose membership proof fails.
pub open spec fn first_bad_query(p: StarkProof) -> int {
    choose|i: int| 0 <= i < p.queries@.len() && !query_holds(p, i) && queries_hold_upto(p, i)
}

/// The first evaluation that is not correct.
pub open spec fn first_unsatisfied(p: StarkProof) -> int {
    choose|i: int|
        0 <= i < p.constraint_evaluations@.len() && !evaluation_correct(p.constraint_evaluations@[i])
            && satisfied_upto(p, i)
}

/// Whether the evaluation is correct (see `evaluation_correct`).
pub fn evaluation_holds(e: &ConstraintEvaluation) -> (r: bool)
    ensures
        r == evaluation_correct(*e),
{
    if !e.satisfied {
        return false;
    }
    if e.constraint_name == String::from_str("addition") {
        e.inputs.len() == 2 && Constraint::check_addition(e.inputs[0], e.inputs[1], e.output)
    } else if e.constraint_name == String::from_str("multiplication") {
        e.inputs.len() == 5 && Constraint::check_multiplication(
            e.inputs[0],
            e.inputs[1],
            e.inputs[2],
            e.inputs[3],
            e.inputs[4],
            e.output,
        )
    } else if e.constraint_name == String::from_str("mac_verify") {
        e.inputs.len() == 2 && Constraint::check_mac(e.inputs[0], e.inputs[1], e.output)
    } else {
        false
    }
}

/// The verdict on `p`.
pub open spec fn outcome(p: StarkProof) -> VerificationResult {
    if p.job_id@.len() == 0 || p.party_id == 0 {
        VerificationResult::Invalid(VerificationError::InvalidProofStructure)
    } else if p.queries@.len() == 0 {
        VerificationResult::Invalid(VerificationError::MissingQueries)
    } else if recomputed_challenge(p) != p.challenge {
        VerificationResult::Invalid(VerificationError::InvalidChallenge)
    } else if !queries_hold_upto(p, p.queries@.len() as int) {
        VerificationResult::Invalid(VerificationError::InvalidMerkleProof)
    } else if !satisfied_upto(p, p.constraint_evaluations@.len() as int) {
        VerificationResult::Invalid(VerificationError::ConstraintNotSatisfied)
    } else if p.public_inputs@.len() == 0 {
        VerificationResult::Invalid(VerificationError::PublicInputMismatch)
    } else {
        VerificationResult::Valid
    }
}

/// The names of the constraint checks for evaluations `0..n`.
pub open spec fn constraint_checks(evals: Seq<ConstraintEvaluation>, n: int) -> Seq<Seq<char>> {
    Seq::new(n as nat, |j: int| "constraint_"@ + evals[j].constraint_name@)
}

/// The checks that pass on `p`, in order.
pub open spec fn passed_checks(p: StarkProof) -> Seq<Seq<char>> {
    let first_four = seq!["structure_check"@, "queries_exist"@, "challenge_check"@, "merkle_proofs"@];
    let evals = p.constraint_evaluations@;
    if p.job_id@.len() == 0 || p.party_id == 0 {
        seq![]
    } else if p.queries@.len() == 0 {
        first_four.take(1)
    } else if recomputed_challenge(p) != p.challenge {
        first_four.take(2)
    } else if !queries_hold_upto(p, p.queries@.len() as int) {
        first_four.take(3)
    } else if !satisfied_upto(p, evals.len() as int) {
        first_four + constraint_checks(evals, first_unsatisfied(p))
    } else if p.public_inputs@.len() == 0 {
        first_four + constraint_checks(evals, evals.len() as int)
    } else {
        first_four + constraint_checks(evals, evals.len() as int) + seq!["public_inputs"@]
    }
}

/// The verification step that fails on `p`, if any.
pub open spec fn failed_checks(p: StarkProof) -> Seq<Seq<char>> {
    let evals = p.constraint_evaluations@;
    if p.job_id@.len() == 0 || p.party_id == 0 {
        seq!["structure_check"@]
    } else if p.queries@.len() == 0 {
        seq!["queries_exist"@]
    } else if recomputed_challenge(p) != p.challenge {
        seq!["challenge_check"@]
    } else if !queries_hold_upto(p, p.queries@.len() as int) {
        seq!["merkle_proof_"@ + decimal(first_bad_query(p) as nat)]
    } else if !satisfied_upto(p, evals.len() as int) {
        seq!["constraint_"@ + evals[first_unsatisfied(p)].constraint_name@]
    } else if p.public_inputs@.len() == 0 {
        seq!["public_inputs"@]
    } else {
        seq![]
    }
}

/// `r` is the report on `p`, apart from its timing.
pub open spec fn reports(p: StarkProof, r: VerificationReport) -> bool {
    &&& r.proof_id@ == p.proof_id@
    &&& r.job_id@ == p.job_id@
    &&& r.party_id == p.party_id
    &&& r.result == outcome(p)
    &&& texts(r.checks_passed@) == passed_checks(p)
    &&& texts(r.checks_failed@) == failed_checks(p)
}

/// Checks proofs.
pub struct MpcVerifier;

impl MpcVerifier {
    pub fn new() -> (r: MpcVerifier) {
        MpcVerifier
    }

    /// The report on `proof`.
    pub fn verify(&self, proof: &StarkProof) -> (r: VerificationReport)
        ensures
            reports(*proof, r),
    {
        let start = now();
        let mut checks_passed: Vec<String> = Vec::new();
        let mut checks_failed: Vec<String> = Vec::new();
        let ghost first_four = seq![
            "structure_check"@,
            "queries_exist"@,
            "challenge_check"@,
            "merkle_proofs"@,
        ];
        if proof.job_id.as_str().is_empty() || proof.party_id == 0 {
            checks_failed.push(String::from_str("structure_check"));
            proof {
                assert(texts(checks_passed@) =~= passed_checks(*proof));
                assert(texts(checks_failed@) =~= failed_checks(*proof));
            }
            return self.make_report(
                proof,
                VerificationResult::Invalid(VerificationError::InvalidProofStructure),
                checks_passed,
                checks_failed,
                millis_u64(&elapsed(&start)),
            );
        }
        checks_passed.push(String::from_str("structure_check"));
        if proof.queries.len() == 0 {
            checks_failed.push(String::from_str("queries_exist"));
            proof {
                assert(texts(checks_passed@) =~= passed_checks(*proof));
                assert(texts(checks_failed@) =~= failed_checks(*proof));
            }
            return self.make_report(
                proof,
                VerificationResult::Invalid(VerificationError::MissingQueries),
                checks_passed,
                checks_failed,
                millis_u64(&elapsed(&start)),
            );
        }
        checks_passed.push(String::from_str("queries_exist"));
        let expected_challenge = self.recompute_challenge(proof);
        if expected_challenge != proof.challenge {
            checks_failed.push(String::from_str("challenge_check"));
            proof {
                assert(texts(checks_passed@) =~= passed_checks(*proof));
                assert(texts(checks_failed@) =~= failed_checks(*proof));
            }
            return self.make_report(
                proof,
                VerificationResult::Invalid(VerificationError::InvalidChallenge),
                checks_passed,
                checks_failed,
                millis_u64(&elapsed(&start)),
            );
        }
        checks_passed.push(String::from_str("challenge_check"));
        let mut i: usize = 0;
        while i < proof.queries.len()
            invariant
                i <= proof.queries@.len(),
                queries_hold_upto(*proof, i as int),
                proof.job_id@.len() > 0,
                proof.party_id != 0,
                proof.queries@.len() > 0,
                recomputed_challenge(*proof) == proof.challenge,
                first_four == seq![
                    "structure_check"@,
                    "queries_exist"@,
                    "challenge_check"@,
                    "merkle_proofs"@,
                ],
                texts(checks_passed@) == first_four.take(3),
                checks_failed@.len() == 0,
            decreases proof.queries@.len() - i,
        {
            if !MerkleTree::verify_proof(&proof.queries[i].merkle_proof) || !digest_eq(
                &proof.queries[i].merkle_proof.root,
                &proof.trace_commitment,
            ) {
                checks_failed.push(with_decimal("merkle_proof_", i as u64));
                proof {
                    assert(first_bad_query(*proof) == i as int) by {
                        let k = first_bad_query(*proof);
                        assert(0 <= k < proof.queries@.len() && !query_holds(*proof, k)
                            && queries_hold_upto(*proof, k));
                        if k < i {
                            assert(query_holds(*proof, k));
                        }
                        if k > i {
                            assert(query_holds(*proof, i as int));
                        }
                    }
                    assert(!queries_hold_upto(*proof, proof.queries@.len() as int)) by {
                        assert(!query_holds(*proof, i as int));
                    }
                    assert(texts(checks_passed@) =~= passed_checks(*proof));
                    assert(texts(checks_failed@) =~= failed_checks(*proof));
                }
                return self.make_report(
                    proof,
                    VerificationResult::Invalid(VerificationError::InvalidMerkleProof),
                    checks_passed,
                    checks_failed,
                    millis_u64(&elapsed(&start)),
                );
            }
            i = i + 1;
        }
        let ghost three = checks_passed@;
        checks_passed.push(String::from_str("merkle_proofs"));
        proof {
            assert(texts(checks_passed@) =~= texts(three).push("merkle_proofs"@));
            assert(first_four =~= first_four.take(3).push("merkle_proofs"@));
            assert(constraint_checks(proof.constraint_evaluations@, 0) =~= Seq::<Seq<char>>::empty());
            assert(texts(checks_passed@) =~= first_four + constraint_checks(
                proof.constraint_evaluations@,
                0,
            ));
        }
        let ghost evals = proof.constraint_evaluations@;
        let mut j: usize = 0;
        while j < proof.constraint_evaluations.len()
            invariant
                evals == proof.constraint_evaluations@,
                j <= evals.len(),
                satisfied_upto(*proof, j as int),
                texts(checks_passed@) == first_four + constraint_checks(evals, j as int),
                proof.job_id@.len() > 0,
                proof.party_id != 0,
                proof.queries@.len() > 0,
                recomputed_challenge(*proof) == proof.challenge,
                queries_hold_upto(*proof, proof.queries@.len() as int),
                first_four == seq![
                    "structure_check"@,
                    "queries_exist"@,
                    "challenge_check"@,
                    "merkle_proofs"@,
                ],
                checks_failed@.len() == 0,
            decreases evals.len() - j,
        {
            let eval = &proof.constraint_evaluations[j];
            let mut name = String::from_str("constraint_");
            name.append(eval.constraint_name.as_str());
            if !evaluation_holds(eval) {
                checks_failed.push(name);
                proof {
                    assert(first_unsatisfied(*proof) == j as int) by {
                        let k = first_unsatisfied(*proof);
                        assert(0 <= k < evals.len() && !evaluation_correct(evals[k]) && satisfied_upto(*proof, k));
                        if k < j {
                            assert(evaluation_correct(evals[k]));
                        }
                        if k > j {
                            assert(evaluation_correct(evals[j as int]));
                        }
                    }
                    assert(!satisfied_upto(*proof, evals.len() as int)) by {
                        assert(!evaluation_correct(evals[j as int]));
                    }
                    assert(texts(checks_passed@) =~= passed_checks(*proof));
                    assert(texts(checks_failed@) =~= failed_checks(*proof));
                }
                return self.make_report(
                    proof,
                    VerificationResult::Invalid(VerificationError::ConstraintNotSatisfied),
                    checks_passed,
                    checks_failed,
                    millis_u64(&elapsed(&start)),
                );
            }
            let ghost before = checks_passed@;
            checks_passed.push(name);
            proof {
                assert(texts(checks_passed@) =~= texts(before).push(
                    "constraint_"@ + evals[j as int].constraint_name@,
                ));
                assert(constraint_checks(evals, j as int + 1) =~= constraint_checks(evals, j as int).push(
                    "constraint_"@ + evals[j as int].constraint_name@,
                ));
            }
            j = j + 1;
        }
        proof {
            assert(evals.take(evals.len() as int) =~= evals);
        }
        if proof.public_inputs.len() == 0 {
            checks_failed.push(String::from_str("public_inputs"));
            proof {
                assert(texts(checks_passed@) =~= passed_checks(*proof));
                assert(texts(checks_failed@) =~= failed_checks(*proof));
            }
            return self.make_report(
                proof,
                VerificationResult::Invalid(VerificationError::PublicInputMismatch),
                checks_passed,
                checks_failed,
                millis_u64(&elapsed(&start)),
            );
        }
        checks_passed.push(String::from_str("public_inputs"));
        proof {
            assert(texts(checks_passed@) =~= passed_checks(*proof));
            assert(texts(checks_failed@) =~= failed_checks(*proof));
        }
        self.make_report(
            proof,
            VerificationResult::Valid,
            checks_passed,
            checks_failed,
            millis_u64(&elapsed(&start)),
        )
    }

    /// The report on each proof, in order.
    pub fn verify_batch(&self, proofs: &[StarkProof]) -> (r: Vec<VerificationReport>)
        ensures
            r@.len() == proofs@.len(),
            forall|i: int| 0 <= i < proofs@.len() ==> reports(proofs@[i], #[trigger] r@[i]),
    {
        let mut out: Vec<VerificationReport> = Vec::new();
        let mut i: usize = 0;
        while i < proofs.len()
            invariant
                i <= proofs@.len(),
                out@.len() == i,
                forall|j: int| 0 <= j < i ==> reports(proofs@[j], #[trigger] out@[j]),
            decreases proofs@.len() - i,
        {
            let report = self.verify(&proofs[i]);
            out.push(report);
            i = i + 1;
        }
        out
    }

    /// Whether every proof is valid.
    pub fn verify_all_valid(&self, proofs: &[StarkProof]) -> (r: bool)
        ensures
            r == forall|i: int| 0 <= i < proofs@.len() ==> #[trigger] outcome(proofs@[i]) is Valid,
    {
        let mut i: usize = 0;
        while i < proofs.len()
            invariant
                i <= proofs@.len(),
                forall|j: int| 0 <= j < i ==> #[trigger] outcome(proofs@[j]) is Valid,
            decreases proofs@.len() - i,
        {
            if !self.verify(&proofs[i]).is_valid() {
                return false;
            }
            i = i + 1;
        }
        true
    }

    /// The challenge recomputed from the proof's own statement and commitment.
    pub fn recompute_challenge(&self, proof: &StarkProof) -> (r: u64)
        ensures
            r == recomputed_challenge(*proof),
    {
        let mut transcript = Transcript::new("mpc-stark");
        absorb_statement(
            &mut transcript,
            &proof.job_id,
            proof.party_id,
            &proof.trace_commitment,
            &proof.public_inputs,
        );
        transcript.squeeze_challenge()
    }

    fn make_report(
        &self,
        proof: &StarkProof,
        result: VerificationResult,
        checks_passed: Vec<String>,
        checks_failed: Vec<String>,
        elapsed_ms: u64,
    ) -> (r: VerificationReport)
        ensures
            r.proof_id@ == proof.proof_id@,
            r.job_id@ == proof.job_id@,
            r.party_id == proof.party_id,
            r.result == result,
            r.checks_passed == checks_passed,
            r.checks_failed == checks_failed,
            r.verified_at_ms == elapsed_ms,
    {
        VerificationReport {
            proof_id: proof.proof_id.clone(),
            job_id: proof.job_id.clone(),
            party_id: proof.party_id,
            result,
            checks_passed,
            checks_failed,
            verified_at_ms: elapsed_ms,
        }
    }
}

/// The verifier as an on-chain contract would run it: a yes/no verdict, and whether the
/// submitting party is to be slashed.
pub struct OnChainVerifier {
    verifier: MpcVerifier,
}

impl OnChainVerifier {
    pub fn new() -> (r: OnChainVerifier) {
        OnChainVerifier { verifier: MpcVerifier::new() }
    }

    /// Whether `proof` is valid.
    pub fn verify_on_chain(&self, proof: &StarkProof) -> (r: bool)
        ensures
            r == (outcome(*proof) is Valid),
    {
        self.verifier.verify(proof).is_valid()
    }

    /// Whether the party behind `proof` is to be slashed: exactly when the proof is invalid.
    pub fn should_slash(&self, proof: &StarkProof) -> (r: bool)
        ensures
            r == !(outcome(*proof) is Valid),
    {
        !self.verify_on_chain(proof)
    }
}

/// Completeness: a proof that the prover issues for a satisfied, non-empty trace verifies,
/// given a non-empty job id, a non-zero party id, at least one query and at least one
/// public input.
pub proof fn lemma_issued_proof_verifies(prover: MpcProver, instance: AirInstance, p: StarkProof)
    requires
        prover.issued(instance, p),
        instance.trace.satisfied(),
        instance.trace.cells().len() > 0,
        prover.num_queries > 0,
        instance.job_id@.len() > 0,
        instance.party_id != 0,
        instance.public_inputs@.len() > 0,
    ensures
        outcome(p) == VerificationResult::Valid,
{
    let cells = instance.trace.cells();
    assert forall|i: int| 0 <= i < p.queries@.len() implies #[trigger] query_holds(p, i) by {
        let q = p.queries@[i];
        let idx = crate::prover::query_cell(p.challenge, i as nat, cells.len());
        vstd::arithmetic::div_mod::lemma_mod_bound(
            (crate::prover::query_seed(p.challenge, i as nat) as usize + i * 7919) as int,
            cells.len() as int,
        );
        lemma_merkle_proof_verifies(cells, idx);
    }
    assert(queries_hold_upto(p, p.queries@.len() as int));
    reveal_strlit("addition");
    reveal_strlit("multiplication");
    reveal_strlit("mac_verify");
    let evals = p.constraint_evaluations@;
    if evals.len() > 0 {
        let e = evals[0];
        let ins = e.inputs@;
        assert(evals.len() == 1);
        assert("addition"@ != "multiplication"@ && "addition"@ != "mac_verify"@
            && "multiplication"@ != "mac_verify"@) by {
            assert("addition"@[0] != "multiplication"@[0]);
            assert("addition"@.len() != "mac_verify"@.len());
            assert("multiplication"@.len() != "mac_verify"@.len());
        }
        match instance.trace.constraint_type {
            crate::air::ConstraintType::Addition => {
                assert(e.constraint_name@ == "addition"@);
                assert(ins.len() == 2);
            },
            crate::air::ConstraintType::Multiplication => {
                assert(e.constraint_name@ == "multiplication"@);
                assert(ins.len() == 5);
            },
            crate::air::ConstraintType::MacVerify => {
                assert(e.constraint_name@ == "mac_verify"@);
                assert(ins.len() == 2);
            },
            crate::air::ConstraintType::ShareValid => {},
        }
        assert(evaluation_correct(e));
    }
    assert(satisfied_upto(p, p.constraint_evaluations@.len() as int));
}

} // verus!
