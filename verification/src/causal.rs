//! Proofs about a measured causal effect. The effect is encoded as the MAC relation
//! `effect = latency * active_queries` in the field, proved over a one-row trace, and the
//! proof is checked at once.
use crate::air::{mac_holds, row_views, AirInstance, ComputationTrace, ConstraintType};
use crate::prover::{MpcProver, ProofError, StarkProof};
use crate::verification::{lemma_issued_proof_verifies, outcome, MpcVerifier};
use vstd::prelude::*;

verus! {

/// `i` is the instance of the causal-effect statement: job `job_id` of party `party_id`, the
/// one-row MAC trace `[active_queries, avg_latency_ms, causal_effect_ms, 0]`, and the public
/// inputs `[causal_effect_ms, samples_used, retrain_cycle]`.
pub open spec fn causal_instance(
    i: AirInstance,
    job_id: Seq<char>,
    party_id: u32,
    active_queries: u64,
    avg_latency_ms: u64,
    causal_effect_ms: u64,
    samples_used: u64,
    retrain_cycle: u64,
) -> bool {
    &&& i.job_id@ == job_id
    &&& i.party_id == party_id
    &&& i.trace.constraint_type == ConstraintType::MacVerify
    &&& row_views(i.trace.rows@) == seq![seq![active_queries, avg_latency_ms, causal_effect_ms, 0u64]]
    &&& i.trace.width == 4
    &&& i.trace.length == 1
    &&& i.public_inputs@ == seq![causal_effect_ms, samples_used, retrain_cycle]
}

/// Proves that `causal_effect_ms = avg_latency_ms * active_queries` in the field for job
/// `job_id` of party `party_id`, with the effect, the samples used and the retraining cycle as
/// public inputs, and reports whether the proof verifies.
pub fn prove_causal_effect(
    job_id: String,
    party_id: u32,
    active_queries: u64,
    avg_latency_ms: u64,
    causal_effect_ms: u64,
    samples_used: u64,
    retrain_cycle: u64,
) -> (r: (Result<StarkProof, ProofError>, bool))
    ensures
        r.0 is Err <==> !mac_holds(active_queries, avg_latency_ms, causal_effect_ms),
        r.0 is Err ==> r.0 == Err::<StarkProof, ProofError>(ProofError::ConstraintViolation),
        r.0 is Ok ==> {
            let p = r.0->Ok_0;
            &&& p.job_id@ == job_id@
            &&& p.party_id == party_id
            &&& p.public_inputs@ == seq![causal_effect_ms, samples_used, retrain_cycle]
            &&& exists|i: AirInstance|
                {
                    &&& causal_instance(
                        i,
                        job_id@,
                        party_id,
                        active_queries,
                        avg_latency_ms,
                        causal_effect_ms,
                        samples_used,
                        retrain_cycle,
                    )
                    &&& (MpcProver { party_id, num_queries: 4 }).issued(i, p)
                }
        },
        r.1 == (r.0 is Ok && outcome(r.0->Ok_0) is Valid),
        mac_holds(active_queries, avg_latency_ms, causal_effect_ms) && job_id@.len() > 0 && party_id
            != 0 ==> r.1,
{
    let trace = ComputationTrace::for_mac_verify(active_queries, avg_latency_ms, causal_effect_ms);
    let public_inputs = vec![causal_effect_ms, samples_used, retrain_cycle];
    let instance = AirInstance::new(job_id, party_id, trace, public_inputs);
    let prover = MpcProver::new(party_id);
    proof {
        let rows = crate::air::row_views(instance.trace.rows@);
        assert(rows.drop_last() =~= Seq::<Seq<u64>>::empty());
        assert(crate::air::concat_rows(rows.drop_last()) =~= Seq::<u64>::empty());
        assert(rows.last() == seq![active_queries, avg_latency_ms, causal_effect_ms, 0u64]);
        assert(instance.trace.cells() =~= seq![active_queries, avg_latency_ms, causal_effect_ms, 0u64]);
    }
    match prover.prove(&instance) {
        Ok(proof) => {
            let verifier = MpcVerifier::new();
            let report = verifier.verify(&proof);
            let verified = report.is_valid();
            proof {
                assert(causal_instance(
                    instance,
                    job_id@,
                    party_id,
                    active_queries,
                    avg_latency_ms,
                    causal_effect_ms,
                    samples_used,
                    retrain_cycle,
                ));
                if job_id@.len() > 0 && party_id != 0 {
                    lemma_issued_proof_verifies(prover, instance, proof);
                }
            }
            (Ok(proof), verified)
        },
        Err(e) => (Err(e), false),
    }
}

} // verus!
