//! Proof generation: commit to the cells of a satisfied trace with a Merkle tree, draw a
//! Fiat-Shamir challenge, open the cells that the challenge selects, and record the
//! evaluation of the trace's constraint.
use crate::air::{
    absorb_statement, addition_holds, flatten_rows, mac_holds, multiplication_holds,
    transcript_bytes, ComputationTrace, Constraint, ConstraintType, AirInstance,
};
use crate::clock::{elapsed, millis_u64, now};
use crate::oram::ceil_log2;
use crate::text::{decimal, push_decimal};
use crate::utils::{
    challenge_of, digests, leaf_digest, merkle_base, merkle_root, sha256, siblings_for, MerkleProof,
    MerkleTree, Transcript,
};
use vstd::prelude::*;
use vstd::utf8::encode_utf8;

verus! {

/// Why no proof was produced.
#[derive(Debug, Clone, Copy, PartialEq, Eq, Structural)]
pub enum ProofError {
    InvalidTrace,
    ConstraintViolation,
    InvalidWitness,
    ProofTooLarge,
}

impl ProofError {
    /// A sentence describing the error.
    pub fn message(&self) -> (r: &'static str)
        ensures
            *self == ProofError::InvalidTrace ==> r@ == "Invalid computation trace"@,
            *self == ProofError::ConstraintViolation ==> r@ == "Constraint violation detected"@,
            *self == ProofError::InvalidWitness ==> r@ == "Invalid witness data"@,
            *self == ProofError::ProofTooLarge ==> r@ == "Proof exceeds size limit"@,
    {
        match self {
            ProofError::InvalidTrace => "Invalid computation trace",
            ProofError::ConstraintViolation => "Constraint violation detected",
            ProofError::InvalidWitness => "Invalid witness data",
            ProofError::ProofTooLarge => "Proof exceeds size limit",
        }
    }
}

/// One opened cell of the committed trace, with its membership proof.
#[derive(Debug, Clone, PartialEq)]
pub struct TraceQuery {
    pub row: usize,
    pub col: usize,
    pub value: u64,
    pub merkle_proof: MerkleProof,
}

/// The recorded evaluation of one constraint.
#[derive(Debug, Clone, PartialEq)]
pub struct ConstraintEvaluation {
    pub constraint_name: String,
    pub inputs: Vec<u64>,
    pub output: u64,
    pub satisfied: bool,
}

/// A proof that a party's trace satisfies its constraint.
#[derive(Debug, Clone, PartialEq)]
pub struct StarkProof {
    pub proof_id: String,
    pub job_id: String,
    pub party_id: u32,
    pub trace_commitment: [u8; 32],
    pub challenge: u64,
    pub queries: Vec<TraceQuery>,
    pub constraint_evaluations: Vec<ConstraintEvaluation>,
    pub public_inputs: Vec<u64>,
    pub proof_size_bytes: usize,
    pub generation_time_ms: u64,
}

/// Generates proofs for one party with a fixed number of queries.
pub struct MpcProver {
    pub party_id: u32,
    pub num_queries: usize,
}

/// The label of the transcript a proof draws its challenge from.
pub open spec fn stark_label() -> Seq<u8> {
    encode_utf8("mpc-stark"@)
}

/// The challenge of a proof about `cells` under the public statement.
pub open spec fn stark_challenge(
    job_id: Seq<char>,
    party_id: u32,
    cells: Seq<u64>,
    inputs: Seq<u64>,
) -> u64 {
    challenge_of(sha256(transcript_bytes(stark_label(), job_id, party_id, merkle_root(cells), inputs)))
}

/// One step of the generator that spreads the queries.
pub open spec fn lcg_next(s: u64) -> u64 {
    s.wrapping_mul(6364136223846793005).wrapping_add(1442695040888963407)
}

/// The generator state before query `i`.
pub open spec fn query_seed(challenge: u64, i: nat) -> u64
    decreases i,
{
    if i == 0 {
        challenge
    } else {
        lcg_next(query_seed(challenge, (i - 1) as nat))
    }
}

/// The cell that query `i` opens among `count` cells.
pub open spec fn query_cell(challenge: u64, i: nat, count: nat) -> nat {
    ((query_seed(challenge, i) as usize + i * 7919) % (count as int)) as nat
}

/// Query `q` is query `i` of a proof about `trace` with cells `cells` and challenge
/// `challenge`: its position, value and membership proof are those of the selected cell.
pub open spec fn query_matches(
    q: TraceQuery,
    trace: ComputationTrace,
    cells: Seq<u64>,
    challenge: u64,
    i: nat,
) -> bool {
    let idx = query_cell(challenge, i, cells.len());
    let last_row: int = if trace.length > 0 {
        trace.length - 1
    } else {
        0
    };
    &&& q.row == (if idx / (trace.width as nat) < last_row {
        (idx / (trace.width as nat)) as int
    } else {
        last_row
    })
    &&& q.col == idx % (trace.width as nat)
    &&& q.value == cells[idx as int]
    &&& q.merkle_proof.index == idx
    &&& q.merkle_proof.leaf@ == leaf_digest(cells[idx as int])
    &&& digests(q.merkle_proof.siblings@) == siblings_for(
        merkle_base(cells),
        ceil_log2(cells.len()),
        idx,
    )
    &&& q.merkle_proof.root@ == merkle_root(cells)
}

/// The evaluation `e` records `name` applied to `inputs` giving `output`.
pub open spec fn evaluation_is(
    e: ConstraintEvaluation,
    name: Seq<char>,
    inputs: Seq<u64>,
    output: u64,
    satisfied: bool,
) -> bool {
    &&& e.constraint_name@ == name
    &&& e.inputs@ == inputs
    &&& e.output == output
    &&& e.satisfied == satisfied
}

/// The evaluations recorded for `trace`: one for an addition, multiplication or MAC trace
/// with enough rows, none otherwise.
pub open spec fn evaluations_match(trace: ComputationTrace, evals: Seq<ConstraintEvaluation>) -> bool {
    match trace.constraint_type {
        ConstraintType::Addition => if trace.rows@.len() > 0 {
            let (x, y, z) = (trace.cell(0, 0), trace.cell(0, 1), trace.cell(0, 2));
            evals.len() == 1 && evaluation_is(
                evals[0],
                "addition"@,
                seq![x, y],
                z,
                addition_holds(x, y, z),
            )
        } else {
            evals.len() == 0
        },
        ConstraintType::Multiplication => if trace.rows@.len() >= 3 {
            let x = trace.cell(0, 0);
            let a = trace.cell(0, 1);
            let y = trace.cell(1, 0);
            let b = trace.cell(1, 1);
            let c = trace.cell(2, 0);
            let result = trace.cell(2, 1);
            evals.len() == 1 && evaluation_is(
                evals[0],
                "multiplication"@,
                seq![x, y, a, b, c],
                result,
                multiplication_holds(x, y, a, b, c, result),
            )
        } else {
            evals.len() == 0
        },
        ConstraintType::MacVerify => if trace.rows@.len() > 0 {
            let (v, alpha, mac) = (trace.cell(0, 0), trace.cell(0, 1), trace.cell(0, 2));
            evals.len() == 1 && evaluation_is(
                evals[0],
                "mac_verify"@,
                seq![v, alpha],
                mac,
                mac_holds(v, alpha, mac),
            )
        } else {
            evals.len() == 0
        },
        ConstraintType::ShareValid => evals.len() == 0,
    }
}

impl MpcProver {
    /// How many cells a proof about `count` cells opens.
    pub open spec fn query_count(self, count: nat) -> nat {
        if self.num_queries < count {
            self.num_queries as nat
        } else {
            count
        }
    }

    /// `p` is the proof this prover issues for `instance`, apart from its timing.
    pub open spec fn issued(self, instance: AirInstance, p: StarkProof) -> bool {
        let cells = instance.trace.cells();
        let challenge = stark_challenge(
            instance.job_id@,
            instance.party_id,
            cells,
            instance.public_inputs@,
        );
        &&& p.proof_id@ == "proof-"@ + instance.job_id@ + "-"@ + decimal(instance.party_id as nat)
        &&& p.job_id@ == instance.job_id@
        &&& p.party_id == instance.party_id
        &&& p.trace_commitment@ == merkle_root(cells)
        &&& p.challenge == challenge
        &&& p.queries@.len() == self.query_count(cells.len())
        &&& forall|i: int|
            0 <= i < p.queries@.len() ==> query_matches(
                #[trigger] p.queries@[i],
                instance.trace,
                cells,
                challenge,
                i as nat,
            )
        &&& evaluations_match(instance.trace, p.constraint_evaluations@)
        &&& p.public_inputs@ == instance.public_inputs@
        &&& p.proof_size_bytes == 0
    }

    /// A prover for `party_id` that opens four cells per proof.
    pub fn new(party_id: u32) -> (r: MpcProver)
        ensures
            r.party_id == party_id,
            r.num_queries == 4,
    {
        MpcProver { party_id, num_queries: 4 }
    }

    /// A prover for `party_id` that opens `num_queries` cells per proof.
    pub fn with_security(party_id: u32, num_queries: usize) -> (r: MpcProver)
        ensures
            r.party_id == party_id,
            r.num_queries == num_queries,
    {
        MpcProver { party_id, num_queries }
    }

    /// A proof for `instance`: refused with `ConstraintViolation` when the trace does not
    /// satisfy its constraint, with `InvalidTrace` when it has no cells.
    pub fn prove(&self, instance: &AirInstance) -> (r: Result<StarkProof, ProofError>)
        requires
            instance.trace.shape_ok(),
            instance.trace.cells().len() <= usize::MAX / 8 + 1,
            instance.trace.satisfied() && instance.trace.cells().len() > 0 && self.num_queries > 0
                ==> instance.trace.width > 0,
        ensures
            !instance.trace.satisfied() ==> r == Err::<StarkProof, ProofError>(
                ProofError::ConstraintViolation,
            ),
            instance.trace.satisfied() && instance.trace.cells().len() == 0 ==> r == Err::<
                StarkProof,
                ProofError,
            >(ProofError::InvalidTrace),
            instance.trace.satisfied() && instance.trace.cells().len() > 0 ==> r is Ok
                && self.issued(*instance, r->Ok_0),
    {
        let start = now();
        if !Constraint::verify_trace(&instance.trace) {
            return Err(ProofError::ConstraintViolation);
        }
        let flat_trace = flatten_rows(&instance.trace.rows);
        if flat_trace.len() == 0 {
            return Err(ProofError::InvalidTrace);
        }
        let merkle_tree = MerkleTree::new(flat_trace.as_slice());
        let trace_commitment = merkle_tree.root();
        let mut transcript = Transcript::new("mpc-stark");
        absorb_statement(
            &mut transcript,
            &instance.job_id,
            instance.party_id,
            &trace_commitment,
            &instance.public_inputs,
        );
        let challenge = transcript.squeeze_challenge();
        let queries = self.generate_queries(&instance.trace, &merkle_tree, &flat_trace, challenge);
        let constraint_evaluations = self.evaluate_constraints(&instance.trace);
        let mut proof_id = String::from_str("proof-");
        proof_id.append(instance.job_id.as_str());
        proof_id.append("-");
        push_decimal(&mut proof_id, instance.party_id as u64);
        let public_inputs = copy_values(&instance.public_inputs);
        let generation_time_ms = millis_u64(&elapsed(&start));
        Ok(
            StarkProof {
                proof_id,
                job_id: instance.job_id.clone(),
                party_id: instance.party_id,
                trace_commitment,
                challenge,
                queries,
                constraint_evaluations,
                public_inputs,
                proof_size_bytes: 0,
                generation_time_ms,
            },
        )
    }

    /// The queries of a proof about `flat_trace`, committed by `tree`, under `challenge`.
    fn generate_queries(
        &self,
        trace: &ComputationTrace,
        tree: &MerkleTree,
        flat_trace: &Vec<u64>,
        challenge: u64,
    ) -> (r: Vec<TraceQuery>)
        requires
            tree.wf(),
            tree.base() == merkle_base(flat_trace@),
            digests(tree.leaves@) == flat_trace@.map_values(|v: u64| leaf_digest(v)),
            flat_trace@.len() > 0 && self.num_queries > 0 ==> trace.width > 0,
        ensures
            r@.len() == self.query_count(flat_trace@.len()),
            forall|i: int|
                0 <= i < r@.len() ==> query_matches(
                    #[trigger] r@[i],
                    *trace,
                    flat_trace@,
                    challenge,
                    i as nat,
                ),
    {
        let mut queries: Vec<TraceQuery> = Vec::new();
        let total_cells = flat_trace.len();
        if total_cells == 0 {
            return queries;
        }
        let count = if self.num_queries < total_cells {
            self.num_queries
        } else {
            total_cells
        };
        let mut seed = challenge;
        let mut i: usize = 0;
        while i < count
            invariant
                tree.wf(),
                tree.base() == merkle_base(flat_trace@),
                digests(tree.leaves@) == flat_trace@.map_values(|v: u64| leaf_digest(v)),
                total_cells == flat_trace@.len(),
                total_cells > 0,
                count == self.query_count(total_cells as nat),
                count > 0 ==> trace.width > 0,
                i <= count,
                seed == query_seed(challenge, i as nat),
                queries@.len() == i,
                forall|j: int|
                    0 <= j < i ==> query_matches(
                        #[trigger] queries@[j],
                        *trace,
                        flat_trace@,
                        challenge,
                        j as nat,
                    ),
            decreases count - i,
        {
            let q = open_query(trace, tree, flat_trace, challenge, seed, i);
            queries.push(q);
            seed = seed.wrapping_mul(6364136223846793005).wrapping_add(1442695040888963407);
            i = i + 1;
        }
        queries
    }

    /// The evaluation of the constraint of `trace`'s kind.
    fn evaluate_constraints(&self, trace: &ComputationTrace) -> (r: Vec<ConstraintEvaluation>)
        requires
            trace.shape_ok(),
        ensures
            evaluations_match(*trace, r@),
    {
        let mut evaluations: Vec<ConstraintEvaluation> = Vec::new();
        match trace.constraint_type {
            ConstraintType::Addition => {
                if trace.rows.len() > 0 {
                    let row = &trace.rows[0];
                    evaluations.push(
                        ConstraintEvaluation {
                            constraint_name: String::from_str("addition"),
                            inputs: vec![row[0], row[1]],
                            output: row[2],
                            satisfied: Constraint::check_addition(row[0], row[1], row[2]),
                        },
                    );
                }
            },
            ConstraintType::Multiplication => {
                if trace.rows.len() >= 3 {
                    let x = trace.rows[0][0];
                    let a = trace.rows[0][1];
                    let y = trace.rows[1][0];
                    let b = trace.rows[1][1];
                    let c = trace.rows[2][0];
                    let result = trace.rows[2][1];
                    evaluations.push(
                        ConstraintEvaluation {
                            constraint_name: String::from_str("multiplication"),
                            inputs: vec![x, y, a, b, c],
                            output: result,
                            satisfied: Constraint::check_multiplication(x, y, a, b, c, result),
                        },
                    );
                }
            },
            ConstraintType::MacVerify => {
                if trace.rows.len() > 0 {
                    let row = &trace.rows[0];
                    evaluations.push(
                        ConstraintEvaluation {
                            constraint_name: String::from_str("mac_verify"),
                            inputs: vec![row[0], row[1]],
                            output: row[2],
                            satisfied: Constraint::check_mac(row[0], row[1], row[2]),
                        },
                    );
                }
            },
            ConstraintType::ShareValid => {},
        }
        evaluations
    }
}

/// Query `i` of a proof about `flat_trace` under `challenge`, with `seed` the generator
/// state before it.
fn open_query(
    trace: &ComputationTrace,
    tree: &MerkleTree,
    flat_trace: &Vec<u64>,
    challenge: u64,
    seed: u64,
    i: usize,
) -> (q: TraceQuery)
    requires
        tree.wf(),
        tree.base() == merkle_base(flat_trace@),
        digests(tree.leaves@) == flat_trace@.map_values(|v: u64| leaf_digest(v)),
        flat_trace@.len() > 0,
        trace.width > 0,
        seed == query_seed(challenge, i as nat),
    ensures
        query_matches(q, *trace, flat_trace@, challenge, i as nat),
{
    let total_cells = flat_trace.len();
    let flat_idx = select_cell(seed, i, total_cells);
    let row = flat_idx / trace.width;
    let col = flat_idx % trace.width;
    let last_row = if trace.length > 0 {
        trace.length - 1
    } else {
        0
    };
    let row = if row < last_row {
        row
    } else {
        last_row
    };
    let last_leaf = tree.leaves.len() - 1;
    let leaf_idx = if flat_idx < last_leaf {
        flat_idx
    } else {
        last_leaf
    };
    let merkle_proof = tree.membership_proof(leaf_idx);
    proof {
        assert(flat_idx as nat == query_cell(challenge, i as nat, total_cells as nat));
        assert(digests(tree.leaves@)[flat_idx as int] == tree.leaves@[flat_idx as int]@);
        assert(merkle_proof.leaf@ == leaf_digest(flat_trace@[flat_idx as int]));
    }
    TraceQuery { row, col, value: flat_trace[flat_idx], merkle_proof }
}

/// `(seed + 7919 * i) mod total`, with the seed read as a `usize`.
fn select_cell(seed: u64, i: usize, total: usize) -> (r: usize)
    requires
        total > 0,
    ensures
        r == ((seed as usize) as int + i * 7919) % (total as int),
{
    let sum = (seed as usize) as u128 + (i as u128) * 7919;
    (sum % (total as u128)) as usize
}

/// A copy of `v`.
fn copy_values(v: &Vec<u64>) -> (r: Vec<u64>)
    ensures
        r@ == v@,
{
    let mut out: Vec<u64> = Vec::new();
    let mut i: usize = 0;
    while i < v.len()
        invariant
            i <= v@.len(),
            out@ == v@.take(i as int),
        decreases v@.len() - i,
    {
        out.push(v[i]);
        proof {
            assert(out@ =~= v@.take(i as int + 1));
        }
        i = i + 1;
    }
    proof {
        assert(v@.take(v@.len() as int) =~= v@);
    }
    out
}

} // verus!
