//! Computation traces of the SPDZ operations and the field constraints that an honest trace
//! satisfies: addition `x + y = z`, Beaver multiplication `z = c + e*b + d*a + e*d` with
//! `e = x - a`, `d = y - b`, and the MAC relation `mac = alpha * value`.
use crate::field::{fadd, fmul, fsub, p, FieldElement, PRIME};
use crate::field::{lemma_cong_add, lemma_cong_canonical, lemma_cong_mul, lemma_cong_multiple, lemma_cong_reduce, cong};
use crate::utils::{challenge_of, hash_field_elements, le_concat, sha256, Transcript};
use vstd::bytes::spec_u64_to_le_bytes;
use vstd::prelude::*;
use vstd::utf8::encode_utf8;

verus! {

/// The kind of computation a trace records.
#[derive(Debug, Clone, Copy, PartialEq, Eq, Structural)]
pub enum ConstraintType {
    Addition,
    Multiplication,
    MacVerify,
    ShareValid,
}

/// The residue of a cell value.
pub open spec fn res(v: u64) -> int {
    v as int % p()
}

/// `x + y = result` in the field.
pub open spec fn addition_holds(x: u64, y: u64, result: u64) -> bool {
    fadd(res(x), res(y)) == res(result)
}

/// `c + e*b + d*a + e*d` with `e = x - a`, `d = y - b`, in the field.
pub open spec fn beaver_expected(x: u64, y: u64, a: u64, b: u64, c: u64) -> int {
    let e = fsub(res(x), res(a));
    let d = fsub(res(y), res(b));
    fadd(fadd(fadd(res(c), fmul(e, res(b))), fmul(d, res(a))), fmul(e, d))
}

/// The Beaver multiplication identity holds for `result`.
pub open spec fn multiplication_holds(x: u64, y: u64, a: u64, b: u64, c: u64, result: u64) -> bool {
    beaver_expected(x, y, a, b, c) == res(result)
}

/// `mac = alpha * value` in the field.
pub open spec fn mac_holds(value: u64, alpha: u64, mac: u64) -> bool {
    fmul(res(alpha), res(value)) == res(mac)
}

/// The rows of a trace as sequences.
pub open spec fn row_views(rows: Seq<Vec<u64>>) -> Seq<Seq<u64>> {
    rows.map_values(|r: Vec<u64>| r@)
}

/// The rows concatenated in order.
pub open spec fn concat_rows(rows: Seq<Seq<u64>>) -> Seq<u64>
    decreases rows.len(),
{
    if rows.len() == 0 {
        Seq::empty()
    } else {
        concat_rows(rows.drop_last()) + rows.last()
    }
}

/// The record of one computation: its kind and a table of `u64` cells.
#[derive(Debug, Clone)]
pub struct ComputationTrace {
    pub constraint_type: ConstraintType,
    pub rows: Vec<Vec<u64>>,
    pub width: usize,
    pub length: usize,
}

impl ComputationTrace {
    /// Cell `c` of row `r`.
    pub open spec fn cell(self, r: int, c: int) -> u64 {
        self.rows@[r]@[c]
    }

    /// All cells, row after row.
    pub open spec fn cells(self) -> Seq<u64> {
        concat_rows(row_views(self.rows@))
    }

    /// The cells that the constraint of the trace's kind reads exist.
    pub open spec fn shape_ok(self) -> bool {
        match self.constraint_type {
            ConstraintType::Addition | ConstraintType::MacVerify => self.rows@.len() > 0
                ==> self.rows@[0]@.len() >= 3,
            ConstraintType::Multiplication => self.rows@.len() >= 3 ==> {
                &&& self.rows@[0]@.len() >= 3
                &&& self.rows@[1]@.len() >= 3
                &&& self.rows@[2]@.len() >= 2
            },
            ConstraintType::ShareValid => true,
        }
    }

    /// The constraint of the trace's kind holds: on the first row for addition and MAC
    /// traces; on the first three rows for multiplication traces, whose first two rows also
    /// carry `e = x - a` and `d = y - b` (as field elements) in their third cells;
    /// share-validity traces always pass.
    pub open spec fn satisfied(self) -> bool {
        match self.constraint_type {
            ConstraintType::Addition => self.rows@.len() > 0 && addition_holds(
                self.cell(0, 0),
                self.cell(0, 1),
                self.cell(0, 2),
            ),
            ConstraintType::Multiplication => {
                &&& self.rows@.len() >= 3
                &&& multiplication_holds(
                    self.cell(0, 0),
                    self.cell(1, 0),
                    self.cell(0, 1),
                    self.cell(1, 1),
                    self.cell(2, 0),
                    self.cell(2, 1),
                )
                &&& res(self.cell(0, 2)) == fsub(res(self.cell(0, 0)), res(self.cell(0, 1)))
                &&& res(self.cell(1, 2)) == fsub(res(self.cell(1, 0)), res(self.cell(1, 1)))
            },
            ConstraintType::MacVerify => self.rows@.len() > 0 && mac_holds(
                self.cell(0, 0),
                self.cell(0, 1),
                self.cell(0, 2),
            ),
            ConstraintType::ShareValid => true,
        }
    }

    /// The trace of `x + y = result`: one row `[x, y, result, 0]`.
    pub fn for_addition(x: u64, y: u64, result: u64) -> (r: ComputationTrace)
        ensures
            r.constraint_type == ConstraintType::Addition,
            row_views(r.rows@) == seq![seq![x, y, result, 0u64]],
            r.width == 4,
            r.length == 1,
    {
        let row = vec![x, y, result, 0u64];
        let rows = vec![row];
        proof {
            assert(row_views(rows@) =~= seq![seq![x, y, result, 0u64]]);
        }
        ComputationTrace { constraint_type: ConstraintType::Addition, rows, width: 4, length: 1 }
    }

    /// The trace of the Beaver product of `x` and `y` with the triple `(a, b, c)`: rows
    /// `[x, a, e, 0]`, `[y, b, d, 0]`, `[c, result, e, d]` with `e = x - a`, `d = y - b` in the
    /// field.
    pub fn for_multiplication(x: u64, y: u64, a: u64, b: u64, c: u64, result: u64) -> (r:
        ComputationTrace)
        ensures
            r.constraint_type == ConstraintType::Multiplication,
            row_views(r.rows@) == seq![
                seq![x, a, fsub(res(x), res(a)) as u64, 0u64],
                seq![y, b, fsub(res(y), res(b)) as u64, 0u64],
                seq![c, result, fsub(res(x), res(a)) as u64, fsub(res(y), res(b)) as u64],
            ],
            r.width == 4,
            r.length == 3,
    {
        let epsilon = FieldElement::new(x).sub(&FieldElement::new(a)).value;
        let delta = FieldElement::new(y).sub(&FieldElement::new(b)).value;
        let rows = vec![
            vec![x, a, epsilon, 0u64],
            vec![y, b, delta, 0u64],
            vec![c, result, epsilon, delta],
        ];
        proof {
            assert(row_views(rows@) =~= seq![
                seq![x, a, fsub(res(x), res(a)) as u64, 0u64],
                seq![y, b, fsub(res(y), res(b)) as u64, 0u64],
                seq![c, result, fsub(res(x), res(a)) as u64, fsub(res(y), res(b)) as u64],
            ]);
        }
        ComputationTrace {
            constraint_type: ConstraintType::Multiplication,
            rows,
            width: 4,
            length: 3,
        }
    }

    /// The trace of `mac = alpha * value`: one row `[value, alpha, mac, 0]`.
    pub fn for_mac_verify(value: u64, alpha: u64, mac: u64) -> (r: ComputationTrace)
        ensures
            r.constraint_type == ConstraintType::MacVerify,
            row_views(r.rows@) == seq![seq![value, alpha, mac, 0u64]],
            r.width == 4,
            r.length == 1,
    {
        let row = vec![value, alpha, mac, 0u64];
        let rows = vec![row];
        proof {
            assert(row_views(rows@) =~= seq![seq![value, alpha, mac, 0u64]]);
        }
        ComputationTrace { constraint_type: ConstraintType::MacVerify, rows, width: 4, length: 1 }
    }

    /// Cell `col` of row `row`.
    pub fn get(&self, row: usize, col: usize) -> (r: u64)
        requires
            row < self.rows@.len(),
            col < self.rows@[row as int]@.len(),
        ensures
            r == self.cell(row as int, col as int),
    {
        self.rows[row][col]
    }

    /// The digest of all cells, row after row, each as eight little-endian bytes.
    pub fn commit(&self) -> (r: [u8; 32])
        ensures
            r@ == sha256(le_concat(self.cells())),
    {
        let flat = flatten_rows(&self.rows);
        hash_field_elements(flat.as_slice())
    }
}

/// All cells of `rows`, row after row.
pub fn flatten_rows(rows: &Vec<Vec<u64>>) -> (r: Vec<u64>)
    ensures
        r@ == concat_rows(row_views(rows@)),
{
    let mut flat: Vec<u64> = Vec::new();
    let mut i: usize = 0;
    while i < rows.len()
        invariant
            i <= rows@.len(),
            flat@ == concat_rows(row_views(rows@).take(i as int)),
        decreases rows@.len() - i,
    {
        let ghost before = flat@;
        let mut j: usize = 0;
        while j < rows[i].len()
            invariant
                i < rows@.len(),
                j <= rows@[i as int]@.len(),
                flat@ == before + rows@[i as int]@.take(j as int),
            decreases rows@[i as int]@.len() - j,
        {
            flat.push(rows[i][j]);
            proof {
                assert(flat@ =~= before + rows@[i as int]@.take(j as int + 1));
            }
            j = j + 1;
        }
        proof {
            let t = row_views(rows@).take(i as int + 1);
            assert(t.drop_last() =~= row_views(rows@).take(i as int));
            assert(rows@[i as int]@.take(rows@[i as int]@.len() as int) =~= rows@[i as int]@);
            assert(flat@ =~= concat_rows(t));
        }
        i = i + 1;
    }
    proof {
        assert(row_views(rows@).take(rows@.len() as int) =~= row_views(rows@));
    }
    flat
}

/// A named check over the cells of a trace.
#[derive(Debug, Clone)]
pub struct Constraint {
    pub name: String,
    pub constraint_type: ConstraintType,
}

impl Constraint {
    /// Whether `x + y = result` in the field.
    pub fn check_addition(x: u64, y: u64, result: u64) -> (r: bool)
        ensures
            r == addition_holds(x, y, result),
    {
        let lhs = FieldElement::new(x).add(&FieldElement::new(y));
        lhs.value == result % PRIME
    }

    /// Whether `result = c + e*b + d*a + e*d` in the field, with `e = x - a`, `d = y - b`.
    pub fn check_multiplication(x: u64, y: u64, a: u64, b: u64, c: u64, result: u64) -> (r: bool)
        ensures
            r == multiplication_holds(x, y, a, b, c, result),
    {
        let x_fe = FieldElement::new(x);
        let y_fe = FieldElement::new(y);
        let a_fe = FieldElement::new(a);
        let b_fe = FieldElement::new(b);
        let c_fe = FieldElement::new(c);
        let epsilon = x_fe.sub(&a_fe);
        let delta = y_fe.sub(&b_fe);
        let term1 = epsilon.mul(&b_fe);
        let term2 = delta.mul(&a_fe);
        let term3 = epsilon.mul(&delta);
        let expected = c_fe.add(&term1).add(&term2).add(&term3);
        expected.value == result % PRIME
    }

    /// Whether `mac = alpha * value` in the field.
    pub fn check_mac(value: u64, alpha: u64, mac: u64) -> (r: bool)
        ensures
            r == mac_holds(value, alpha, mac),
    {
        let computed = FieldElement::new(alpha).mul(&FieldElement::new(value));
        computed.value == mac % PRIME
    }

    /// Whether the trace satisfies the constraint of its kind.
    pub fn verify_trace(trace: &ComputationTrace) -> (r: bool)
        requires
            trace.shape_ok(),
        ensures
            r == trace.satisfied(),
    {
        match trace.constraint_type {
            ConstraintType::Addition => {
                if trace.rows.len() == 0 {
                    return false;
                }
                let row = &trace.rows[0];
                Self::check_addition(row[0], row[1], row[2])
            },
            ConstraintType::Multiplication => {
                if trace.rows.len() < 3 {
                    return false;
                }
                let x = trace.rows[0][0];
                let a = trace.rows[0][1];
                let y = trace.rows[1][0];
                let b = trace.rows[1][1];
                let c = trace.rows[2][0];
                let result = trace.rows[2][1];
                let epsilon = FieldElement::new(x).sub(&FieldElement::new(a)).value;
                let delta = FieldElement::new(y).sub(&FieldElement::new(b)).value;
                epsilon == trace.rows[0][2] % PRIME && delta == trace.rows[1][2] % PRIME
                    && Self::check_multiplication(x, y, a, b, c, result)
            },
            ConstraintType::MacVerify => {
                if trace.rows.len() == 0 {
                    return false;
                }
                let row = &trace.rows[0];
                Self::check_mac(row[0], row[1], row[2])
            },
            ConstraintType::ShareValid => true,
        }
    }
}

/// With an honest triple (`c = a * b`), the multiplication constraint accepts exactly the
/// product: the expected value is `x * y` in the field.
pub proof fn lemma_honest_triple_gives_product(x: u64, y: u64, a: u64, b: u64, c: u64)
    requires
        res(c) == fmul(res(a), res(b)),
    ensures
        beaver_expected(x, y, a, b, c) == fmul(res(x), res(y)),
{
    let xv = res(x);
    let yv = res(y);
    let av = res(a);
    let bv = res(b);
    let cv = res(c);
    lemma_cong_reduce(x as int);
    lemma_cong_reduce(y as int);
    lemma_cong_reduce(a as int);
    lemma_cong_reduce(b as int);
    let e = fsub(xv, av);
    let d = fsub(yv, bv);
    assert(cong(e, xv - av)) by {
        lemma_cong_reduce(xv + p() - av);
        lemma_cong_multiple(xv - av, 1);
    }
    assert(cong(d, yv - bv)) by {
        lemma_cong_reduce(yv + p() - bv);
        lemma_cong_multiple(yv - bv, 1);
    }
    let t1 = fmul(e, bv);
    let r1 = fadd(cv, t1);
    let t2 = fmul(d, av);
    let r2 = fadd(r1, t2);
    let t3 = fmul(e, d);
    let r3 = fadd(r2, t3);
    lemma_cong_reduce(e * bv);
    lemma_cong_mul(e, xv - av, bv, bv);
    lemma_cong_reduce(av * bv);
    lemma_cong_add(cv, av * bv, t1, (xv - av) * bv);
    lemma_cong_reduce(cv + t1);
    lemma_cong_reduce(d * av);
    lemma_cong_mul(d, yv - bv, av, av);
    lemma_cong_add(r1, av * bv + (xv - av) * bv, t2, (yv - bv) * av);
    lemma_cong_reduce(r1 + t2);
    lemma_cong_reduce(e * d);
    lemma_cong_mul(e, xv - av, d, yv - bv);
    lemma_cong_add(r2, av * bv + (xv - av) * bv + (yv - bv) * av, t3, (xv - av) * (yv - bv));
    lemma_cong_reduce(r2 + t3);
    assert(av * bv + (xv - av) * bv + (yv - bv) * av + (xv - av) * (yv - bv) == xv * yv)
        by (nonlinear_arith);
    lemma_cong_reduce(xv * yv);
    lemma_cong_canonical(r3, fmul(xv, yv));
}

/// The bytes that a proof transcript holds: `label`, the UTF-8 job id, the party id as
/// eight little-endian bytes, the commitment, and each public input as eight little-endian
/// bytes.
pub open spec fn transcript_bytes(
    label: Seq<u8>,
    job_id: Seq<char>,
    party_id: u32,
    commitment: Seq<u8>,
    inputs: Seq<u64>,
) -> Seq<u8> {
    label + encode_utf8(job_id) + spec_u64_to_le_bytes(party_id as u64) + commitment + le_concat(
        inputs,
    )
}

/// The label of the transcript an AIR instance draws its challenge from.
pub open spec fn air_label() -> Seq<u8> {
    encode_utf8("mpc-air"@)
}

/// Absorbs the job id, the party id, the commitment and the public inputs, in that order.
pub(crate) fn absorb_statement(
    transcript: &mut Transcript,
    job_id: &String,
    party_id: u32,
    commitment: &[u8; 32],
    inputs: &Vec<u64>,
)
    ensures
        final(transcript)@ == transcript_bytes(
            old(transcript)@,
            job_id@,
            party_id,
            commitment@,
            inputs@,
        ),
{
    let ghost start = transcript@;
    transcript.absorb(job_id.as_str().as_bytes());
    transcript.absorb_u64(party_id as u64);
    transcript.absorb_hash(commitment);
    let ghost head = transcript@;
    let mut i: usize = 0;
    while i < inputs.len()
        invariant
            i <= inputs@.len(),
            transcript@ == head + le_concat(inputs@.take(i as int)),
        decreases inputs@.len() - i,
    {
        transcript.absorb_u64(inputs[i]);
        proof {
            let t = inputs@.take(i as int + 1);
            assert(t.drop_last() =~= inputs@.take(i as int));
            assert(transcript@ =~= head + le_concat(t));
        }
        i = i + 1;
    }
    proof {
        assert(inputs@.take(inputs@.len() as int) =~= inputs@);
        assert(transcript@ =~= transcript_bytes(start, job_id@, party_id, commitment@, inputs@));
    }
}

/// A trace with the public statement about it: who ran which job, and the public inputs.
#[derive(Debug, Clone)]
pub struct AirInstance {
    pub job_id: String,
    pub party_id: u32,
    pub trace: ComputationTrace,
    pub public_inputs: Vec<u64>,
    pub trace_commitment: [u8; 32],
}

impl AirInstance {
    /// Bundles the statement with the trace and commits to the trace.
    pub fn new(job_id: String, party_id: u32, trace: ComputationTrace, public_inputs: Vec<u64>) -> (r:
        AirInstance)
        ensures
            r.job_id == job_id,
            r.party_id == party_id,
            r.trace == trace,
            r.public_inputs == public_inputs,
            r.trace_commitment@ == sha256(le_concat(trace.cells())),
    {
        let commitment = trace.commit();
        AirInstance { job_id, party_id, trace, public_inputs, trace_commitment: commitment }
    }

    /// The Fiat-Shamir challenge of the statement: drawn from a transcript labelled
    /// `mpc-air` that absorbed the job id, the party id, the commitment and the public inputs.
    pub fn fiat_shamir_challenge(&self) -> (r: u64)
        ensures
            r == challenge_of(
                sha256(
                    transcript_bytes(
                        air_label(),
                        self.job_id@,
                        self.party_id,
                        self.trace_commitment@,
                        self.public_inputs@,
                    ),
                ),
            ),
    {
        let mut transcript = Transcript::new("mpc-air");
        absorb_statement(
            &mut transcript,
            &self.job_id,
            self.party_id,
            &self.trace_commitment,
            &self.public_inputs,
        );
        transcript.squeeze_challenge()
    }

    /// Whether the trace satisfies the constraint of its kind.
    pub fn verify_constraints(&self) -> (r: bool)
        requires
            self.trace.shape_ok(),
        ensures
            r == self.trace.satisfied(),
    {
        Constraint::verify_trace(&self.trace)
    }
}

} // verus!
