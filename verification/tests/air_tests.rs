use mpc_node::air::{AirInstance, ComputationTrace, Constraint, ConstraintType};
use mpc_node::field::{FieldElement, PRIME};
use mpc_node::utils::hash_field_elements;

#[test]
fn test_addition_constraint_valid() {
    let x = 10u64;
    let y = 20u64;
    let result = 30u64;
    assert!(Constraint::check_addition(x, y, result));
}

#[test]
fn test_addition_constraint_invalid() {
    assert!(!Constraint::check_addition(10, 20, 31));
}

#[test]
fn test_addition_constraint_wraps_prime() {
    let x = PRIME - 1;
    let y = 2;
    let result = 1;
    assert!(Constraint::check_addition(x, y, result));
}

#[test]
fn test_multiplication_constraint_valid() {
    let x = 6u64;
    let y = 7u64;
    let a = 2u64;
    let b = 3u64;
    let c = 6u64;
    let result = FieldElement::new(x).mul(&FieldElement::new(y)).value;
    assert!(Constraint::check_multiplication(x, y, a, b, c, result));
}

#[test]
fn test_multiplication_constraint_invalid() {
    assert!(!Constraint::check_multiplication(6, 7, 2, 3, 6, 999));
}

#[test]
fn test_mac_constraint_valid() {
    let alpha = 7u64;
    let value = 10u64;
    let mac = FieldElement::new(alpha).mul(&FieldElement::new(value)).value;
    assert!(Constraint::check_mac(value, alpha, mac));
}

#[test]
fn test_mac_constraint_invalid() {
    assert!(!Constraint::check_mac(10, 7, 999));
}

#[test]
fn test_addition_trace_creation() {
    let trace = ComputationTrace::for_addition(10, 20, 30);
    assert_eq!(trace.length, 1);
    assert_eq!(trace.width, 4);
    assert_eq!(trace.get(0, 0), 10);
    assert_eq!(trace.get(0, 1), 20);
    assert_eq!(trace.get(0, 2), 30);
}

#[test]
fn test_multiplication_trace_creation() {
    let trace = ComputationTrace::for_multiplication(6, 7, 2, 3, 6, 42);
    assert_eq!(trace.length, 3);
    assert_eq!(trace.width, 4);
}

#[test]
fn test_mac_trace_creation() {
    let alpha = 7u64;
    let value = 10u64;
    let mac = 70u64;
    let trace = ComputationTrace::for_mac_verify(value, alpha, mac);
    assert_eq!(trace.length, 1);
    assert_eq!(trace.get(0, 0), value);
    assert_eq!(trace.get(0, 1), alpha);
    assert_eq!(trace.get(0, 2), mac);
}

#[test]
fn test_trace_commitment_deterministic() {
    let t1 = ComputationTrace::for_addition(10, 20, 30);
    let t2 = ComputationTrace::for_addition(10, 20, 30);
    assert_eq!(t1.commit(), t2.commit());
}

#[test]
fn test_trace_commitment_different_traces() {
    let t1 = ComputationTrace::for_addition(10, 20, 30);
    let t2 = ComputationTrace::for_addition(10, 20, 31);
    assert_ne!(t1.commit(), t2.commit());
}

#[test]
fn test_verify_trace_addition_valid() {
    let trace = ComputationTrace::for_addition(10, 20, 30);
    assert!(Constraint::verify_trace(&trace));
}

#[test]
fn test_verify_trace_addition_invalid() {
    let mut trace = ComputationTrace::for_addition(10, 20, 30);
    trace.rows[0][2] = 999;
    assert!(!Constraint::verify_trace(&trace));
}

#[test]
fn test_verify_trace_multiplication_valid() {
    let x = 6u64;
    let y = 7u64;
    let a = 2u64;
    let b = 3u64;
    let c = 6u64;
    let result = FieldElement::new(x).mul(&FieldElement::new(y)).value;
    let trace = ComputationTrace::for_multiplication(x, y, a, b, c, result);
    assert!(Constraint::verify_trace(&trace));
}

#[test]
fn test_verify_trace_mac_valid() {
    let alpha = 7u64;
    let value = 5u64;
    let mac = FieldElement::new(alpha).mul(&FieldElement::new(value)).value;
    let trace = ComputationTrace::for_mac_verify(value, alpha, mac);
    assert!(Constraint::verify_trace(&trace));
}

#[test]
fn test_air_instance_creation() {
    let trace = ComputationTrace::for_addition(10, 20, 30);
    let instance = AirInstance::new("job-1".to_string(), 1, trace, vec![30]);
    assert_eq!(instance.party_id, 1);
    assert!(!instance.trace_commitment.iter().all(|&b| b == 0));
}

#[test]
fn test_air_fiat_shamir_deterministic() {
    let t1 = ComputationTrace::for_addition(10, 20, 30);
    let t2 = ComputationTrace::for_addition(10, 20, 30);
    let i1 = AirInstance::new("job-1".to_string(), 1, t1, vec![30]);
    let i2 = AirInstance::new("job-1".to_string(), 1, t2, vec![30]);
    assert_eq!(i1.fiat_shamir_challenge(), i2.fiat_shamir_challenge());
}

#[test]
fn test_air_fiat_shamir_different_jobs() {
    let t1 = ComputationTrace::for_addition(10, 20, 30);
    let t2 = ComputationTrace::for_addition(10, 20, 30);
    let i1 = AirInstance::new("job-1".to_string(), 1, t1, vec![30]);
    let i2 = AirInstance::new("job-2".to_string(), 1, t2, vec![30]);
    assert_ne!(i1.fiat_shamir_challenge(), i2.fiat_shamir_challenge());
}

#[test]
fn test_air_verify_constraints() {
    let trace = ComputationTrace::for_addition(10, 20, 30);
    let instance = AirInstance::new("job-1".to_string(), 1, trace, vec![30]);
    assert!(instance.verify_constraints());
}

#[test]
fn air_multiplication_trace_rows() {
    let trace = ComputationTrace::for_multiplication(6, 7, 2, 3, 6, 42);
    assert_eq!(trace.rows, vec![vec![6, 2, 4, 0], vec![7, 3, 4, 0], vec![6, 42, 4, 4]]);
    let wrapped = ComputationTrace::for_multiplication(1, 0, 3, 0, 0, 0);
    assert_eq!(wrapped.get(0, 2), PRIME - 2);
}

#[test]
fn air_commit_hashes_cells_in_row_order() {
    let trace = ComputationTrace::for_multiplication(6, 7, 2, 3, 6, 42);
    let cells = vec![6u64, 2, 4, 0, 7, 3, 4, 0, 6, 42, 4, 4];
    assert_eq!(trace.commit(), hash_field_elements(&cells));
}

#[test]
fn air_honest_beaver_triple_accepts_product() {
    let (x, y, a, b) = (PRIME - 5, 123456u64, 99u64, PRIME - 1);
    let c = FieldElement::new(a).mul(&FieldElement::new(b)).value;
    let product = FieldElement::new(x).mul(&FieldElement::new(y)).value;
    assert!(Constraint::check_multiplication(x, y, a, b, c, product));
    assert!(!Constraint::check_multiplication(x, y, a, b, c, product + 1));
}

#[test]
fn air_short_traces_fail() {
    let mut trace = ComputationTrace::for_addition(1, 2, 3);
    trace.rows.clear();
    assert!(!Constraint::verify_trace(&trace));
    let mut mul = ComputationTrace::for_multiplication(6, 7, 2, 3, 6, 42);
    mul.rows.pop();
    assert!(!Constraint::verify_trace(&mul));
    let share_valid = ComputationTrace {
        constraint_type: ConstraintType::ShareValid,
        rows: vec![],
        width: 0,
        length: 0,
    };
    assert!(Constraint::verify_trace(&share_valid));
}

#[test]
fn air_fiat_shamir_depends_on_inputs() {
    let i1 = AirInstance::new("job-1".to_string(), 1, ComputationTrace::for_addition(10, 20, 30), vec![30]);
    let i2 = AirInstance::new("job-1".to_string(), 1, ComputationTrace::for_addition(10, 20, 30), vec![31]);
    let i3 = AirInstance::new("job-1".to_string(), 2, ComputationTrace::for_addition(10, 20, 30), vec![30]);
    assert_ne!(i1.fiat_shamir_challenge(), i2.fiat_shamir_challenge());
    assert_ne!(i1.fiat_shamir_challenge(), i3.fiat_shamir_challenge());
}

#[test]
fn air_multiplication_trace_checks_epsilon_and_delta_cells() {
    let trace = ComputationTrace::for_multiplication(6, 7, 2, 3, 6, 42);
    assert!(Constraint::verify_trace(&trace));
    let mut bad_epsilon = trace.clone();
    bad_epsilon.rows[0][2] = 5;
    assert!(!Constraint::verify_trace(&bad_epsilon));
    let mut bad_delta = trace.clone();
    bad_delta.rows[1][2] = 0;
    assert!(!Constraint::verify_trace(&bad_delta));
}

#[test]
fn air_epsilon_cell_compared_as_field_element() {
    let mut trace = ComputationTrace::for_multiplication(6, 7, 2, 3, 6, 42);
    trace.rows[0][2] += PRIME;
    trace.rows[1][2] += PRIME;
    assert!(Constraint::verify_trace(&trace));
}
