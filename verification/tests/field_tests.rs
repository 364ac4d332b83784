use mpc_node::field::{FieldElement, PRIME};

#[test]
fn test_new_reduces_mod_prime() {
    let a = FieldElement::new(PRIME + 10);
    assert_eq!(a.value, 10);
}

#[test]
fn test_addition() {
    let a = FieldElement::new(100);
    let b = FieldElement::new(200);
    let c = a.add(&b);
    assert_eq!(c.value, 300);
}

#[test]
fn test_addition_wraps_around_prime() {
    let a = FieldElement::new(PRIME - 1);
    let b = FieldElement::new(2);
    let c = a.add(&b);
    assert_eq!(c.value, 1);
}

#[test]
fn test_subtraction() {
    let a = FieldElement::new(300);
    let b = FieldElement::new(100);
    let c = a.sub(&b);
    assert_eq!(c.value, 200);
}

#[test]
fn test_subtraction_no_negative() {
    let a = FieldElement::new(3);
    let b = FieldElement::new(5);
    let c = a.sub(&b);
    assert_eq!(c.value, PRIME - 2);
}

#[test]
fn test_multiplication() {
    let a = FieldElement::new(6);
    let b = FieldElement::new(7);
    let c = a.mul(&b);
    assert_eq!(c.value, 42);
}

#[test]
fn test_inverse() {
    let a = FieldElement::new(42);
    let inv = a.inverse();
    let product = a.mul(&inv);
    assert_eq!(product.value, 1);
}

#[test]
fn test_division() {
    let a = FieldElement::new(42);
    let b = FieldElement::new(6);
    let c = a.div(&b);
    let check = c.mul(&b);
    assert_eq!(check.value, 42);
}

#[test]
fn test_zero() {
    let z = FieldElement::zero();
    assert_eq!(z.value, 0);
    assert!(z.is_zero());
}

#[test]
fn test_additive_identity() {
    let a = FieldElement::new(999);
    let zero = FieldElement::zero();
    assert_eq!(a.add(&zero).value, a.value);
}

#[test]
fn test_multiplicative_identity() {
    let a = FieldElement::new(999);
    let one = FieldElement::one();
    assert_eq!(a.mul(&one).value, a.value);
}

#[test]
fn field_pow_small_exponents() {
    let a = FieldElement::new(3);
    assert_eq!(a.pow(0).value, 1);
    assert_eq!(a.pow(1).value, 3);
    assert_eq!(a.pow(5).value, 243);
}

#[test]
fn field_pow_fermat() {
    let a = FieldElement::new(123456789);
    assert_eq!(a.pow(PRIME - 1).value, 1);
}

#[test]
fn field_subtraction_undoes_addition() {
    let a = FieldElement::new(PRIME - 7);
    let b = FieldElement::new(12345);
    assert_eq!(a.add(&b).sub(&b).value, a.value);
}

#[test]
fn field_multiplication_wraps() {
    let a = FieldElement::new(PRIME - 1);
    let b = FieldElement::new(PRIME - 1);
    assert_eq!(a.mul(&b).value, 1);
}

#[test]
fn field_nonzero_is_not_zero() {
    assert!(!FieldElement::new(5).is_zero());
    assert!(FieldElement::new(PRIME).is_zero());
}

#[test]
fn field_inverse_of_large_elements() {
    for v in [1u64, 2, 37, 1_000_000_007, PRIME - 1, PRIME - 2, 1 << 60] {
        let a = FieldElement::new(v);
        assert_eq!(a.mul(&a.inverse()).value, 1);
    }
}

#[test]
fn field_division_undone_by_multiplication() {
    let a = FieldElement::new(123_456_789_012);
    let b = FieldElement::new(PRIME - 5);
    assert_eq!(a.div(&b).mul(&b), a);
}
