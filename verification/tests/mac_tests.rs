use mpc_node::field::FieldElement;
use mpc_node::mac::{open, AuthenticatedShare, MacKey};

#[test]
fn test_mac_tag_computed_correctly() {
    let key = MacKey::from_value(7);
    let share = AuthenticatedShare::new(5, &key);
    assert_eq!(share.mac_tag.value, 35);
}

#[test]
fn test_valid_share_verifies() {
    let key = MacKey::generate();
    let share = AuthenticatedShare::new(12345, &key);
    assert!(share.verify(&key));
}

#[test]
fn test_tampered_value_fails_verification() {
    let key = MacKey::generate();
    let mut share = AuthenticatedShare::new(100, &key);
    share.value = FieldElement::new(999);
    assert!(!share.verify(&key));
}

#[test]
fn test_tampered_tag_fails_verification() {
    let key = MacKey::generate();
    let mut share = AuthenticatedShare::new(100, &key);
    share.mac_tag = FieldElement::new(999);
    assert!(!share.verify(&key));
}

#[test]
fn test_open_valid_share() {
    let key = MacKey::generate();
    let share = AuthenticatedShare::new(42, &key);
    let result = open(&share, &key);
    assert!(result.is_some());
    assert_eq!(result.unwrap().value, 42);
}

#[test]
fn test_open_tampered_share_returns_none() {
    let key = MacKey::generate();
    let mut share = AuthenticatedShare::new(42, &key);
    share.value = FieldElement::new(100);
    let result = open(&share, &key);
    assert!(result.is_none());
}

#[test]
fn test_add_two_authenticated_shares() {
    let key = MacKey::from_value(3);
    let share1 = AuthenticatedShare::new(10, &key);
    let share2 = AuthenticatedShare::new(20, &key);
    let sum = share1.add(&share2);
    assert_eq!(sum.value.value, 30);
    assert!(sum.verify(&key));
}

#[test]
fn test_add_constant_to_share() {
    let key = MacKey::from_value(3);
    let share = AuthenticatedShare::new(10, &key);
    let constant = FieldElement::new(5);
    let result = share.add_constant(&constant, &key);
    assert_eq!(result.value.value, 15);
    assert!(result.verify(&key));
}

#[test]
fn test_mul_constant_to_share() {
    let key = MacKey::from_value(3);
    let share = AuthenticatedShare::new(10, &key);
    let constant = FieldElement::new(4);
    let result = share.mul_constant(&constant);
    assert_eq!(result.value.value, 40);
    assert!(result.verify(&key));
}

#[test]
fn test_wrong_key_fails_verification() {
    let key1 = MacKey::from_value(7);
    let key2 = MacKey::from_value(13);
    let share = AuthenticatedShare::new(100, &key1);
    assert!(!share.verify(&key2));
}

#[test]
fn test_zero_value_share() {
    let key = MacKey::generate();
    let share = AuthenticatedShare::new(0, &key);
    assert!(share.verify(&key));
    assert_eq!(open(&share, &key).unwrap().value, 0);
}

#[test]
fn mac_share_from_field_elements_keeps_fields() {
    let share = AuthenticatedShare::from_field_elements(FieldElement::new(4), FieldElement::new(28));
    assert_eq!(share.value.value, 4);
    assert_eq!(share.mac_tag.value, 28);
    assert!(share.verify(&MacKey::from_value(7)));
}

#[test]
fn mac_kept_tag_rejects_every_other_value() {
    let key = MacKey::from_value(123_456_789);
    let share = AuthenticatedShare::new(42, &key);
    assert!(share.verify(&key));
    for w in [0u64, 1, 41, 43, 1 << 40] {
        let mut tampered = share.clone();
        tampered.value = FieldElement::new(w);
        assert!(!tampered.verify(&key));
    }
}
