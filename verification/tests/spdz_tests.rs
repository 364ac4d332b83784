use mpc_node::field::FieldElement;
use mpc_node::mac::{AuthenticatedShare, MacKey};
use mpc_node::spdz::{
    reconstruct_secret, spdz_add, spdz_add_constant, spdz_mul, spdz_mul_constant, verify_all,
    BeaverTriple, SpdzParty,
};

fn setup_key() -> MacKey {
    MacKey::from_value(7)
}

fn make_shares(
    secret: u64,
    key: &MacKey,
) -> (AuthenticatedShare, AuthenticatedShare, AuthenticatedShare) {
    let p1 = secret / 3;
    let p2 = secret / 3;
    let p3 = secret - p1 - p2;
    (
        AuthenticatedShare::new(p1, key),
        AuthenticatedShare::new(p2, key),
        AuthenticatedShare::new(p3, key),
    )
}

#[test]
fn test_spdz_add_two_shares() {
    let key = setup_key();
    let s1 = AuthenticatedShare::new(10, &key);
    let s2 = AuthenticatedShare::new(20, &key);
    let result = spdz_add(&s1, &s2);
    assert_eq!(result.value.value, 30);
    assert!(result.verify(&key));
}

#[test]
fn test_spdz_add_constant() {
    let key = setup_key();
    let share = AuthenticatedShare::new(10, &key);
    let result = spdz_add_constant(&share, 5, &key, true);
    assert_eq!(result.value.value, 15);
    assert!(result.verify(&key));
}

#[test]
fn test_spdz_add_constant_non_first_party() {
    let key = setup_key();
    let share = AuthenticatedShare::new(10, &key);
    let result = spdz_add_constant(&share, 5, &key, false);
    assert_eq!(result.value.value, 10);
    assert!(result.verify(&key));
}

#[test]
fn test_spdz_mul_constant() {
    let key = setup_key();
    let share = AuthenticatedShare::new(10, &key);
    let result = spdz_mul_constant(&share, 4);
    assert_eq!(result.value.value, 40);
    assert!(result.verify(&key));
}

#[test]
fn test_beaver_triple_relationship() {
    let key = setup_key();
    let triple = BeaverTriple::new(3, 4, &key);
    assert_eq!(triple.a.value.value, 3);
    assert_eq!(triple.b.value.value, 4);
    assert_eq!(triple.c.value.value, 12);
}

#[test]
fn test_spdz_mul_simple() {
    let key = setup_key();
    let share_x = AuthenticatedShare::new(6, &key);
    let share_y = AuthenticatedShare::new(7, &key);
    let triple = BeaverTriple::new(2, 3, &key);
    let result = spdz_mul(&share_x, &share_y, &triple, &key);
    assert_eq!(result.value.value, 42);
}

#[test]
fn test_spdz_mul_by_zero() {
    let key = setup_key();
    let share_x = AuthenticatedShare::new(999, &key);
    let share_y = AuthenticatedShare::new(0, &key);
    let triple = BeaverTriple::new(1, 0, &key);
    let result = spdz_mul(&share_x, &share_y, &triple, &key);
    assert_eq!(result.value.value, 0);
}

#[test]
fn test_spdz_mul_by_one() {
    let key = setup_key();
    let share_x = AuthenticatedShare::new(42, &key);
    let share_y = AuthenticatedShare::new(1, &key);
    let triple = BeaverTriple::new(1, 1, &key);
    let result = spdz_mul(&share_x, &share_y, &triple, &key);
    assert_eq!(result.value.value, 42);
}

#[test]
fn test_verify_all_valid_shares() {
    let key = setup_key();
    let shares = vec![
        AuthenticatedShare::new(10, &key),
        AuthenticatedShare::new(20, &key),
        AuthenticatedShare::new(30, &key),
    ];
    assert!(verify_all(&shares, &key));
}

#[test]
fn test_verify_all_catches_tampered_share() {
    let key = setup_key();
    let mut shares = vec![
        AuthenticatedShare::new(10, &key),
        AuthenticatedShare::new(20, &key),
        AuthenticatedShare::new(30, &key),
    ];
    shares[1].value = FieldElement::new(999);
    assert!(!verify_all(&shares, &key));
}

#[test]
fn test_reconstruct_secret_from_shares() {
    let key = setup_key();
    let (s1, s2, s3) = make_shares(60, &key);
    let shares = vec![s1, s2, s3];
    assert!(verify_all(&shares, &key));
    let result = reconstruct_secret(&shares);
    assert_eq!(result.value, 60);
}

#[test]
fn test_full_mpc_addition_workflow() {
    let key = setup_key();
    let (x1, x2, x3) = make_shares(30, &key);
    let (y1, y2, y3) = make_shares(12, &key);
    let z1 = spdz_add(&x1, &y1);
    let z2 = spdz_add(&x2, &y2);
    let z3 = spdz_add(&x3, &y3);
    let result_shares = vec![z1, z2, z3];
    assert!(verify_all(&result_shares, &key));
    let result = reconstruct_secret(&result_shares);
    assert_eq!(result.value, 42);
}

#[test]
fn spdz_mul_product_share_is_authentic() {
    let key = setup_key();
    let share_x = AuthenticatedShare::new(6, &key);
    let share_y = AuthenticatedShare::new(7, &key);
    let triple = BeaverTriple::new(2, 3, &key);
    let result = spdz_mul(&share_x, &share_y, &triple, &key);
    assert!(result.verify(&key));
}

#[test]
fn spdz_party_keeps_its_key() {
    let party = SpdzParty::new(2, MacKey::from_value(9));
    assert_eq!(party.party_id, 2);
    assert_eq!(party.mac_key.alpha.value, 9);
}

#[test]
fn spdz_reconstruct_empty_is_zero() {
    let shares: Vec<AuthenticatedShare> = Vec::new();
    assert_eq!(reconstruct_secret(&shares).value, 0);
}
