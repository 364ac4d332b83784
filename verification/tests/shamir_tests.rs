use mpc_node::field::{FieldElement, PRIME};
use mpc_node::shamir::{reconstruct, split, split_with_coefficients, Share};

#[test]
fn test_split_creates_correct_number_of_shares() {
    let shares = split(12345, 3, 5);
    assert_eq!(shares.len(), 5);
}

#[test]
fn test_reconstruct_with_all_shares() {
    let secret = 99999;
    let shares = split(secret, 3, 5);
    let recovered = reconstruct(&shares);
    assert_eq!(recovered, secret);
}

#[test]
fn test_reconstruct_with_minimum_shares() {
    let secret = 42;
    let shares = split(secret, 3, 5);
    let recovered = reconstruct(&shares[..3]);
    assert_eq!(recovered, secret);
}

#[test]
fn test_reconstruct_with_different_share_subsets() {
    let secret = 777;
    let shares = split(secret, 3, 5);
    let r1 = reconstruct(&shares[0..3]);
    let r2 = reconstruct(&shares[1..4]);
    let r3 = reconstruct(&shares[2..5]);
    assert_eq!(r1, secret);
    assert_eq!(r2, secret);
    assert_eq!(r3, secret);
}

#[test]
fn test_shares_look_random() {
    let secret = 100;
    let shares = split(secret, 3, 5);
    for share in &shares {
        assert_ne!(share.y.value, secret);
    }
}

#[test]
fn test_different_secrets_give_different_shares() {
    let shares1 = split(111, 3, 5);
    let shares2 = split(222, 3, 5);
    assert_ne!(shares1[0].y.value, shares2[0].y.value);
}

#[test]
fn test_large_secret() {
    let secret = PRIME - 1;
    let shares = split(secret, 3, 5);
    let recovered = reconstruct(&shares[..3]);
    assert_eq!(recovered, secret);
}

#[test]
fn test_two_of_three_threshold() {
    let secret = 55555;
    let shares = split(secret, 2, 3);
    let recovered = reconstruct(&shares[..2]);
    assert_eq!(recovered, secret);
}

#[test]
fn test_five_of_seven_threshold() {
    let secret = 123456789;
    let shares = split(secret, 5, 7);
    let recovered = reconstruct(&shares[..5]);
    assert_eq!(recovered, secret);
}

#[test]
fn shamir_split_with_known_polynomial() {
    // f(x) = 5 + 2x + 3x^2
    let cs = vec![FieldElement::new(5), FieldElement::new(2), FieldElement::new(3)];
    let shares = split_with_coefficients(&cs, 3);
    assert_eq!(shares.len(), 3);
    assert_eq!(shares[0].x.value, 1);
    assert_eq!(shares[0].y.value, 10);
    assert_eq!(shares[1].y.value, 21);
    assert_eq!(shares[2].y.value, 38);
    assert_eq!(reconstruct(&shares), 5);
}

#[test]
fn shamir_share_new_reduces() {
    let s = Share::new(PRIME + 1, PRIME + 2);
    assert_eq!(s.x.value, 1);
    assert_eq!(s.y.value, 2);
}
