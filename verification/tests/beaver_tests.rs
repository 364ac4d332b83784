use mpc_node::beaver::{generate_single_triple, verify_triple, OfflinePhase, TriplePool};
use mpc_node::field::FieldElement;
use mpc_node::mac::MacKey;

fn setup_key() -> MacKey {
    MacKey::from_value(7)
}

#[test]
fn test_generate_single_triple() {
    let key = setup_key();
    let triple = generate_single_triple(&key);
    let expected_c = triple.a.value.mul(&triple.b.value);
    assert_eq!(triple.c.value, expected_c);
}

#[test]
fn test_verify_triple_valid() {
    let key = setup_key();
    let triple = generate_single_triple(&key);
    assert!(verify_triple(&triple, &key));
}

#[test]
fn test_verify_triple_tampered_c() {
    let key = setup_key();
    let mut triple = generate_single_triple(&key);
    triple.c.value = FieldElement::new(999);
    assert!(!verify_triple(&triple, &key));
}

#[test]
fn test_pool_generate_correct_count() {
    let key = setup_key();
    let mut pool = TriplePool::new();
    pool.generate(10, &key);
    assert_eq!(pool.remaining(), 10);
}

#[test]
fn test_pool_next_consumes_triple() {
    let key = setup_key();
    let mut pool = TriplePool::new();
    pool.generate(5, &key);
    let triple = pool.next();
    assert!(triple.is_some());
    assert_eq!(pool.remaining(), 4);
    assert_eq!(pool.consumed(), 1);
}

#[test]
fn test_pool_exhausted_returns_none() {
    let key = setup_key();
    let mut pool = TriplePool::new();
    pool.generate(2, &key);
    pool.next();
    pool.next();
    assert!(pool.is_empty());
    assert!(pool.next().is_none());
}

#[test]
fn test_pool_reset() {
    let key = setup_key();
    let mut pool = TriplePool::new();
    pool.generate(3, &key);
    pool.next();
    pool.next();
    assert_eq!(pool.remaining(), 1);
    pool.reset();
    assert_eq!(pool.remaining(), 3);
}

#[test]
fn test_all_generated_triples_are_valid() {
    let key = setup_key();
    let mut pool = TriplePool::new();
    pool.generate(20, &key);
    let mut seen = 0;
    while let Some(triple) = pool.next() {
        assert!(verify_triple(&triple, &key));
        seen += 1;
    }
    assert_eq!(seen, 20);
}

#[test]
fn test_offline_phase_initialization() {
    let key = setup_key();
    let offline = OfflinePhase::new(5, 3, key);
    assert_eq!(offline.multiplications_remaining(), 15);
}

#[test]
fn test_offline_phase_verify_all_triples() {
    let key = setup_key();
    let offline = OfflinePhase::new(10, 3, key);
    assert!(offline.verify_all_triples());
}

#[test]
fn test_offline_phase_get_triple() {
    let key = setup_key();
    let mut offline = OfflinePhase::new(5, 3, key);
    let before = offline.multiplications_remaining();
    let triple = offline.get_triple();
    assert!(triple.is_some());
    assert_eq!(offline.multiplications_remaining(), before - 1);
}

#[test]
fn test_triples_are_random() {
    let key = setup_key();
    let t1 = generate_single_triple(&key);
    let t2 = generate_single_triple(&key);
    assert_ne!(t1.a.value.value, t2.a.value.value);
}

#[test]
fn beaver_pool_add_triple_then_next() {
    let key = setup_key();
    let mut pool = TriplePool::new();
    assert!(pool.is_empty());
    pool.add_triple(3, 5, &key);
    assert_eq!(pool.remaining(), 1);
    let t = pool.next().unwrap();
    assert_eq!(t.c.value.value, 15);
    assert_eq!(t.c.mac_tag.value, 105);
    assert!(pool.is_empty());
}

#[test]
fn beaver_verify_all_triples_after_all_consumed() {
    let mut offline = OfflinePhase::new(2, 3, MacKey::from_value(7));
    while offline.get_triple().is_some() {}
    assert_eq!(offline.multiplications_remaining(), 0);
    assert!(offline.verify_all_triples());
}

#[test]
fn beaver_verify_all_triples_skips_consumed() {
    let mut offline = OfflinePhase::new(2, 3, MacKey::from_value(7));
    offline.mac_key = MacKey::from_value(11);
    assert!(!offline.verify_all_triples());
    while offline.get_triple().is_some() {}
    assert!(offline.verify_all_triples());
}
