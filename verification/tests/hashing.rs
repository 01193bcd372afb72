use ternary_hash::{fingerprint32, fingerprint64, hamming_matches, TernaryHash, Trit, NEG, POS, ZERO};

// --- TernaryHash ---

#[test]
fn test_hash_empty() {
    let h = TernaryHash::new();
    assert_eq!(h.finish(), 0);
}

#[test]
fn test_hash_deterministic() {
    let data: Vec<Trit> = vec![1, 0, -1, 1, 1, 0, -1];
    let h1 = TernaryHash::hash_slice(&data);
    let h2 = TernaryHash::hash_slice(&data);
    assert_eq!(h1, h2);
}

#[test]
fn test_hash_different_inputs() {
    let a: Vec<Trit> = vec![1, 1, 1];
    let b: Vec<Trit> = vec![-1, -1, -1];
    assert_ne!(TernaryHash::hash_slice(&a), TernaryHash::hash_slice(&b));
}

#[test]
fn test_hash_order_matters() {
    let a: Vec<Trit> = vec![1, 0, -1];
    let b: Vec<Trit> = vec![-1, 0, 1];
    assert_ne!(TernaryHash::hash_slice(&a), TernaryHash::hash_slice(&b));
}

#[test]
fn test_hash_reset() {
    let mut h = TernaryHash::new();
    h.update_slice(&[1, 0, -1]);
    assert_ne!(h.finish(), 0);
    h.reset();
    assert_eq!(h.finish(), 0);
}

#[test]
fn test_hash_exact_value() {
    // codes 2, 1, 0: ((0*31 + 3)*31 + 2)*31 + 1
    assert_eq!(TernaryHash::hash_slice(&[POS, ZERO, NEG]), 2946);
    assert_eq!(TernaryHash::hash_slice(&[]), 0);
}

#[test]
fn test_hash_long_sequences_reduce_modulo_mersenne_prime() {
    let ones: Vec<Trit> = vec![1; 15];
    assert_eq!(TernaryHash::hash_slice(&ones), 1483858814141844828);
    assert_eq!(TernaryHash::hash_slice(&[NEG]), 1);
    let long: Vec<Trit> = [POS, ZERO, NEG].repeat(20);
    let whole = TernaryHash::hash_slice(&long);
    assert_eq!(whole, 1054358968600060841);
    let mut h = TernaryHash::new();
    h.update_slice(&long[..37]);
    h.update_slice(&long[37..]);
    assert_eq!(h.finish(), whole);
}

#[test]
fn test_hash_incremental_matches_one_shot() {
    let data: Vec<Trit> = vec![POS, ZERO, NEG, POS, ZERO];
    let hash = TernaryHash::hash_slice(&data);
    let mut h = TernaryHash::new();
    h.update_slice(&data[..3]);
    h.update_slice(&data[3..]);
    assert_eq!(h.finish(), hash);
    let mut g = TernaryHash::default();
    for &t in &data {
        g.update(t);
    }
    assert_eq!(g.finish(), hash);
}

#[test]
fn test_hash_custom_params_reduce_modulo() {
    let mut h = TernaryHash::with_params(10, 7);
    h.update(POS); // (0*10 + 2 + 1) % 7 = 3
    assert_eq!(h.finish(), 3);
    h.update(NEG); // (3*10 + 0 + 1) % 7 = 3
    assert_eq!(h.finish(), 3);
    h.update(ZERO); // (3*10 + 1 + 1) % 7 = 4
    assert_eq!(h.finish(), 4);
    h.reset();
    h.update(ZERO); // base and modulus survive a reset: (0 + 2) % 7
    assert_eq!(h.finish(), 2);
}

// --- Fingerprints ---

#[test]
fn test_fingerprint32_deterministic() {
    let d: Vec<Trit> = vec![1, 0, -1];
    assert_eq!(fingerprint32(&d), fingerprint32(&d));
}

#[test]
fn test_fingerprint64_different() {
    let a: Vec<Trit> = vec![1, 1, 1];
    let b: Vec<Trit> = vec![-1, -1, -1];
    assert_ne!(fingerprint64(&a), fingerprint64(&b));
}

#[test]
fn test_fingerprint_exact_values() {
    assert_eq!(fingerprint32(&[]), 0x811c9dc5);
    assert_eq!(fingerprint32(&[1, 0, -1]), 2726028260);
    assert_eq!(fingerprint64(&[]), 0xcbf29ce484222325);
    assert_eq!(fingerprint64(&[1, 1, 1]), 16908437251554604741);
    assert_eq!(fingerprint64(&[-1, -1, -1]), 15658191375538532279);
}

// --- Hamming matches ---

#[test]
fn test_hamming_matches_identical() {
    let v: Vec<Trit> = vec![1, 0, -1, 1];
    assert_eq!(hamming_matches(&v, &v), Some(4));
}

#[test]
fn test_hamming_matches_opposite() {
    let a: Vec<Trit> = vec![1, 0, -1];
    let b: Vec<Trit> = vec![-1, 0, 1];
    // Only the middle element matches: similarity 1/3.
    assert_eq!(hamming_matches(&a, &b), Some(1));
    assert_eq!(hamming_matches(&b, &a), Some(1));
}

#[test]
fn test_hamming_matches_rejects_mismatched_or_empty() {
    assert_eq!(hamming_matches(&[1, 0], &[1]), None);
    assert_eq!(hamming_matches(&[], &[]), None);
}
