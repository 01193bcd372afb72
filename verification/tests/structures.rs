use ternary_hash::{
    TernaryBloomFilter, TernaryLSH, TernaryMembership, TernaryMinHash, TernarySketch, Trit, NEG,
    POS, ZERO,
};

// --- MinHash ---

#[test]
fn test_minhash_sketch_length() {
    let mh = TernaryMinHash::new(32);
    assert_eq!(mh.sketch().len(), 32);
}

#[test]
fn test_minhash_fresh_sketch_is_max() {
    let mh = TernaryMinHash::new(4);
    assert!(mh.sketch().iter().all(|&v| v == u64::MAX));
}

#[test]
fn test_minhash_exact_minima() {
    let mut mh = TernaryMinHash::new(2);
    mh.push(POS);
    assert_eq!(mh.sketch(), &[10967370418663058919u64, 8911239821507098814u64]);
    mh.push_slice(&[ZERO, NEG]);
    assert_eq!(mh.sketch(), &[0u64, 2637546916795650634u64]);
}

#[test]
fn test_minhash_same_set_all_match() {
    let data: Vec<Trit> = vec![1, 0, -1, 1, 0];
    let mut a = TernaryMinHash::new(64);
    let mut b = TernaryMinHash::new(64);
    a.push_slice(&data);
    b.push_slice(&data);
    assert_eq!(a.matching_hashes(&b), Some(64));
}

#[test]
fn test_minhash_disjoint_few_match() {
    let mut a = TernaryMinHash::new(64);
    let mut b = TernaryMinHash::new(64);
    for _ in 0..100 {
        a.push(1);
        b.push(-1);
    }
    let m = a.matching_hashes(&b).unwrap();
    assert!(m < 32, "disjoint sets should have low similarity, got {}", m);
    assert_eq!(m, 0);
}

#[test]
fn test_minhash_partial_overlap_some_match() {
    let mut a = TernaryMinHash::new(128);
    let mut b = TernaryMinHash::new(128);
    for _ in 0..50 {
        a.push(1);
        a.push(0);
        b.push(0);
        b.push(-1);
    }
    let m = a.matching_hashes(&b).unwrap();
    assert!(m > 0 && m < 128);
    assert_eq!(m, 40);
}

#[test]
fn test_minhash_different_widths_do_not_compare() {
    let a = TernaryMinHash::new(8);
    let b = TernaryMinHash::new(16);
    assert_eq!(a.matching_hashes(&b), None);
}

#[test]
fn test_minhash_order_and_repetition_do_not_matter() {
    let mut a = TernaryMinHash::new(16);
    let mut b = TernaryMinHash::new(16);
    a.push_slice(&[POS, POS]);
    a.push_slice(&[POS, POS]);
    for _ in 0..4 {
        b.push(POS);
    }
    assert_eq!(a.sketch(), b.sketch());
    let mut c = TernaryMinHash::new(16);
    let mut d = TernaryMinHash::new(16);
    c.push_slice(&[NEG, ZERO, POS, ZERO]);
    d.push_slice(&[POS, NEG, ZERO]);
    assert_eq!(c.sketch(), d.sketch());
}

// --- BloomFilter ---

#[test]
fn test_bloom_insert_and_contains() {
    let mut bf = TernaryBloomFilter::new(1024, 3);
    bf.insert(1);
    assert_ne!(bf.contains(1), TernaryMembership::No);
    assert_eq!(bf.contains(-1), TernaryMembership::No);
}

#[test]
fn test_bloom_no_false_negatives() {
    let mut bf = TernaryBloomFilter::new(512, 5);
    let trits: Vec<Trit> = vec![1, 0, -1, 1, -1, 0, 0, 1];
    for &t in &trits {
        bf.insert(t);
    }
    for &t in &trits {
        assert_ne!(bf.contains(t), TernaryMembership::No);
    }
}

#[test]
fn test_bloom_count() {
    let mut bf = TernaryBloomFilter::new(256, 3);
    assert_eq!(bf.count(), 0);
    bf.insert(1);
    bf.insert(0);
    bf.insert(-1);
    assert_eq!(bf.count(), 3);
}

#[test]
fn test_bloom_clear() {
    let mut bf = TernaryBloomFilter::new(256, 3);
    bf.insert(1);
    bf.insert(0);
    bf.clear();
    assert_eq!(bf.count(), 0);
    assert_eq!(bf.contains(1), TernaryMembership::No);
}

#[test]
fn test_bloom_is_absent() {
    let mut bf = TernaryBloomFilter::new(256, 3);
    bf.insert(1);
    assert!(!bf.is_absent(1));
    assert!(bf.is_absent(-1));
}

#[test]
fn test_bloom_yes_then_maybe() {
    let mut bf = TernaryBloomFilter::new(4096, 3);
    bf.insert_slice(&[POS, NEG, ZERO]);
    assert_eq!(bf.count(), 3);
    assert_eq!(bf.contains(POS), TernaryMembership::Yes);
    assert_eq!(bf.contains(NEG), TernaryMembership::Yes);
    bf.insert(POS);
    assert_eq!(bf.contains(ZERO), TernaryMembership::Maybe);
    assert!(!bf.is_absent(NEG));
}

#[test]
fn test_bloom_empty_and_hashless() {
    let bf = TernaryBloomFilter::new(64, 3);
    assert_eq!(bf.contains(POS), TernaryMembership::No);
    let mut none = TernaryBloomFilter::new(0, 0);
    assert_eq!(none.contains(POS), TernaryMembership::No);
    none.insert(POS);
    // With no hash functions every trit "hits", so any insertion makes it present.
    assert_eq!(none.contains(NEG), TernaryMembership::Yes);
}

// --- LSH ---

#[test]
fn test_lsh_identical_are_candidates() {
    let lsh = TernaryLSH::new(8, 4);
    let v: Vec<Trit> = vec![1, 0, -1, 1, 0, -1, 1, 0];
    assert!(lsh.are_candidates(&v, &v));
}

#[test]
fn test_lhash_matching_bands_identical() {
    let lsh = TernaryLSH::new(4, 2);
    let v: Vec<Trit> = vec![1, 0, -1, 1, 0, -1, 1, 0];
    assert_eq!(lsh.matching_bands(&v, &v), 4);
}

#[test]
fn test_lsh_different_vectors() {
    let lsh = TernaryLSH::new(8, 4);
    let a: Vec<Trit> = vec![1, 1, 1, 1, 1, 1, 1, 1];
    let b: Vec<Trit> = vec![-1, -1, -1, -1, -1, -1, -1, -1];
    let matches = lsh.matching_bands(&a, &b);
    assert!(matches < 8);
}

#[test]
fn test_lsh_hash_size() {
    let lsh = TernaryLSH::new(5, 3);
    assert_eq!(lsh.hash_size(), 15);
}

#[test]
fn test_lsh_exact_signature() {
    let lsh = TernaryLSH::new(2, 2);
    assert_eq!(lsh.num_bands(), 2);
    assert_eq!(lsh.hash(&[1, 0, -1]), vec![95u64, 2934021998537672332u64]);
}

#[test]
fn test_lsh_short_vectors_share_empty_bands() {
    // Bands past the end of both vectors hash nothing, so they always agree.
    let lsh = TernaryLSH::new(8, 4);
    let a: Vec<Trit> = vec![1; 8];
    let b: Vec<Trit> = vec![-1; 8];
    assert_eq!(lsh.matching_bands(&a, &b), 6);
    assert!(lsh.are_candidates(&a, &b));
    let none = TernaryLSH::new(0, 4);
    assert!(!none.are_candidates(&a, &a));
    assert_eq!(none.matching_bands(&a, &a), 0);
}

// --- Sketch ---

#[test]
fn test_sketch_empty() {
    let s = TernarySketch::new();
    assert!(s.is_empty());
    assert_eq!(s.len(), 0);
}

#[test]
fn test_sketch_counts() {
    let mut s = TernarySketch::new();
    s.add(1);
    s.add(1);
    s.add(0);
    s.add(-1);
    assert_eq!(s.counts(), &[1, 1, 2]);
    assert_eq!(s.len(), 4);
}

#[test]
fn test_sketch_merge() {
    let mut a = TernarySketch::new();
    let mut b = TernarySketch::new();
    a.add(1);
    b.add(-1);
    a.merge(&b);
    assert_eq!(a.len(), 2);
    assert_eq!(a.counts(), &[1, 0, 1]);
}

#[test]
fn test_sketch_fingerprint_uniqueness() {
    let mut s1 = TernarySketch::new();
    let mut s2 = TernarySketch::new();
    s1.add_slice(&[1, 0, -1]);
    s2.add_slice(&[-1, 0, 1]);
    assert_ne!(s1.fingerprint(), s2.fingerprint());
}

#[test]
fn test_sketch_weighted_sum() {
    let mut s = TernarySketch::new();
    s.add(1);
    s.add(-1);
    s.add(1);
    assert_eq!(s.weighted_sum(), 1);
}

#[test]
fn test_sketch_mean_inputs() {
    let mut s = TernarySketch::new();
    s.add(1);
    s.add(-1);
    s.add(0);
    assert_eq!(s.weighted_sum(), 0);
    assert_eq!(s.len(), 3);
}

#[test]
fn test_sketch_exact_fingerprints_and_order_free_counts() {
    let mut s1 = TernarySketch::default();
    let mut s2 = TernarySketch::default();
    s1.add_slice(&[1, 0, -1]);
    s2.add_slice(&[-1, 0, 1]);
    assert_eq!(s1.fingerprint(), 2946);
    assert_eq!(s2.fingerprint(), 1026);
    assert_eq!(s1.counts(), s2.counts());
}

#[test]
fn test_sketch_merge_adds_and_combines() {
    let mut a = TernarySketch::new();
    let mut b = TernarySketch::new();
    a.add_slice(&[1, 1, 0]);
    b.add_slice(&[1, 0, -1]);
    let fa = a.fingerprint();
    let fb = b.fingerprint();
    a.merge(&b);
    assert_eq!(a.counts(), &[1, 2, 3]);
    assert_eq!(a.len(), 6);
    assert_eq!(a.weighted_sum(), 2);
    assert_eq!(a.fingerprint(), fa.wrapping_mul(37).wrapping_add(fb));
    let mut whole = TernarySketch::new();
    whole.add_slice(&[1, 1, 0, 1, 0, -1]);
    assert_eq!(whole.counts(), a.counts());
    assert_eq!(whole.len(), a.len());
}

#[test]
fn test_bloom_insert_slice_answers_like_inserts() {
    let trits: Vec<Trit> = vec![POS, ZERO, POS, POS];
    let mut a = TernaryBloomFilter::new(64, 4);
    a.insert_slice(&trits);
    let mut b = TernaryBloomFilter::new(64, 4);
    for &t in &trits {
        b.insert(t);
    }
    assert_eq!(a.count(), b.count());
    for t in [NEG, ZERO, POS] {
        assert_eq!(a.contains(t), b.contains(t));
        assert_eq!(a.is_absent(t), b.is_absent(t));
    }
}

#[test]
fn test_bloom_cleared_filter_behaves_like_new() {
    let mut used = TernaryBloomFilter::new(128, 3);
    used.insert_slice(&[NEG, ZERO, POS, POS]);
    used.clear();
    let mut fresh = TernaryBloomFilter::new(128, 3);
    assert_eq!(used.num_bits(), fresh.num_bits());
    assert_eq!(used.num_hashes(), fresh.num_hashes());
    for t in [NEG, ZERO, POS] {
        assert_eq!(used.contains(t), TernaryMembership::No);
    }
    used.insert(ZERO);
    fresh.insert(ZERO);
    assert_eq!(used.count(), fresh.count());
    for t in [NEG, ZERO, POS] {
        assert_eq!(used.contains(t), fresh.contains(t));
    }
}

#[test]
fn test_sketch_invariant_holds() {
    let mut s = TernarySketch::new();
    s.add_slice(&[1, 1, 0, -1, -1, -1]);
    let mut t = TernarySketch::new();
    t.add(1);
    s.merge(&t);
    let c = s.counts();
    assert_eq!(c[0] + c[1] + c[2], s.len());
    assert_eq!(s.weighted_sum(), c[2] as i64 - c[0] as i64);
    assert_eq!(s.is_empty(), s.len() == 0);
}
