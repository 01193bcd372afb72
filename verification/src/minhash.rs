//! MinHash sketches of trit streams.

use vstd::prelude::*;

use crate::inverse::{lemma_u64_mul_inverse, lemma_xorshift33_involution};
use crate::{increments_fit, matches_upto, Trit};

verus! {

/// Multiplier of the seed of each hash function.
pub const SEED_MULTIPLIER: u64 = 0x9e3779b97f4a7c15;

/// First multiplier of the mixing function.
pub const MIX_TRIT: u64 = 0x517cc1b727220a95;

/// Second multiplier of the mixing function.
pub const MIX_FIRST: u64 = 0xff51afd7ed558ccd;

/// Third multiplier of the mixing function.
pub const MIX_SECOND: u64 = 0xc4ceb9fe1a85ec53;

/// The seed of the `i`-th hash function.
pub open spec fn minhash_seed(i: int) -> u64 {
    let s = (i as u64).wrapping_mul(SEED_MULTIPLIER);
    s ^ (s >> 30u64)
}

/// The hash of trit `t` under the hash function with seed `seed`.
pub open spec fn seeded_hash(t: Trit, seed: u64) -> u64 {
    let v = (t + 1) as u64;
    let h0 = seed.wrapping_add(v.wrapping_mul(MIX_TRIT));
    let h1 = h0 ^ (h0 >> 33u64);
    let h2 = h1.wrapping_mul(MIX_FIRST);
    let h3 = h2 ^ (h2 >> 33u64);
    let h4 = h3.wrapping_mul(MIX_SECOND);
    h4 ^ (h4 >> 33u64)
}

/// Inverse of `MIX_TRIT` modulo 2^64.
pub const MIX_TRIT_INVERSE: u64 = 0x2040003d780970bd;

/// Undoes the hash with seed `seed`: from a hash value, recovers the code that was hashed.
pub open spec fn seeded_unhash(h: u64, seed: u64) -> u64 {
    let g5 = h ^ (h >> 33u64);
    let g4 = g5.wrapping_mul(crate::bloom::MIX_SECOND_INVERSE);
    let g3 = g4 ^ (g4 >> 33u64);
    let g2 = g3.wrapping_mul(crate::bloom::MIX_FIRST_INVERSE);
    let g1 = g2 ^ (g2 >> 33u64);
    g1.wrapping_sub(seed).wrapping_mul(MIX_TRIT_INVERSE)
}

/// Law: every hash function keeps the trit. Undoing the hash of `t` under any seed gives
/// back the code `t + 1`, so two different trits never get the same hash.
pub proof fn law_seeded_hash_keeps_trit(t: Trit, u: Trit, seed: u64)
    requires
        -1 <= t < 127,
        -1 <= u < 127,
    ensures
        seeded_unhash(seeded_hash(t, seed), seed) == (t + 1) as u64,
        t != u ==> seeded_hash(t, seed) != seeded_hash(u, seed),
{
    lemma_seeded_unhash(t, seed);
    lemma_seeded_unhash(u, seed);
}

proof fn lemma_seeded_unhash(t: Trit, seed: u64)
    requires
        -1 <= t < 127,
    ensures
        seeded_unhash(seeded_hash(t, seed), seed) == (t + 1) as u64,
{
    let v = (t + 1) as u64;
    let w = v.wrapping_mul(MIX_TRIT);
    let h0 = seed.wrapping_add(w);
    let h1 = h0 ^ (h0 >> 33u64);
    let h2 = h1.wrapping_mul(MIX_FIRST);
    let h3 = h2 ^ (h2 >> 33u64);
    let h4 = h3.wrapping_mul(MIX_SECOND);
    let h5 = h4 ^ (h4 >> 33u64);
    assert(h5 == seeded_hash(t, seed));
    lemma_xorshift33_involution(h4);
    lemma_u64_mul_inverse(h3, MIX_SECOND, crate::bloom::MIX_SECOND_INVERSE);
    lemma_xorshift33_involution(h2);
    lemma_u64_mul_inverse(h1, MIX_FIRST, crate::bloom::MIX_FIRST_INVERSE);
    lemma_xorshift33_involution(h0);
    assert(h0.wrapping_sub(seed) == w);
    lemma_u64_mul_inverse(v, MIX_TRIT, MIX_TRIT_INVERSE);
}

/// The smaller of `m` and the hash of `t` under `seed`.
pub open spec fn min_step(m: u64, seed: u64, t: Trit) -> u64 {
    if seeded_hash(t, seed) < m {
        seeded_hash(t, seed)
    } else {
        m
    }
}

/// The minimum of `m` and the hashes under `seed` of the trits of `s`.
pub open spec fn min_fold(m: u64, seed: u64, s: Seq<Trit>) -> u64
    decreases s.len(),
{
    if s.len() == 0 {
        m
    } else {
        min_step(min_fold(m, seed, s.drop_last()), seed, s.last())
    }
}

/// `min_fold` is the minimum of `m` and of the hashes of the trits of `s`: it is below
/// each of them and equal to one of them.
pub proof fn lemma_min_fold_is_minimum(m: u64, seed: u64, s: Seq<Trit>)
    ensures
        min_fold(m, seed, s) <= m,
        forall|k: int| 0 <= k < s.len() ==> min_fold(m, seed, s) <= seeded_hash(#[trigger] s[k], seed),
        min_fold(m, seed, s) == m || exists|k: int|
            0 <= k < s.len() && min_fold(m, seed, s) == seeded_hash(#[trigger] s[k], seed),
    decreases s.len(),
{
    if s.len() > 0 {
        let p = s.drop_last();
        lemma_min_fold_is_minimum(m, seed, p);
        assert forall|k: int| 0 <= k < s.len() implies min_fold(m, seed, s) <= seeded_hash(
            #[trigger] s[k],
            seed,
        ) by {
            if k < p.len() {
                assert(s[k] == p[k]);
            }
        }
        if min_fold(m, seed, s) != m {
            if min_fold(m, seed, s) == seeded_hash(s.last(), seed) {
                assert(s[s.len() - 1] == s.last());
            } else {
                let j = choose|j: int|
                    0 <= j < p.len() && min_fold(m, seed, p) == seeded_hash(#[trigger] p[j], seed);
                assert(s[j] == p[j]);
            }
        }
    }
}

/// Law: a MinHash minimum streams. Pushing `a` and then `b` leaves the minimum that
/// pushing `a + b` at once leaves.
pub proof fn law_minhash_streaming(m: u64, seed: u64, a: Seq<Trit>, b: Seq<Trit>)
    ensures
        min_fold(m, seed, a + b) == min_fold(min_fold(m, seed, a), seed, b),
    decreases b.len(),
{
    if b.len() == 0 {
        assert(a + b =~= a);
    } else {
        law_minhash_streaming(m, seed, a, b.drop_last());
        assert((a + b).drop_last() =~= a + b.drop_last());
        assert((a + b).last() == b.last());
    }
}

/// Law: a MinHash minimum depends only on which trits were pushed, not on their order
/// nor on how often each was pushed.
pub proof fn law_minhash_set_semantics(m: u64, seed: u64, a: Seq<Trit>, b: Seq<Trit>)
    requires
        a.to_set() =~= b.to_set(),
    ensures
        min_fold(m, seed, a) == min_fold(m, seed, b),
{
    lemma_min_fold_is_minimum(m, seed, a);
    lemma_min_fold_is_minimum(m, seed, b);
    if min_fold(m, seed, b) != m {
        let k = choose|k: int|
            0 <= k < b.len() && min_fold(m, seed, b) == seeded_hash(#[trigger] b[k], seed);
        assert(b.to_set().contains(b[k]));
        assert(a.contains(b[k]));
        let j = choose|j: int| 0 <= j < a.len() && a[j] == b[k];
        assert(min_fold(m, seed, a) <= seeded_hash(a[j], seed));
    }
    if min_fold(m, seed, a) != m {
        let k = choose|k: int|
            0 <= k < a.len() && min_fold(m, seed, a) == seeded_hash(#[trigger] a[k], seed);
        assert(a.to_set().contains(a[k]));
        assert(b.contains(a[k]));
        let j = choose|j: int| 0 <= j < b.len() && b[j] == a[k];
        assert(min_fold(m, seed, b) <= seeded_hash(b[j], seed));
    }
}

/// MinHash sketch for estimating Jaccard similarity of ternary sets.
#[derive(Clone, Debug)]
pub struct TernaryMinHash {
    num_hashes: usize,
    seeds: Vec<u64>,
    min_values: Vec<u64>,
}

impl TernaryMinHash {
    /// The number of hash functions.
    pub closed spec fn hash_count(&self) -> nat {
        self.num_hashes as nat
    }

    /// The current minimum of each hash function.
    pub closed spec fn mins(&self) -> Seq<u64> {
        self.min_values@
    }

    /// One seed and one minimum per hash function; seed `i` is `minhash_seed(i)`.
    pub closed spec fn wf(&self) -> bool {
        &&& self.seeds@.len() == self.num_hashes
        &&& self.min_values@.len() == self.num_hashes
        &&& forall|i: int| 0 <= i < self.num_hashes ==> #[trigger] self.seeds@[i] == minhash_seed(i)
    }

    /// Create a new MinHash with `num_hashes` hash functions, every minimum at `u64::MAX`.
    pub fn new(num_hashes: usize) -> (mh: Self)
        ensures
            mh.wf(),
            mh.hash_count() == num_hashes,
            mh.mins() == Seq::new(num_hashes as nat, |i: int| u64::MAX),
    {
        let mut seeds: Vec<u64> = Vec::new();
        let mut min_values: Vec<u64> = Vec::new();
        let mut i: usize = 0;
        while i < num_hashes
            invariant
                0 <= i <= num_hashes,
                seeds@.len() == i,
                min_values@.len() == i,
                forall|j: int| 0 <= j < i ==> #[trigger] seeds@[j] == minhash_seed(j),
                forall|j: int| 0 <= j < i ==> #[trigger] min_values@[j] == u64::MAX,
            decreases num_hashes - i,
        {
            let s = (i as u64).wrapping_mul(SEED_MULTIPLIER);
            seeds.push(s ^ (s >> 30));
            min_values.push(u64::MAX);
            i = i + 1;
        }
        let mh = TernaryMinHash { num_hashes, seeds, min_values };
        assert(mh.min_values@ =~= Seq::new(num_hashes as nat, |i: int| u64::MAX));
        mh
    }

    fn hash_trit_with_seed(&self, trit: Trit, seed: u64) -> (h: u64)
        requires
            trit < 127,
        ensures
            h == seeded_hash(trit, seed),
    {
        let v = (trit + 1) as u64;
        let mut h = seed.wrapping_add(v.wrapping_mul(MIX_TRIT));
        h = h ^ (h >> 33);
        h = h.wrapping_mul(MIX_FIRST);
        h = h ^ (h >> 33);
        h = h.wrapping_mul(MIX_SECOND);
        h = h ^ (h >> 33);
        h
    }

    /// Push a trit into the sketch: each minimum drops to the trit's hash if that is smaller.
    pub fn push(&mut self, trit: Trit)
        requires
            old(self).wf(),
            old(self).hash_count() > 0 ==> trit < 127,
        ensures
            final(self).wf(),
            final(self).hash_count() == old(self).hash_count(),
            final(self).mins().len() == old(self).mins().len(),
            forall|i: int|
                0 <= i < old(self).hash_count() ==> #[trigger] final(self).mins()[i] == min_step(
                    old(self).mins()[i],
                    minhash_seed(i),
                    trit,
                ),
    {
        let n = self.num_hashes;
        let mut i: usize = 0;
        while i < n
            invariant
                n == self.num_hashes,
                n == old(self).num_hashes,
                0 <= i <= n,
                n > 0 ==> trit < 127,
                self.seeds == old(self).seeds,
                self.wf(),
                forall|j: int|
                    0 <= j < i ==> #[trigger] self.min_values@[j] == min_step(
                        old(self).min_values@[j],
                        minhash_seed(j),
                        trit,
                    ),
                forall|j: int| i <= j < n ==> #[trigger] self.min_values@[j] == old(self).min_values@[j],
            decreases n - i,
        {
            let h = self.hash_trit_with_seed(trit, self.seeds[i]);
            if h < self.min_values[i] {
                self.min_values.set(i, h);
            }
            i = i + 1;
        }
    }

    /// Push a slice of trits, one after the other.
    pub fn push_slice(&mut self, trits: &[Trit])
        requires
            old(self).wf(),
            old(self).hash_count() > 0 ==> increments_fit(trits@),
        ensures
            final(self).wf(),
            final(self).hash_count() == old(self).hash_count(),
            final(self).mins().len() == old(self).mins().len(),
            forall|i: int|
                0 <= i < old(self).hash_count() ==> #[trigger] final(self).mins()[i] == min_fold(
                    old(self).mins()[i],
                    minhash_seed(i),
                    trits@,
                ),
    {
        let ghost start = self.mins();
        let n = trits.len();
        let mut k: usize = 0;
        while k < n
            invariant
                n == trits@.len(),
                0 <= k <= n,
                self.hash_count() > 0 ==> increments_fit(trits@),
                self.wf(),
                self.hash_count() == old(self).hash_count(),
                start == old(self).mins(),
                forall|i: int|
                    0 <= i < self.hash_count() ==> #[trigger] self.mins()[i] == min_fold(
                        start[i],
                        minhash_seed(i),
                        trits@.take(k as int),
                    ),
            decreases n - k,
        {
            let t = trits[k];
            assert(self.hash_count() > 0 ==> trits@[k as int] < 127);
            assert(trits@.take(k + 1).drop_last() =~= trits@.take(k as int));
            self.push(t);
            k = k + 1;
        }
        assert(trits@.take(n as int) =~= trits@);
    }

    /// The number of hash functions whose minima agree with those of `other`, or `None`
    /// when the two sketches use different numbers of hash functions. The Jaccard
    /// estimate is this count divided by the number of hash functions.
    pub fn matching_hashes(&self, other: &TernaryMinHash) -> (r: Option<usize>)
        requires
            self.wf(),
            other.wf(),
        ensures
            r == if self.hash_count() != other.hash_count() {
                None::<usize>
            } else {
                Some(matches_upto(self.mins(), other.mins(), self.hash_count() as int) as usize)
            },
    {
        if self.num_hashes != other.num_hashes {
            return None;
        }
        let n = self.num_hashes;
        let mut count: usize = 0;
        let mut i: usize = 0;
        while i < n
            invariant
                n == self.num_hashes,
                n == other.num_hashes,
                self.wf(),
                other.wf(),
                0 <= i <= n,
                count == matches_upto(self.mins(), other.mins(), i as int),
                count <= i,
            decreases n - i,
        {
            if self.min_values[i] == other.min_values[i] {
                count = count + 1;
            }
            i = i + 1;
        }
        Some(count)
    }

    /// Return the sketch values.
    pub fn sketch(&self) -> (r: &[u64])
        ensures
            r@ == self.mins(),
    {
        self.min_values.as_slice()
    }
}

} // verus!
