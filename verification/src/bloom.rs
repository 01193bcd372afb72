//! Bloom filter over trits with three-valued membership.

use vstd::prelude::*;

use crate::inverse::{lemma_u64_mul_inverse, lemma_xorshift33_involution};
use crate::minhash::{MIX_FIRST, MIX_SECOND, MIX_TRIT};
use crate::{increments_fit, Trit};

verus! {

/// Ternary membership result.
#[derive(Debug, Clone, Copy, PartialEq, Eq, Structural)]
pub enum TernaryMembership {
    /// All bits of the trit are set and at most three items were inserted: likely present
    /// (a trit whose bits collide with those of the few inserted trits also gets `Yes`).
    Yes,
    /// Definitely not in the set.
    No,
    /// Possibly in the set (false positive possible).
    Maybe,
}

/// The mixed 64-bit hash of trit `t` under hash function `j`.
pub open spec fn bloom_mix(t: Trit, j: int) -> u64 {
    let v = (t + 1) as u64;
    let seed = j as u64;
    let h0 = v.wrapping_add(seed.wrapping_mul(MIX_TRIT));
    let h1 = h0 ^ (h0 >> 33u64);
    let h2 = h1.wrapping_mul(MIX_FIRST);
    let h3 = h2 ^ (h2 >> 33u64);
    h3.wrapping_mul(MIX_SECOND)
}

/// Inverse of `MIX_FIRST` modulo 2^64.
pub const MIX_FIRST_INVERSE: u64 = 0x4f74430c22a54005;

/// Inverse of `MIX_SECOND` modulo 2^64.
pub const MIX_SECOND_INVERSE: u64 = 0x9cb4b2f8129337db;

/// Undoes the mixing of hash function `j`: from a mixed value, recovers the code that was mixed.
pub open spec fn bloom_unmix(h: u64, j: int) -> u64 {
    let g3 = h.wrapping_mul(MIX_SECOND_INVERSE);
    let g2 = g3 ^ (g3 >> 33u64);
    let g1 = g2.wrapping_mul(MIX_FIRST_INVERSE);
    let g0 = g1 ^ (g1 >> 33u64);
    g0.wrapping_sub((j as u64).wrapping_mul(MIX_TRIT))
}

/// Law: hash function `j` keeps the trit. Undoing its steps on the mix of `t` gives back
/// the code `t + 1`, so two different trits never get the same mix under any hash function
/// (they can only meet after the reduction modulo the number of bits).
pub proof fn law_bloom_mix_keeps_trit(t: Trit, u: Trit, j: int)
    requires
        -1 <= t < 127,
        -1 <= u < 127,
    ensures
        bloom_unmix(bloom_mix(t, j), j) == (t + 1) as u64,
        t != u ==> bloom_mix(t, j) != bloom_mix(u, j),
{
    lemma_bloom_unmix(t, j);
    lemma_bloom_unmix(u, j);
}

proof fn lemma_bloom_unmix(t: Trit, j: int)
    requires
        -1 <= t < 127,
    ensures
        bloom_unmix(bloom_mix(t, j), j) == (t + 1) as u64,
{
    let v = (t + 1) as u64;
    let seed = j as u64;
    let k = seed.wrapping_mul(MIX_TRIT);
    let h0 = v.wrapping_add(k);
    let h1 = h0 ^ (h0 >> 33u64);
    let h2 = h1.wrapping_mul(MIX_FIRST);
    let h3 = h2 ^ (h2 >> 33u64);
    let h4 = h3.wrapping_mul(MIX_SECOND);
    assert(h4 == bloom_mix(t, j));
    lemma_u64_mul_inverse(h3, MIX_SECOND, MIX_SECOND_INVERSE);
    lemma_xorshift33_involution(h2);
    lemma_u64_mul_inverse(h1, MIX_FIRST, MIX_FIRST_INVERSE);
    lemma_xorshift33_involution(h0);
    assert(h0.wrapping_sub(k) == v);
}

/// The bit that hash function `j` assigns to trit `t` in a filter of `num_bits` bits.
pub open spec fn bloom_position(t: Trit, j: int, num_bits: int) -> int {
    ((bloom_mix(t, j) as usize) as int) % num_bits
}

/// Bit `i` of the packed words `bits` (bit `i % 64` of word `i / 64`).
pub open spec fn bit_at(bits: Seq<u64>, i: int) -> bool {
    (bits[i / 64] >> ((i % 64) as u64)) & 1u64 == 1u64
}

/// The number of 64-bit words that hold `num_bits` bits.
pub open spec fn words_for(num_bits: int) -> int {
    (num_bits + 63) / 64
}

proof fn lemma_or_bit(w: u64, b: u64, c: u64)
    requires
        b < 64,
        c < 64,
    ensures
        ((w | (1u64 << b)) >> c) & 1u64 == 1u64 <==> (c == b || (w >> c) & 1u64 == 1u64),
{
    assert(((w | (1u64 << b)) >> c) & 1u64 == 1u64 <==> (c == b || (w >> c) & 1u64 == 1u64))
        by (bit_vector)
        requires
            b < 64,
            c < 64,
    ;
}

proof fn lemma_zero_bits(c: u64)
    ensures
        (0u64 >> c) & 1u64 != 1u64,
{
    assert((0u64 >> c) & 1u64 != 1u64) by (bit_vector);
}

/// Bloom filter supporting ternary membership queries.
#[derive(Clone, Debug)]
pub struct TernaryBloomFilter {
    bits: Vec<u64>,
    num_bits: usize,
    num_hashes: usize,
    count: usize,
}

impl TernaryBloomFilter {
    /// The number of bits of the filter.
    pub closed spec fn bits_len(&self) -> nat {
        self.num_bits as nat
    }

    /// The number of hash functions.
    pub closed spec fn hashes(&self) -> nat {
        self.num_hashes as nat
    }

    /// The number of insertions since creation or the last clear.
    pub closed spec fn inserted(&self) -> nat {
        self.count as nat
    }

    /// Whether bit `i` of the filter is set.
    pub closed spec fn has_bit(&self, i: int) -> bool {
        bit_at(self.bits@, i)
    }

    /// The words hold exactly the bits of the filter.
    pub closed spec fn wf(&self) -> bool {
        self.bits@.len() == words_for(self.num_bits as int)
    }

    /// Queries and insertions can compute their bit positions (a filter with hash
    /// functions needs at least one bit).
    pub open spec fn usable(&self) -> bool {
        self.hashes() > 0 ==> self.bits_len() > 0
    }

    /// Every bit that hash functions assign to `t` is set.
    pub open spec fn all_hit(&self, t: Trit) -> bool {
        forall|j: int|
            0 <= j < self.hashes() ==> #[trigger] self.has_bit(
                bloom_position(t, j, self.bits_len() as int),
            )
    }

    /// Some hash function assigns bit `i` to `t`.
    pub open spec fn hits(&self, t: Trit, i: int) -> bool {
        exists|j: int|
            0 <= j < self.hashes() && #[trigger] bloom_position(t, j, self.bits_len() as int) == i
    }

    /// `other` has the size and hash functions of `self` and every bit `self` has.
    pub open spec fn covered_by(&self, other: &TernaryBloomFilter) -> bool {
        &&& other.bits_len() == self.bits_len()
        &&& other.hashes() == self.hashes()
        &&& forall|i: int| 0 <= i < self.bits_len() && #[trigger] self.has_bit(i) ==> other.has_bit(i)
    }

    /// `self` is what inserting the trits of `s` into `old` gives: the same size and hash
    /// functions, `s.len()` more insertions, and exactly the bits of `old` plus those the
    /// hash functions assign to the trits of `s`.
    pub open spec fn inserted_from(&self, old: &TernaryBloomFilter, s: Seq<Trit>) -> bool {
        &&& self.wf()
        &&& self.bits_len() == old.bits_len()
        &&& self.hashes() == old.hashes()
        &&& self.inserted() == old.inserted() + s.len()
        &&& forall|i: int|
            0 <= i < self.bits_len() ==> #[trigger] self.has_bit(i) == (old.has_bit(i) || exists|
                k: int,
            | 0 <= k < s.len() && old.hits(#[trigger] s[k], i))
    }

    /// `self` is a filter of `num_bits` bits and `num_hashes` hash functions with nothing
    /// inserted and no bit set, as `new` makes it.
    pub open spec fn is_fresh(&self, num_bits: nat, num_hashes: nat) -> bool {
        &&& self.wf()
        &&& self.bits_len() == num_bits
        &&& self.hashes() == num_hashes
        &&& self.inserted() == 0
        &&& forall|i: int| 0 <= i < num_bits ==> !#[trigger] self.has_bit(i)
    }

    /// `self` and `other` hold the same state: size, hash functions, insertion count and bits.
    pub open spec fn same_state(&self, other: &TernaryBloomFilter) -> bool {
        &&& self.wf()
        &&& other.wf()
        &&& self.bits_len() == other.bits_len()
        &&& self.hashes() == other.hashes()
        &&& self.inserted() == other.inserted()
        &&& forall|i: int| 0 <= i < self.bits_len() ==> #[trigger] self.has_bit(i) == other.has_bit(i)
    }

    /// The answer to a membership query for `t`: `No` when a bit of `t` is clear or
    /// nothing was inserted, else `Yes` after at most three insertions, else `Maybe`.
    pub open spec fn membership(&self, t: Trit) -> TernaryMembership {
        if !self.all_hit(t) || self.inserted() == 0 {
            TernaryMembership::No
        } else if self.inserted() <= 3 {
            TernaryMembership::Yes
        } else {
            TernaryMembership::Maybe
        }
    }

    /// Create a new bloom filter with `num_bits` bits and `num_hashes` hash functions.
    pub fn new(num_bits: usize, num_hashes: usize) -> (bf: Self)
        requires
            num_bits + 63 <= usize::MAX,
        ensures
            bf.wf(),
            bf.bits_len() == num_bits,
            bf.hashes() == num_hashes,
            bf.inserted() == 0,
            forall|i: int| 0 <= i < num_bits ==> !#[trigger] bf.has_bit(i),
            bf.is_fresh(num_bits as nat, num_hashes as nat),
    {
        let num_words = (num_bits + 63) / 64;
        let mut bits: Vec<u64> = Vec::new();
        let mut w: usize = 0;
        while w < num_words
            invariant
                0 <= w <= num_words,
                bits@.len() == w,
                forall|k: int| 0 <= k < w ==> #[trigger] bits@[k] == 0u64,
            decreases num_words - w,
        {
            bits.push(0u64);
            w = w + 1;
        }
        let bf = TernaryBloomFilter { bits, num_bits, num_hashes, count: 0 };
        assert forall|i: int| 0 <= i < num_bits implies !#[trigger] bf.has_bit(i) by {
            lemma_zero_bits((i % 64) as u64);
        }
        bf
    }

    fn hash_trit(&self, trit: Trit, hash_idx: usize) -> (r: usize)
        requires
            trit < 127,
            self.num_bits > 0,
        ensures
            r == bloom_position(trit, hash_idx as int, self.bits_len() as int),
            r < self.bits_len(),
    {
        let v = (trit + 1) as u64;
        let seed = hash_idx as u64;
        let mut h = v.wrapping_add(seed.wrapping_mul(MIX_TRIT));
        h = h ^ (h >> 33);
        h = h.wrapping_mul(MIX_FIRST);
        h = h ^ (h >> 33);
        h = h.wrapping_mul(MIX_SECOND);
        (h as usize) % self.num_bits
    }

    fn set_bit(&mut self, idx: usize)
        requires
            old(self).wf(),
            idx < old(self).num_bits,
        ensures
            final(self).wf(),
            final(self).num_bits == old(self).num_bits,
            final(self).num_hashes == old(self).num_hashes,
            final(self).count == old(self).count,
            final(self).has_bit(idx as int),
            forall|i: int|
                0 <= i < old(self).num_bits && i != idx ==> #[trigger] final(self).has_bit(i)
                    == old(self).has_bit(i),
    {
        let word = idx / 64;
        let bit = idx % 64;
        let w = self.bits[word];
        self.bits.set(word, w | (1u64 << bit));
        proof {
            assert forall|i: int| 0 <= i < old(self).num_bits implies #[trigger] self.has_bit(i)
                == (i == idx || old(self).has_bit(i)) by {
                if i / 64 == word as int {
                    lemma_or_bit(w, bit as u64, (i % 64) as u64);
                }
            }
        }
    }

    fn get_bit(&self, idx: usize) -> (r: bool)
        requires
            self.wf(),
            idx < self.num_bits,
        ensures
            r == self.has_bit(idx as int),
    {
        let word = idx / 64;
        let bit = idx % 64;
        (self.bits[word] >> bit) & 1 == 1
    }

    /// Insert a trit into the filter: every bit its hash functions assign is set, and
    /// no other bit changes.
    pub fn insert(&mut self, trit: Trit)
        requires
            old(self).wf(),
            old(self).usable(),
            old(self).hashes() > 0 ==> trit < 127,
            old(self).inserted() < usize::MAX,
        ensures
            final(self).wf(),
            final(self).inserted() == old(self).inserted() + 1,
            old(self).covered_by(&*final(self)),
            final(self).all_hit(trit),
            forall|i: int|
                0 <= i < old(self).bits_len() ==> #[trigger] final(self).has_bit(i) == (old(
                    self,
                ).has_bit(i) || old(self).hits(trit, i)),
            final(self).inserted_from(&*old(self), seq![trit]),
    {
        let n = self.num_hashes;
        let mut j: usize = 0;
        while j < n
            invariant
                n == self.num_hashes,
                n == old(self).num_hashes,
                self.num_bits == old(self).num_bits,
                self.count == old(self).count,
                self.wf(),
                n > 0 ==> self.num_bits > 0,
                n > 0 ==> trit < 127,
                0 <= j <= n,
                forall|i: int|
                    0 <= i < self.num_bits ==> #[trigger] self.has_bit(i) == (old(self).has_bit(i)
                        || exists|k: int|
                        0 <= k < j && #[trigger] bloom_position(trit, k, self.num_bits as int)
                            == i),
            decreases n - j,
        {
            let idx = self.hash_trit(trit, j);
            let ghost before = *self;
            self.set_bit(idx);
            assert forall|i: int| 0 <= i < self.num_bits implies #[trigger] self.has_bit(i) == (old(
                self,
            ).has_bit(i) || exists|k: int|
                0 <= k < j + 1 && #[trigger] bloom_position(trit, k, self.num_bits as int) == i) by {
                if i == idx {
                    assert(bloom_position(trit, j as int, self.num_bits as int) == i);
                } else {
                    assert(self.has_bit(i) == before.has_bit(i));
                    if exists|k: int|
                        0 <= k < j + 1 && #[trigger] bloom_position(trit, k, self.num_bits as int)
                            == i {
                        let k = choose|k: int|
                            0 <= k < j + 1 && #[trigger] bloom_position(
                                trit,
                                k,
                                self.num_bits as int,
                            ) == i;
                        assert(k < j);
                    }
                }
            }
            j = j + 1;
        }
        let ghost looped = *self;
        self.count = self.count + 1;
        let ghost nb = self.num_bits as int;
        assert forall|i: int| 0 <= i < nb implies #[trigger] self.has_bit(i) == (old(
            self,
        ).has_bit(i) || old(self).hits(trit, i)) by {
            assert(self.has_bit(i) == looped.has_bit(i));
            assert(looped.has_bit(i) == (old(self).has_bit(i) || exists|k: int|
                0 <= k < n && #[trigger] bloom_position(trit, k, nb) == i));
        }
        assert forall|k: int| 0 <= k < self.hashes() implies #[trigger] self.has_bit(
            bloom_position(trit, k, self.bits_len() as int),
        ) by {
            let i = bloom_position(trit, k, nb);
            assert(0 <= i < nb);
            assert(self.has_bit(i) == (old(self).has_bit(i) || exists|k2: int|
                0 <= k2 < n && #[trigger] bloom_position(trit, k2, nb) == i));
        }
        assert forall|i: int| 0 <= i < nb implies #[trigger] self.has_bit(i) == (old(
            self,
        ).has_bit(i) || exists|k: int| 0 <= k < 1 && old(self).hits(#[trigger] seq![trit][k], i))
            by {
            if old(self).hits(trit, i) {
                assert(seq![trit][0] == trit);
            }
        }
    }

    /// Insert a slice of trits, one after the other.
    pub fn insert_slice(&mut self, trits: &[Trit])
        requires
            old(self).wf(),
            old(self).usable(),
            old(self).hashes() > 0 ==> increments_fit(trits@),
            old(self).inserted() + trits@.len() <= usize::MAX,
        ensures
            final(self).wf(),
            final(self).inserted() == old(self).inserted() + trits@.len(),
            old(self).covered_by(&*final(self)),
            forall|k: int| 0 <= k < trits@.len() ==> final(self).all_hit(#[trigger] trits@[k]),
            forall|i: int|
                0 <= i < old(self).bits_len() ==> #[trigger] final(self).has_bit(i) == (old(
                    self,
                ).has_bit(i) || exists|k: int|
                    0 <= k < trits@.len() && old(self).hits(#[trigger] trits@[k], i)),
            final(self).inserted_from(&*old(self), trits@),
    {
        let n = trits.len();
        let mut k: usize = 0;
        while k < n
            invariant
                n == trits@.len(),
                0 <= k <= n,
                self.hashes() > 0 ==> increments_fit(trits@),
                self.wf(),
                self.usable(),
                self.bits_len() == old(self).bits_len(),
                self.hashes() == old(self).hashes(),
                self.inserted() == old(self).inserted() + k,
                old(self).inserted() + n <= usize::MAX,
                old(self).covered_by(&*self),
                forall|m: int| 0 <= m < k ==> self.all_hit(#[trigger] trits@[m]),
                forall|i: int|
                    0 <= i < old(self).bits_len() ==> #[trigger] self.has_bit(i) == (old(
                        self,
                    ).has_bit(i) || exists|m: int|
                        0 <= m < k && old(self).hits(#[trigger] trits@[m], i)),
            decreases n - k,
        {
            let t = trits[k];
            assert(self.hashes() > 0 ==> trits@[k as int] < 127);
            let ghost before = *self;
            self.insert(t);
            proof {
                assert forall|m: int| 0 <= m < k + 1 implies self.all_hit(#[trigger] trits@[m]) by {
                    if m < k {
                        law_hits_persist(before, *self, trits@[m]);
                    }
                }
                assert forall|i: int| 0 <= i < old(self).bits_len() implies #[trigger] self.has_bit(
                    i,
                ) == (old(self).has_bit(i) || exists|m: int|
                    0 <= m < k + 1 && old(self).hits(#[trigger] trits@[m], i)) by {
                    assert(self.has_bit(i) == (before.has_bit(i) || before.hits(t, i)));
                    if before.hits(t, i) {
                        assert(old(self).hits(trits@[k as int], i));
                    }
                    if exists|m: int| 0 <= m < k + 1 && old(self).hits(#[trigger] trits@[m], i) {
                        let m = choose|m: int|
                            0 <= m < k + 1 && old(self).hits(#[trigger] trits@[m], i);
                        if m == k {
                            assert(before.hits(t, i));
                        }
                    }
                }
            }
            k = k + 1;
        }
    }

    /// Check ternary membership of a trit.
    pub fn contains(&self, trit: Trit) -> (r: TernaryMembership)
        requires
            self.wf(),
            self.usable(),
            self.hashes() > 0 ==> trit < 127,
        ensures
            r == self.membership(trit),
    {
        let n = self.num_hashes;
        let mut j: usize = 0;
        while j < n
            invariant
                n == self.num_hashes,
                self.wf(),
                self.usable(),
                n > 0 ==> trit < 127,
                0 <= j <= n,
                forall|k: int|
                    0 <= k < j ==> #[trigger] self.has_bit(
                        bloom_position(trit, k, self.bits_len() as int),
                    ),
            decreases n - j,
        {
            let idx = self.hash_trit(trit, j);
            if !self.get_bit(idx) {
                return TernaryMembership::No;
            }
            j = j + 1;
        }
        if self.count == 0 {
            TernaryMembership::No
        } else if self.count <= 3 {
            TernaryMembership::Yes
        } else {
            TernaryMembership::Maybe
        }
    }

    /// Check if a trit is definitely not present.
    pub fn is_absent(&self, trit: Trit) -> (r: bool)
        requires
            self.wf(),
            self.usable(),
            self.hashes() > 0 ==> trit < 127,
        ensures
            r == (self.membership(trit) == TernaryMembership::No),
    {
        self.contains(trit) == TernaryMembership::No
    }

    /// Number of items inserted.
    pub fn count(&self) -> (r: usize)
        ensures
            r == self.inserted(),
    {
        self.count
    }

    /// The number of bits of the filter.
    pub fn num_bits(&self) -> (r: usize)
        ensures
            r == self.bits_len(),
    {
        self.num_bits
    }

    /// The number of hash functions.
    pub fn num_hashes(&self) -> (r: usize)
        ensures
            r == self.hashes(),
    {
        self.num_hashes
    }

    /// Reset the filter: every bit clear and the count back to zero.
    pub fn clear(&mut self)
        requires
            old(self).wf(),
        ensures
            final(self).wf(),
            final(self).bits_len() == old(self).bits_len(),
            final(self).hashes() == old(self).hashes(),
            final(self).inserted() == 0,
            forall|i: int| 0 <= i < final(self).bits_len() ==> !#[trigger] final(self).has_bit(i),
            forall|t: Trit| #[trigger] final(self).membership(t) == TernaryMembership::No,
            final(self).is_fresh(old(self).bits_len(), old(self).hashes()),
    {
        let n = self.bits.len();
        let mut w: usize = 0;
        while w < n
            invariant
                n == self.bits@.len(),
                self.num_bits == old(self).num_bits,
                self.num_hashes == old(self).num_hashes,
                self.wf(),
                0 <= w <= n,
                forall|k: int| 0 <= k < w ==> #[trigger] self.bits@[k] == 0u64,
            decreases n - w,
        {
            self.bits.set(w, 0);
            w = w + 1;
        }
        self.count = 0;
        assert forall|i: int| 0 <= i < self.bits_len() implies !#[trigger] self.has_bit(i) by {
            lemma_zero_bits((i % 64) as u64);
        }
    }
}

/// Law: bits only accumulate. When `later` covers `earlier` (as every insertion leaves
/// a filter covering the one before), a trit whose bits were all set stays so.
pub proof fn law_hits_persist(earlier: TernaryBloomFilter, later: TernaryBloomFilter, t: Trit)
    requires
        earlier.usable(),
        earlier.covered_by(&later),
        earlier.all_hit(t),
    ensures
        later.all_hit(t),
{
    assert forall|j: int| 0 <= j < later.hashes() implies #[trigger] later.has_bit(
        bloom_position(t, j, later.bits_len() as int),
    ) by {
        let i = bloom_position(t, j, earlier.bits_len() as int);
        assert(earlier.has_bit(i));
    }
}

/// Law: filters in the same state answer every query alike (`contains`, `is_absent`
/// and `count`, and so every estimate built on size, hash functions and count).
pub proof fn law_same_state_same_answers(f: TernaryBloomFilter, g: TernaryBloomFilter)
    requires
        f.same_state(&g),
        f.usable(),
    ensures
        forall|t: Trit| #[trigger] f.membership(t) == g.membership(t),
        f.inserted() == g.inserted(),
{
    assert forall|t: Trit| #[trigger] f.membership(t) == g.membership(t) by {
        assert forall|j: int| 0 <= j < f.hashes() implies #[trigger] f.has_bit(
            bloom_position(t, j, f.bits_len() as int),
        ) == g.has_bit(bloom_position(t, j, g.bits_len() as int)) by {
            let i = bloom_position(t, j, f.bits_len() as int);
            assert(0 <= i < f.bits_len());
        }
        if f.all_hit(t) {
            assert forall|j: int| 0 <= j < g.hashes() implies #[trigger] g.has_bit(
                bloom_position(t, j, g.bits_len() as int),
            ) by {
                assert(f.has_bit(bloom_position(t, j, f.bits_len() as int)));
            }
        }
        if g.all_hit(t) {
            assert forall|j: int| 0 <= j < f.hashes() implies #[trigger] f.has_bit(
                bloom_position(t, j, f.bits_len() as int),
            ) by {
                assert(g.has_bit(bloom_position(t, j, g.bits_len() as int)));
            }
        }
    }
}

/// Law: two fresh filters of the same size and hash functions are in the same state;
/// so a cleared filter is in the state of a new one.
pub proof fn law_fresh_filters_agree(f: TernaryBloomFilter, g: TernaryBloomFilter, m: nat, k: nat)
    requires
        f.is_fresh(m, k),
        g.is_fresh(m, k),
    ensures
        f.same_state(&g),
{
}

/// Law: inserting the same trits into filters in the same state leaves them in the same
/// state; so a cleared filter keeps answering like a new one through any later
/// insertions, and the state an insertion sequence leaves is determined by it.
pub proof fn law_insertions_agree(
    f0: TernaryBloomFilter,
    g0: TernaryBloomFilter,
    f1: TernaryBloomFilter,
    g1: TernaryBloomFilter,
    s: Seq<Trit>,
)
    requires
        f0.same_state(&g0),
        f1.inserted_from(&f0, s),
        g1.inserted_from(&g0, s),
    ensures
        f1.same_state(&g1),
{
    assert forall|i: int| 0 <= i < f1.bits_len() implies #[trigger] f1.has_bit(i) == g1.has_bit(
        i,
    ) by {
        assert(f0.has_bit(i) == g0.has_bit(i));
        assert forall|k: int| 0 <= k < s.len() implies f0.hits(#[trigger] s[k], i) == g0.hits(
            s[k],
            i,
        ) by {}
        if exists|k: int| 0 <= k < s.len() && f0.hits(#[trigger] s[k], i) {
            let k = choose|k: int| 0 <= k < s.len() && f0.hits(#[trigger] s[k], i);
            assert(g0.hits(s[k], i));
        }
        if exists|k: int| 0 <= k < s.len() && g0.hits(#[trigger] s[k], i) {
            let k = choose|k: int| 0 <= k < s.len() && g0.hits(#[trigger] s[k], i);
            assert(f0.hits(s[k], i));
        }
    }
}

/// Law: inserting nothing leaves the state unchanged.
pub proof fn law_insert_nothing(f0: TernaryBloomFilter, f1: TernaryBloomFilter)
    requires
        f0.wf(),
        f1.inserted_from(&f0, Seq::empty()),
    ensures
        f1.same_state(&f0),
{
}

/// Law: inserting `a` and then `t` leaves what inserting `a.push(t)` leaves. With
/// `law_insert_nothing` and `law_insertions_agree`, `insert_slice` answers every query
/// as the same trits inserted one by one with `insert` do.
pub proof fn law_insert_slice_is_repeated_insert(
    f0: TernaryBloomFilter,
    f1: TernaryBloomFilter,
    f2: TernaryBloomFilter,
    a: Seq<Trit>,
    t: Trit,
)
    requires
        f1.inserted_from(&f0, a),
        f2.inserted_from(&f1, seq![t]),
    ensures
        f2.inserted_from(&f0, a.push(t)),
{
    let s = a.push(t);
    assert forall|i: int| 0 <= i < f2.bits_len() implies #[trigger] f2.has_bit(i) == (f0.has_bit(i)
        || exists|k: int| 0 <= k < s.len() && f0.hits(#[trigger] s[k], i)) by {
        assert(f1.has_bit(i) == (f0.has_bit(i) || exists|k: int|
            0 <= k < a.len() && f0.hits(#[trigger] a[k], i)));
        assert(f2.has_bit(i) == (f1.has_bit(i) || exists|k: int|
            0 <= k < 1 && f1.hits(#[trigger] seq![t][k], i)));
        assert(seq![t][0] == t);
        assert(f1.hits(t, i) == f0.hits(t, i));
        if exists|k: int| 0 <= k < a.len() && f0.hits(#[trigger] a[k], i) {
            let k = choose|k: int| 0 <= k < a.len() && f0.hits(#[trigger] a[k], i);
            assert(s[k] == a[k]);
        }
        if f0.hits(t, i) {
            assert(s[a.len() as int] == t);
        }
        if exists|k: int| 0 <= k < s.len() && f0.hits(#[trigger] s[k], i) {
            let k = choose|k: int| 0 <= k < s.len() && f0.hits(#[trigger] s[k], i);
            if k < a.len() {
                assert(a[k] == s[k]);
            }
        }
        if exists|k: int| 0 <= k < 1 && f1.hits(#[trigger] seq![t][k], i) {
            let k = choose|k: int| 0 <= k < 1 && f1.hits(#[trigger] seq![t][k], i);
            assert(k == 0);
        }
    }
}

/// Law: no false negatives. A filter in which every bit of `t` is set and something
/// was inserted never answers `No` for `t`; after `insert(t)` and any later insertions
/// this holds (see `insert`'s contract and `law_hits_persist`).
pub proof fn law_no_false_negatives(f: TernaryBloomFilter, t: Trit)
    requires
        f.all_hit(t),
        f.inserted() > 0,
    ensures
        f.membership(t) != TernaryMembership::No,
{
}

} // verus!
