//! Compact, mergeable summaries of trit sequences.

use vstd::prelude::*;

use vstd::arithmetic::power::pow;

use crate::poly::{code_poly, lemma_code_poly_push, lemma_horner_step_mod};
use crate::{is_trit, Trit};

verus! {

broadcast use {
    vstd::seq_lib::to_multiset_build,
    vstd::seq_lib::lemma_multiset_commutative,
    vstd::multiset::group_multiset_axioms,
};

/// Every element of `s` is a trit.
pub open spec fn all_trits(s: Seq<Trit>) -> bool {
    forall|k: int| 0 <= k < s.len() ==> is_trit(#[trigger] s[k])
}

/// The number of times `v` occurs in `s`.
pub open spec fn occurrences(s: Seq<Trit>, v: Trit) -> nat {
    s.to_multiset().count(v)
}

/// The sum of the trits of `s`.
pub open spec fn trit_sum(s: Seq<Trit>) -> int
    decreases s.len(),
{
    if s.len() == 0 {
        0
    } else {
        trit_sum(s.drop_last()) + s.last()
    }
}

/// One step of the sketch fingerprint.
pub open spec fn sketch_step(h: u64, t: Trit) -> u64 {
    h.wrapping_mul(31).wrapping_add((t as u64).wrapping_add(2))
}

/// The sketch fingerprint reached from `h` after absorbing the trits of `s` in order.
pub open spec fn sketch_fold(h: u64, s: Seq<Trit>) -> u64
    decreases s.len(),
{
    if s.len() == 0 {
        h
    } else {
        sketch_step(sketch_fold(h, s.drop_last()), s.last())
    }
}

/// Every running sum `base + (sum of a prefix of s)` fits in an `i64`.
pub open spec fn sums_fit(base: int, s: Seq<Trit>) -> bool {
    forall|k: int|
        0 <= k <= s.len() ==> i64::MIN <= base + #[trigger] trit_sum(s.take(k)) <= i64::MAX
}

/// A compact sketch (fingerprint) of a ternary sequence.
#[derive(Clone, Debug)]
pub struct TernarySketch {
    /// Feature counts: [count_neg, count_zero, count_pos]
    counts: [usize; 3],
    /// Running hash of the sequence.
    fingerprint: u64,
    /// Length of the sketched sequence.
    length: usize,
    /// Sum of the trits.
    weighted_sum: i64,
}

impl TernarySketch {
    /// The counts `[neg, zero, pos]`.
    pub closed spec fn tallies(&self) -> Seq<usize> {
        self.counts@
    }

    /// The count of the trit `v` (the entry at `v + 1`).
    pub open spec fn tally(&self, v: Trit) -> usize {
        self.tallies()[v + 1]
    }

    /// The number of trits sketched.
    pub closed spec fn size(&self) -> usize {
        self.length
    }

    /// The sum of the trits sketched.
    pub closed spec fn signed_sum(&self) -> i64 {
        self.weighted_sum
    }

    /// The rolling fingerprint.
    pub closed spec fn digest(&self) -> u64 {
        self.fingerprint
    }

    /// The length is the sum of the counts and the weighted sum is `pos - neg`.
    pub closed spec fn wf(&self) -> bool {
        &&& self.counts@.len() == 3
        &&& self.length == self.counts@[0] + self.counts@[1] + self.counts@[2]
        &&& self.weighted_sum == self.counts@[2] - self.counts@[0]
    }

    /// This sketch is the summary of the trit sequence `s`: it counts each trit value
    /// of `s`, and its length is that of `s`.
    pub open spec fn summarizes(&self, s: Seq<Trit>) -> bool {
        &&& self.wf()
        &&& all_trits(s)
        &&& forall|v: Trit| is_trit(v) ==> #[trigger] self.tally(v) == occurrences(s, v)
        &&& self.size() == s.len()
    }

    /// Law: in every well-formed sketch (every sketch that `new`, `add`, `add_slice` and
    /// `merge` build) there are three counts, the length is their sum, and the weighted
    /// sum is the positive count minus the negative count.
    pub proof fn law_sketch_consistent(&self)
        requires
            self.wf(),
        ensures
            self.tallies().len() == 3,
            self.size() == self.tallies()[0] + self.tallies()[1] + self.tallies()[2],
            self.signed_sum() == self.tallies()[2] - self.tallies()[0],
    {
    }

    /// Create a new empty sketch.
    pub fn new() -> (s: Self)
        ensures
            s.wf(),
            s.summarizes(Seq::empty()),
            s.tallies() == seq![0usize, 0usize, 0usize],
            s.size() == 0,
            s.signed_sum() == 0,
            s.digest() == 0,
    {
        let s = TernarySketch { counts: [0, 0, 0], fingerprint: 0, length: 0, weighted_sum: 0 };
        assert(s.counts@ =~= seq![0usize, 0usize, 0usize]);
        proof {
            lemma_no_occurrences_in_empty(Seq::empty());
        }
        s
    }

    /// Add a trit to the sketch.
    pub fn add(&mut self, trit: Trit)
        requires
            old(self).wf(),
            is_trit(trit),
            old(self).size() < usize::MAX,
            i64::MIN <= old(self).signed_sum() + trit <= i64::MAX,
        ensures
            final(self).wf(),
            final(self).tallies() == old(self).tallies().update(
                trit + 1,
                (old(self).tally(trit) + 1) as usize,
            ),
            final(self).size() == old(self).size() + 1,
            final(self).signed_sum() == old(self).signed_sum() + trit,
            final(self).digest() == sketch_step(old(self).digest(), trit),
    {
        let idx = (trit + 1) as usize;
        self.counts[idx] = self.counts[idx] + 1;
        self.length = self.length + 1;
        self.weighted_sum = self.weighted_sum + trit as i64;
        self.fingerprint = self.fingerprint.wrapping_mul(31).wrapping_add(
            (trit as u64).wrapping_add(2),
        );
    }

    /// Add a slice of trits, one after the other.
    pub fn add_slice(&mut self, trits: &[Trit])
        requires
            old(self).wf(),
            all_trits(trits@),
            old(self).size() + trits@.len() <= usize::MAX,
            sums_fit(old(self).signed_sum() as int, trits@),
        ensures
            final(self).wf(),
            forall|v: Trit|
                is_trit(v) ==> #[trigger] final(self).tally(v) == old(self).tally(v) + occurrences(
                    trits@,
                    v,
                ),
            final(self).size() == old(self).size() + trits@.len(),
            final(self).signed_sum() == old(self).signed_sum() + trit_sum(trits@),
            final(self).digest() == sketch_fold(old(self).digest(), trits@),
            forall|s0: Seq<Trit>|
                old(self).summarizes(s0) ==> #[trigger] final(self).summarizes(s0 + trits@),
    {
        let ghost start = *self;
        let n = trits.len();
        proof {
            lemma_no_occurrences_in_empty(trits@.take(0));
        }
        let mut i: usize = 0;
        while i < n
            invariant
                n == trits@.len(),
                0 <= i <= n,
                start.wf(),
                self.wf(),
                all_trits(trits@),
                start.size() + n <= usize::MAX,
                sums_fit(start.signed_sum() as int, trits@),
                forall|v: Trit|
                    is_trit(v) ==> #[trigger] self.tally(v) == start.tally(v) + occurrences(
                        trits@.take(i as int),
                        v,
                    ),
                self.size() == start.size() + i,
                self.signed_sum() == start.signed_sum() + trit_sum(trits@.take(i as int)),
                self.digest() == sketch_fold(start.digest(), trits@.take(i as int)),
            decreases n - i,
        {
            let t = trits[i];
            assert(is_trit(trits@[i as int]));
            let ghost pre = trits@.take(i as int);
            assert(trits@.take(i + 1) =~= pre.push(t));
            assert(trits@.take(i + 1).drop_last() =~= pre);
            assert(trits@.take(i + 1).to_multiset() =~= pre.to_multiset().insert(t));
            assert(i64::MIN <= start.signed_sum() + trit_sum(trits@.take(i + 1)) <= i64::MAX);
            let ghost mid = *self;
            self.add(t);
            assert forall|v: Trit| is_trit(v) implies #[trigger] self.tally(v) == start.tally(v)
                + occurrences(trits@.take(i + 1), v) by {
                assert(mid.tally(v) == start.tally(v) + occurrences(pre, v));
                assert(pre.to_multiset().insert(t).count(v) == pre.to_multiset().count(v) + if v
                    == t {
                    1int
                } else {
                    0int
                });
                if v != t {
                    assert(self.tallies()[v + 1] == mid.tallies()[v + 1]);
                }
            }
            i = i + 1;
        }
        assert(trits@.take(n as int) =~= trits@);
        assert forall|s0: Seq<Trit>| old(self).summarizes(s0) implies #[trigger] self.summarizes(
            s0 + trits@,
        ) by {
            lemma_all_trits_concat(s0, trits@);
        }
    }

    /// Return the fingerprint hash.
    pub fn fingerprint(&self) -> (r: u64)
        ensures
            r == self.digest(),
    {
        self.fingerprint
    }

    /// Return the counts [neg, zero, pos].
    pub fn counts(&self) -> (r: &[usize; 3])
        ensures
            r@ == self.tallies(),
    {
        &self.counts
    }

    /// Return the length of the sketched sequence.
    pub fn len(&self) -> (r: usize)
        ensures
            r == self.size(),
    {
        self.length
    }

    /// Check if the sketch is empty.
    pub fn is_empty(&self) -> (r: bool)
        ensures
            r == (self.size() == 0),
    {
        self.length == 0
    }

    /// Merge another sketch into this one: counts, length and weighted sum add up,
    /// and the fingerprints combine as `self * 37 + other` (wrapping).
    pub fn merge(&mut self, other: &TernarySketch)
        requires
            old(self).wf(),
            other.wf(),
            old(self).size() + other.size() <= usize::MAX,
            i64::MIN <= old(self).signed_sum() + other.signed_sum() <= i64::MAX,
        ensures
            final(self).wf(),
            forall|j: int|
                0 <= j < 3 ==> #[trigger] final(self).tallies()[j] == old(self).tallies()[j]
                    + other.tallies()[j],
            final(self).size() == old(self).size() + other.size(),
            final(self).signed_sum() == old(self).signed_sum() + other.signed_sum(),
            final(self).digest() == old(self).digest().wrapping_mul(37).wrapping_add(
                other.digest(),
            ),
            forall|a: Seq<Trit>, b: Seq<Trit>|
                old(self).summarizes(a) && other.summarizes(b) ==> #[trigger] final(self).summarizes(
                    a + b,
                ),
    {
        let mut i: usize = 0;
        while i < 3
            invariant
                0 <= i <= 3,
                self.counts@.len() == 3,
                other.wf(),
                old(self).wf(),
                old(self).size() + other.size() <= usize::MAX,
                self.length == old(self).length,
                self.weighted_sum == old(self).weighted_sum,
                self.fingerprint == old(self).fingerprint,
                forall|j: int| 0 <= j < i ==> #[trigger] self.counts@[j] == old(self).counts@[j]
                    + other.counts@[j],
                forall|j: int| i <= j < 3 ==> #[trigger] self.counts@[j] == old(self).counts@[j],
            decreases 3 - i,
        {
            self.counts[i] = self.counts[i] + other.counts[i];
            i = i + 1;
        }
        self.length = self.length + other.length;
        self.weighted_sum = self.weighted_sum + other.weighted_sum;
        self.fingerprint = self.fingerprint.wrapping_mul(37).wrapping_add(other.fingerprint);
        assert forall|a: Seq<Trit>, b: Seq<Trit>|
            old(self).summarizes(a) && other.summarizes(b) implies #[trigger] self.summarizes(
            a + b,
        ) by {
            lemma_all_trits_concat(a, b);
            assert forall|v: Trit| is_trit(v) implies #[trigger] self.tally(v) == occurrences(
                a + b,
                v,
            ) by {
                assert(self.tallies()[v + 1] == old(self).tallies()[v + 1] + other.tallies()[v
                    + 1]);
                assert(old(self).tally(v) == occurrences(a, v));
                assert(other.tally(v) == occurrences(b, v));
                assert((a + b).to_multiset() =~= a.to_multiset().add(b.to_multiset()));
            }
        }
    }

    /// Weighted sum of trits.
    pub fn weighted_sum(&self) -> (r: i64)
        ensures
            r == self.signed_sum(),
    {
        self.weighted_sum
    }
}

/// A concatenation of trit sequences is a trit sequence.
proof fn lemma_all_trits_concat(a: Seq<Trit>, b: Seq<Trit>)
    requires
        all_trits(a),
        all_trits(b),
    ensures
        all_trits(a + b),
{
    assert forall|k: int| 0 <= k < (a + b).len() implies is_trit(#[trigger] (a + b)[k]) by {
        if k >= a.len() {
            assert((a + b)[k] == b[k - a.len()]);
        }
    }
}

/// Law: sketching streams. Feeding `a` and then `b` gives the counts, the sum and the
/// fingerprint that feeding `a + b` gives, and the running sums of `a + b` stay in range
/// exactly when those of `a`, and then those of `b` from where `a` ended, do.
pub proof fn law_sketch_streaming(h: u64, base: int, a: Seq<Trit>, b: Seq<Trit>)
    ensures
        forall|v: Trit| #[trigger] occurrences(a + b, v) == occurrences(a, v) + occurrences(b, v),
        trit_sum(a + b) == trit_sum(a) + trit_sum(b),
        sketch_fold(h, a + b) == sketch_fold(sketch_fold(h, a), b),
        sums_fit(base, a + b) <==> (sums_fit(base, a) && sums_fit(base + trit_sum(a), b)),
{
    lemma_sketch_concat(h, a, b);
    assert forall|j: int| 0 <= j <= b.len() implies #[trigger] trit_sum((a + b).take(a.len() + j))
        == trit_sum(a) + trit_sum(b.take(j)) by {
        assert((a + b).take(a.len() + j) =~= a + b.take(j));
        lemma_sketch_concat(h, a, b.take(j));
    }
    if sums_fit(base, a + b) {
        assert forall|k: int| 0 <= k <= a.len() implies i64::MIN <= base + #[trigger] trit_sum(
            a.take(k),
        ) <= i64::MAX by {
            assert((a + b).take(k) =~= a.take(k));
        }
        assert forall|j: int| 0 <= j <= b.len() implies i64::MIN <= base + trit_sum(a)
            + #[trigger] trit_sum(b.take(j)) <= i64::MAX by {
            assert(trit_sum((a + b).take(a.len() + j)) == trit_sum(a) + trit_sum(b.take(j)));
        }
    }
    if sums_fit(base, a) && sums_fit(base + trit_sum(a), b) {
        assert forall|k: int| 0 <= k <= (a + b).len() implies i64::MIN <= base + #[trigger] trit_sum(
            (a + b).take(k),
        ) <= i64::MAX by {
            if k <= a.len() {
                assert((a + b).take(k) =~= a.take(k));
            } else {
                assert(trit_sum((a + b).take(a.len() + (k - a.len()))) == trit_sum(a) + trit_sum(
                    b.take(k - a.len()),
                ));
            }
        }
    }
}

/// The sum and the fingerprint of a concatenation continue from those of its first part.
proof fn lemma_sketch_concat(h: u64, a: Seq<Trit>, b: Seq<Trit>)
    ensures
        trit_sum(a + b) == trit_sum(a) + trit_sum(b),
        sketch_fold(h, a + b) == sketch_fold(sketch_fold(h, a), b),
    decreases b.len(),
{
    if b.len() == 0 {
        assert(a + b =~= a);
    } else {
        lemma_sketch_concat(h, a, b.drop_last());
        assert((a + b).drop_last() =~= a + b.drop_last());
        assert((a + b).last() == b.last());
    }
}

/// One fingerprint step on a trit is `x * 31 + (t + 2)` modulo 2^64.
proof fn lemma_sketch_step_value(x: u64, t: Trit)
    requires
        is_trit(t),
    ensures
        sketch_step(x, t) as int == (x * 31 + (t + 2)) % 0x1_0000_0000_0000_0000int,
{
    let m: int = 0x1_0000_0000_0000_0000int;
    assert(t < 0 ==> (t as u64) == 0xffff_ffff_ffff_ffffu64) by (bit_vector)
        requires
            -1 <= t <= 1,
    ;
    let c = (t as u64).wrapping_add(2);
    assert(c as int == t + 2);
    let a = x.wrapping_mul(31);
    assert(a as int == (x * 31) % m);
    vstd::arithmetic::div_mod::lemma_add_mod_noop(x * 31, t + 2, m);
    vstd::arithmetic::div_mod::lemma_small_mod((t + 2) as nat, m as nat);
    assert(a.wrapping_add(c) as int == (a as int + c as int) % m);
}

/// Law: the sketch fingerprint is a base-31 number. Starting from `h`, absorbing `s`
/// gives `h * 31^n` plus the trit codes `t + 2` of `s` read as base-31 digits (most
/// significant first), reduced modulo 2^64.
pub proof fn law_sketch_fingerprint_closed_form(h: u64, s: Seq<Trit>)
    requires
        all_trits(s),
    ensures
        sketch_fold(h, s) as int == (h * pow(31, s.len()) + code_poly(31, s))
            % 0x1_0000_0000_0000_0000int,
    decreases s.len(),
{
    let m: int = 0x1_0000_0000_0000_0000int;
    reveal(pow);
    if s.len() == 0 {
        assert(pow(31, 0) == 1);
        vstd::arithmetic::div_mod::lemma_small_mod(h as nat, m as nat);
    } else {
        let p = s.drop_last();
        let t = s.last();
        let n = s.len();
        assert(is_trit(s[n - 1]));
        law_sketch_fingerprint_closed_form(h, p);
        assert(p.push(t) =~= s);
        lemma_code_poly_push(31, p, t);
        lemma_sketch_step_value(sketch_fold(h, p), t);
        let q = pow(31, (n - 1) as nat);
        let a = h * q + code_poly(31, p);
        lemma_horner_step_mod(sketch_fold(h, p) as int, a, 31, t + 2, m);
        assert(pow(31, n as nat) == 31 * q);
        let cp = code_poly(31, p);
        assert(a * 31 + (t + 2) == h * (31 * q) + (cp * 31 + (t + 2))) by (nonlinear_arith)
            requires
                a == h * q + cp,
        ;
    }
}

/// Law: a sketch forgets the order of what it summarizes. A sketch of `a` is also a
/// sketch of any `b` with the same trits in another order (so `[1, 0, -1]` and
/// `[-1, 0, 1]` have the same counts).
pub proof fn law_sketch_order_free(sk: TernarySketch, a: Seq<Trit>, b: Seq<Trit>)
    requires
        sk.summarizes(a),
        a.to_multiset() =~= b.to_multiset(),
    ensures
        sk.summarizes(b),
{
    a.to_multiset_ensures();
    b.to_multiset_ensures();
    assert forall|k: int| 0 <= k < b.len() implies is_trit(#[trigger] b[k]) by {
        assert(b.contains(b[k]));
        assert(b.to_multiset().count(b[k]) > 0);
        assert(a.to_multiset().count(b[k]) > 0);
        assert(a.contains(b[k]));
        let j = choose|j: int| 0 <= j < a.len() && a[j] == b[k];
        assert(is_trit(a[j]));
    }
}

/// An empty sequence holds no trit.
proof fn lemma_no_occurrences_in_empty(s: Seq<Trit>)
    requires
        s.len() == 0,
    ensures
        forall|v: Trit| #[trigger] occurrences(s, v) == 0,
{
    s.to_multiset_ensures();
    assert forall|v: Trit| #[trigger] occurrences(s, v) == 0 by {
        if s.to_multiset().count(v) > 0 {
            assert(s.contains(v));
        }
    }
}

impl Default for TernarySketch {
    fn default() -> (s: Self)
        ensures
            s.wf(),
            s.summarizes(Seq::empty()),
            s.tallies() == seq![0usize, 0usize, 0usize],
            s.size() == 0,
            s.signed_sum() == 0,
            s.digest() == 0,
    {
        Self::new()
    }
}

} // verus!
