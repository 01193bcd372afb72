//! Band-based locality-sensitive hashing of trit vectors.

use vstd::prelude::*;

use vstd::arithmetic::power::pow;

use crate::minhash::SEED_MULTIPLIER;
use crate::poly::{code_poly, lemma_code_poly_push, lemma_horner_step_mod};
use crate::{law_matches_upto, matches_upto, Trit};

verus! {

/// A trit can be hashed into a band row: `t + 1` is an `i8` and its code plus one is a `u64`.
pub open spec fn row_fits(t: Trit) -> bool {
    t < 127 && ((t + 1) as u64) < u64::MAX
}

/// The starting value of the hash of band `b`.
pub open spec fn band_seed(b: int) -> u64 {
    (b as u64).wrapping_mul(SEED_MULTIPLIER)
}

/// One row step of a band hash: `h * 31 + (t + 1) + 1` (wrapping).
pub open spec fn row_step(h: u64, t: Trit) -> u64 {
    h.wrapping_mul(31).wrapping_add((((t + 1) as u64) + 1) as u64)
}

/// The band hash reached from `h` after the rows of `s`, in order.
pub open spec fn band_fold(h: u64, s: Seq<Trit>) -> u64
    decreases s.len(),
{
    if s.len() == 0 {
        h
    } else {
        row_step(band_fold(h, s.drop_last()), s.last())
    }
}

/// The end of band `b` within a vector of length `len`: `min((b + 1) * rows, len)`.
pub open spec fn band_stop(len: int, b: int, rows: int) -> int {
    if (b + 1) * rows < len {
        (b + 1) * rows
    } else {
        len
    }
}

/// The rows of `s` that band `b` covers: from `b * rows` up to `band_stop`,
/// empty when the band starts at or after that end.
pub open spec fn band_rows(s: Seq<Trit>, b: int, rows: int) -> Seq<Trit> {
    let stop = band_stop(s.len() as int, b, rows);
    let lo = if b * rows < stop {
        b * rows
    } else {
        stop
    };
    s.subrange(lo, stop)
}

/// The hash of band `b` of `s`.
pub open spec fn band_hash(s: Seq<Trit>, b: int, rows: int) -> u64 {
    band_fold(band_seed(b), band_rows(s, b, rows))
}

/// Inverse of 31 modulo 2^64.
pub const INVERSE_OF_31: u64 = 0xef7bdef7bdef7bdf;

/// Inverse of `SEED_MULTIPLIER` modulo 2^64.
pub const SEED_MULTIPLIER_INVERSE: u64 = 0xf1de83e19937733d;

/// One row step on a trit is `h * 31 + (t + 2)` modulo 2^64.
proof fn lemma_row_step_value(h: u64, t: Trit)
    requires
        -1 <= t < 127,
    ensures
        row_step(h, t) as int == (h * 31 + (t + 2)) % 0x1_0000_0000_0000_0000int,
{
    let m: int = 0x1_0000_0000_0000_0000int;
    let a = h.wrapping_mul(31);
    assert(a as int == (h * 31) % m);
    vstd::arithmetic::div_mod::lemma_add_mod_noop(h * 31, t + 2, m);
    vstd::arithmetic::div_mod::lemma_small_mod((t + 2) as nat, m as nat);
}

/// Law: a band hash is a base-31 number. From start value `h`, the rows `s` give
/// `h * 31^n` plus the row codes `t + 2` read as base-31 digits, reduced modulo 2^64.
pub proof fn law_band_fold_closed_form(h: u64, s: Seq<Trit>)
    requires
        forall|k: int| 0 <= k < s.len() ==> -1 <= #[trigger] s[k] < 127,
    ensures
        band_fold(h, s) as int == (h * pow(31, s.len()) + code_poly(31, s))
            % 0x1_0000_0000_0000_0000int,
    decreases s.len(),
{
    let m: int = 0x1_0000_0000_0000_0000int;
    reveal(pow);
    if s.len() == 0 {
        assert(pow(31, 0) == 1);
        vstd::arithmetic::div_mod::lemma_small_mod(h as nat, m as nat);
    } else {
        let p = s.drop_last();
        let t = s.last();
        let n = s.len();
        assert(-1 <= s[n - 1] < 127);
        law_band_fold_closed_form(h, p);
        assert(p.push(t) =~= s);
        lemma_code_poly_push(31, p, t);
        lemma_row_step_value(band_fold(h, p), t);
        let q = pow(31, (n - 1) as nat);
        let cp = code_poly(31, p);
        let a = h * q + cp;
        lemma_horner_step_mod(band_fold(h, p) as int, a, 31, t + 2, m);
        assert(pow(31, n as nat) == 31 * q);
        assert(a * 31 + (t + 2) == h * (31 * q) + (cp * 31 + (t + 2))) by (nonlinear_arith)
            requires
                a == h * q + cp,
        ;
    }
}

/// Law: band `b` starts from `b * SEED_MULTIPLIER` modulo 2^64, and different bands
/// start from different values.
pub proof fn law_band_seeds(b: int, c: int)
    requires
        0 <= b <= u64::MAX,
        0 <= c <= u64::MAX,
    ensures
        band_seed(b) as int == (b * SEED_MULTIPLIER) % 0x1_0000_0000_0000_0000int,
        b != c ==> band_seed(b) != band_seed(c),
{
    if band_seed(b) == band_seed(c) {
        crate::inverse::lemma_u64_mul_injective(
            b as u64,
            c as u64,
            SEED_MULTIPLIER,
            SEED_MULTIPLIER_INVERSE,
        );
    }
}

/// Hashing the same rows from different start values gives different band hashes.
proof fn lemma_band_fold_injective(h1: u64, h2: u64, s: Seq<Trit>)
    requires
        band_fold(h1, s) == band_fold(h2, s),
    ensures
        h1 == h2,
    decreases s.len(),
{
    if s.len() > 0 {
        let p = s.drop_last();
        let x1 = band_fold(h1, p);
        let x2 = band_fold(h2, p);
        let c = (((s.last() + 1) as u64) + 1) as u64;
        assert(x1.wrapping_mul(31).wrapping_add(c) == x2.wrapping_mul(31).wrapping_add(c));
        assert(x1.wrapping_mul(31) == x2.wrapping_mul(31));
        crate::inverse::lemma_u64_mul_injective(x1, x2, 31, INVERSE_OF_31);
        lemma_band_fold_injective(h1, h2, p);
    }
}

/// LSH band for ternary vectors.
#[derive(Clone, Debug)]
pub struct TernaryLSH {
    num_bands: usize,
    rows_per_band: usize,
    hash_size: usize,
}

impl TernaryLSH {
    /// The number of bands.
    pub closed spec fn bands(&self) -> nat {
        self.num_bands as nat
    }

    /// The number of rows in each band.
    pub closed spec fn rows(&self) -> nat {
        self.rows_per_band as nat
    }

    /// The total signature length.
    pub closed spec fn size(&self) -> nat {
        self.hash_size as nat
    }

    /// The total signature length is bands times rows.
    pub closed spec fn wf(&self) -> bool {
        self.hash_size == self.num_bands * self.rows_per_band
    }

    /// Every row that some band of this LSH reads from `s` can be hashed.
    pub open spec fn hashable(&self, s: Seq<Trit>) -> bool {
        forall|k: int| 0 <= k < s.len() && k < self.size() ==> row_fits(#[trigger] s[k])
    }

    /// The band signature of `s`: one band hash per band.
    pub open spec fn signature(&self, s: Seq<Trit>) -> Seq<u64> {
        Seq::new(self.bands(), |b: int| band_hash(s, b, self.rows() as int))
    }

    /// Law: two vectors are candidates exactly when they match in at least one band.
    pub proof fn law_candidates_iff_some_band(&self, a: Seq<Trit>, b: Seq<Trit>)
        ensures
            (exists|j: int|
                0 <= j < self.bands() && #[trigger] self.signature(a)[j] == self.signature(b)[j])
                <==> matches_upto(self.signature(a), self.signature(b), self.bands() as int) > 0,
    {
        law_matches_upto(self.signature(a), self.signature(b), self.bands() as int);
    }

    /// Law: a vector matches itself in every band, and so is its own candidate whenever
    /// there is a band at all; band matching is symmetric.
    pub proof fn law_identical_vectors(&self, a: Seq<Trit>, b: Seq<Trit>)
        ensures
            matches_upto(self.signature(a), self.signature(a), self.bands() as int)
                == self.bands(),
            self.bands() > 0 ==> exists|j: int|
                0 <= j < self.bands() && #[trigger] self.signature(a)[j] == self.signature(a)[j],
            matches_upto(self.signature(a), self.signature(b), self.bands() as int)
                == matches_upto(self.signature(b), self.signature(a), self.bands() as int),
    {
        law_matches_upto(self.signature(a), self.signature(a), self.bands() as int);
        law_matches_upto(self.signature(a), self.signature(b), self.bands() as int);
        if self.bands() > 0 {
            assert(self.signature(a)[0] == self.signature(a)[0]);
        }
    }

    /// Law: a band only looks at its own rows. Two vectors that both cover band `j`
    /// and agree on its rows have the same hash in that band, and so are candidates.
    pub proof fn law_band_locality(&self, a: Seq<Trit>, b: Seq<Trit>, j: int)
        requires
            0 <= j < self.bands(),
            (j + 1) * self.rows() <= a.len(),
            (j + 1) * self.rows() <= b.len(),
            forall|k: int|
                j * self.rows() <= k < (j + 1) * self.rows() ==> #[trigger] a[k] == b[k],
        ensures
            self.signature(a)[j] == self.signature(b)[j],
    {
        let r = self.rows() as int;
        assert(j * r <= (j + 1) * r) by (nonlinear_arith)
            requires
                0 <= j,
                0 <= r,
        ;
        assert(band_rows(a, j, r) =~= band_rows(b, j, r));
    }

    /// Law: every band is salted by its index. Two different bands of a vector that hold
    /// the same rows still get different hashes.
    pub proof fn law_bands_are_salted(&self, v: Seq<Trit>, b1: int, b2: int)
        requires
            0 <= b1 < self.bands(),
            0 <= b2 < self.bands(),
            b1 != b2,
            band_rows(v, b1, self.rows() as int) == band_rows(v, b2, self.rows() as int),
        ensures
            self.signature(v)[b1] != self.signature(v)[b2],
    {
        let rows = band_rows(v, b1, self.rows() as int);
        law_band_seeds(b1, b2);
        if band_fold(band_seed(b1), rows) == band_fold(band_seed(b2), rows) {
            lemma_band_fold_injective(band_seed(b1), band_seed(b2), rows);
        }
    }

    /// Law: band `j` of the signature of `v` is the band's seed `j * SEED_MULTIPLIER`
    /// times 31^n plus the codes `t + 2` of its `n` rows read as base-31 digits, all
    /// modulo 2^64.
    pub proof fn law_signature_closed_form(&self, v: Seq<Trit>, j: int)
        requires
            0 <= j < self.bands(),
            forall|k: int| 0 <= k < v.len() ==> -1 <= #[trigger] v[k] < 127,
        ensures
            ({
                let rows = band_rows(v, j, self.rows() as int);
                self.signature(v)[j] as int == ((j * SEED_MULTIPLIER) * pow(31, rows.len())
                    + code_poly(31, rows)) % 0x1_0000_0000_0000_0000int
            }),
    {
        let m: int = 0x1_0000_0000_0000_0000int;
        let r = self.rows() as int;
        let rows = band_rows(v, j, r);
        let stop = band_stop(v.len() as int, j, r);
        assert(0 <= stop <= v.len());
        assert forall|k: int| 0 <= k < rows.len() implies -1 <= #[trigger] rows[k] < 127 by {
            let lo = if j * r < stop {
                j * r
            } else {
                stop
            };
            assert(0 <= j * r) by (nonlinear_arith)
                requires
                    0 <= j,
                    0 <= r,
            ;
            assert(rows[k] == v[lo + k]);
        }
        law_band_fold_closed_form(band_seed(j), rows);
        law_band_seeds(j, j);
        let q = pow(31, rows.len());
        vstd::arithmetic::div_mod::lemma_mul_mod_noop_left(j * SEED_MULTIPLIER, q, m);
        vstd::arithmetic::div_mod::lemma_add_mod_noop(
            (j * SEED_MULTIPLIER) * q,
            code_poly(31, rows),
            m,
        );
        vstd::arithmetic::div_mod::lemma_add_mod_noop(
            (band_seed(j) as int) * q,
            code_poly(31, rows),
            m,
        );
    }

    /// Create a new LSH with `num_bands` bands of `rows_per_band` rows each.
    pub fn new(num_bands: usize, rows_per_band: usize) -> (lsh: Self)
        requires
            num_bands * rows_per_band <= usize::MAX,
        ensures
            lsh.wf(),
            lsh.bands() == num_bands,
            lsh.rows() == rows_per_band,
            lsh.size() == num_bands * rows_per_band,
    {
        TernaryLSH { num_bands, rows_per_band, hash_size: num_bands * rows_per_band }
    }

    /// Hash a ternary vector into its band signatures.
    pub fn hash(&self, trits: &[Trit]) -> (r: Vec<u64>)
        requires
            self.wf(),
            self.hashable(trits@),
        ensures
            r@ == self.signature(trits@),
    {
        let nb = self.num_bands;
        let rows = self.rows_per_band;
        let len = trits.len();
        let mut bands: Vec<u64> = Vec::new();
        let mut band: usize = 0;
        while band < nb
            invariant
                nb == self.num_bands,
                rows == self.rows_per_band,
                len == trits@.len(),
                self.wf(),
                self.hashable(trits@),
                0 <= band <= nb,
                bands@.len() == band,
                forall|j: int| 0 <= j < band ==> #[trigger] bands@[j] == band_hash(trits@, j, rows as int),
            decreases nb - band,
        {
            proof {
                assert(band * rows + rows <= nb * rows) by (nonlinear_arith)
                    requires
                        band < nb,
                ;
                assert((band + 1) * rows == band * rows + rows) by (nonlinear_arith);
            }
            let start = band * rows;
            let end = start + rows;
            let stop = if end < len {
                end
            } else {
                len
            };
            let mut h: u64 = (band as u64).wrapping_mul(SEED_MULTIPLIER);
            let mut i: usize = start;
            let ghost lo: int = if start < stop {
                start as int
            } else {
                stop as int
            };
            assert(stop == band_stop(len as int, band as int, rows as int));
            assert(start < stop ==> trits@.subrange(start as int, start as int) =~= Seq::<
                Trit,
            >::empty());
            while i < stop
                invariant
                    start <= i,
                    start < stop ==> i <= stop,
                    stop <= len,
                    stop <= start + rows,
                    start + rows <= self.hash_size,
                    start < stop ==> lo == start,
                    start >= stop ==> lo == stop && i == start,
                    len == trits@.len(),
                    self.hashable(trits@),
                    start < stop ==> h == band_fold(
                        band_seed(band as int),
                        trits@.subrange(start as int, i as int),
                    ),
                    start >= stop ==> h == band_seed(band as int),
                decreases stop - i,
            {
                let t = trits[i];
                assert(row_fits(trits@[i as int]));
                let v = (t + 1) as u64;
                h = h.wrapping_mul(31).wrapping_add(v + 1);
                assert(trits@.subrange(start as int, i + 1).drop_last() =~= trits@.subrange(
                    start as int,
                    i as int,
                ));
                i = i + 1;
            }
            assert(band_rows(trits@, band as int, rows as int) =~= trits@.subrange(
                lo,
                stop as int,
            ));
            assert(h == band_hash(trits@, band as int, rows as int));
            bands.push(h);
            band = band + 1;
        }
        assert(bands@ =~= self.signature(trits@));
        bands
    }

    /// Check if two ternary vectors are candidates for being similar: some band agrees.
    pub fn are_candidates(&self, a: &[Trit], b: &[Trit]) -> (r: bool)
        requires
            self.wf(),
            self.hashable(a@),
            self.hashable(b@),
        ensures
            r == exists|j: int|
                0 <= j < self.bands() && #[trigger] self.signature(a@)[j] == self.signature(b@)[j],
    {
        let ha = self.hash(a);
        let hb = self.hash(b);
        let n = ha.len();
        let mut i: usize = 0;
        while i < n
            invariant
                n == ha@.len(),
                n == hb@.len(),
                n == self.bands(),
                ha@ == self.signature(a@),
                hb@ == self.signature(b@),
                0 <= i <= n,
                forall|j: int| 0 <= j < i ==> ha@[j] != hb@[j],
            decreases n - i,
        {
            if ha[i] == hb[i] {
                return true;
            }
            i = i + 1;
        }
        false
    }

    /// The number of bands in which the two vectors agree.
    pub fn matching_bands(&self, a: &[Trit], b: &[Trit]) -> (r: usize)
        requires
            self.wf(),
            self.hashable(a@),
            self.hashable(b@),
        ensures
            r == matches_upto(self.signature(a@), self.signature(b@), self.bands() as int),
    {
        let ha = self.hash(a);
        let hb = self.hash(b);
        let n = ha.len();
        let mut count: usize = 0;
        let mut i: usize = 0;
        while i < n
            invariant
                n == ha@.len(),
                n == hb@.len(),
                n == self.bands(),
                ha@ == self.signature(a@),
                hb@ == self.signature(b@),
                0 <= i <= n,
                count == matches_upto(ha@, hb@, i as int),
                count <= i,
            decreases n - i,
        {
            if ha[i] == hb[i] {
                count = count + 1;
            }
            i = i + 1;
        }
        count
    }

    /// Return the hash size (total signature length).
    pub fn hash_size(&self) -> (r: usize)
        ensures
            r == self.size(),
    {
        self.hash_size
    }

    /// Number of bands.
    pub fn num_bands(&self) -> (r: usize)
        ensures
            r == self.bands(),
    {
        self.num_bands
    }
}

} // verus!
