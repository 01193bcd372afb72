//! Polynomial rolling hash over trits.

use vstd::prelude::*;

use vstd::arithmetic::power::pow;

use crate::poly::{code_poly, lemma_code_poly_push, lemma_horner_step_mod};
use crate::{increments_fit, Trit};

verus! {

/// Base of the default hasher.
pub const DEFAULT_BASE: u64 = 31;

/// Modulus of the default hasher: the Mersenne prime 2^61 - 1.
pub const DEFAULT_MODULUS: u64 = 0x1fff_ffff_ffff_ffff;

/// What one trit adds in a step: `trit + 1`, taken as a `u64`.
pub open spec fn trit_code(t: Trit) -> int {
    ((t + 1) as u64) as int
}

/// One step of the hash: `(state * base + code + 1) mod modulus`.
pub open spec fn poly_step(state: int, base: int, modulus: int, t: Trit) -> int {
    (state * base + trit_code(t) + 1) % modulus
}

/// The state reached from `state` after feeding the trits of `s` in order.
pub open spec fn poly_fold(state: int, base: int, modulus: int, s: Seq<Trit>) -> int
    decreases s.len(),
{
    if s.len() == 0 {
        state
    } else {
        poly_step(poly_fold(state, base, modulus, s.drop_last()), base, modulus, s.last())
    }
}

/// Law: a hasher fed `a` and then `b` ends in the state that feeding `a + b` at once
/// gives. Together with the contracts of `update_slice` and `hash_slice`, this is why
/// incremental hashing and one-shot hashing agree.
pub proof fn law_incremental_hash(state: int, base: int, modulus: int, a: Seq<Trit>, b: Seq<Trit>)
    ensures
        poly_fold(state, base, modulus, a + b) == poly_fold(
            poly_fold(state, base, modulus, a),
            base,
            modulus,
            b,
        ),
    decreases b.len(),
{
    if b.len() == 0 {
        assert(a + b =~= a);
    } else {
        law_incremental_hash(state, base, modulus, a, b.drop_last());
        assert((a + b).drop_last() =~= a + b.drop_last());
        assert((a + b).last() == b.last());
    }
}

/// Law: the rolling hash is a base-`base` number modulo `modulus`. From a state below the
/// modulus, the trits `s` give `state * base^n` plus the codes `t + 2` of `s` read as
/// base-`base` digits (most significant first), reduced modulo `modulus`. With the
/// default parameters: the trit codes as a base-31 number modulo 2^61 - 1.
pub proof fn law_rolling_closed_form(state: int, base: int, modulus: int, s: Seq<Trit>)
    requires
        0 <= state < modulus,
        forall|k: int| 0 <= k < s.len() ==> -1 <= #[trigger] s[k] < 127,
    ensures
        poly_fold(state, base, modulus, s) == (state * pow(base, s.len()) + code_poly(base, s))
            % modulus,
    decreases s.len(),
{
    reveal(pow);
    if s.len() == 0 {
        assert(pow(base, 0) == 1);
        vstd::arithmetic::div_mod::lemma_small_mod(state as nat, modulus as nat);
    } else {
        let p = s.drop_last();
        let t = s.last();
        let n = s.len();
        assert(-1 <= s[n - 1] < 127);
        law_rolling_closed_form(state, base, modulus, p);
        assert(p.push(t) =~= s);
        lemma_code_poly_push(base, p, t);
        assert(trit_code(t) == t + 1);
        let q = pow(base, (n - 1) as nat);
        let cp = code_poly(base, p);
        let a = state * q + cp;
        lemma_horner_step_mod(poly_fold(state, base, modulus, p), a, base, t + 2, modulus);
        assert(pow(base, n as nat) == base * q);
        assert(a * base + (t + 2) == state * (base * q) + (cp * base + (t + 2)))
            by (nonlinear_arith)
            requires
                a == state * q + cp,
        ;
    }
}

/// Hasher for ternary sequences using a polynomial rolling hash.
#[derive(Clone, Debug)]
pub struct TernaryHash {
    state: u64,
    base: u64,
    modulus: u64,
}

impl TernaryHash {
    /// The current hash state.
    pub closed spec fn state(&self) -> u64 {
        self.state
    }

    /// The multiplier of each step.
    pub closed spec fn base(&self) -> u64 {
        self.base
    }

    /// The modulus of each step.
    pub closed spec fn modulus(&self) -> u64 {
        self.modulus
    }

    /// Create a new hasher with base 31 and modulus 2^61 - 1.
    pub fn new() -> (h: Self)
        ensures
            h.state() == 0,
            h.base() == DEFAULT_BASE,
            h.modulus() == DEFAULT_MODULUS,
    {
        TernaryHash { state: 0, base: DEFAULT_BASE, modulus: DEFAULT_MODULUS }
    }

    /// Create a hasher with custom base and modulus.
    pub fn with_params(base: u64, modulus: u64) -> (h: Self)
        ensures
            h.state() == 0,
            h.base() == base,
            h.modulus() == modulus,
    {
        TernaryHash { state: 0, base, modulus }
    }

    /// Update the hash with a single trit.
    pub fn update(&mut self, trit: Trit)
        requires
            old(self).modulus() > 0,
            trit < 127,
        ensures
            final(self).state() == poly_step(
                old(self).state() as int,
                old(self).base() as int,
                old(self).modulus() as int,
                trit,
            ),
            final(self).state() < final(self).modulus(),
            final(self).base() == old(self).base(),
            final(self).modulus() == old(self).modulus(),
    {
        let mapped = (trit + 1) as u64;
        let state = self.state as u128;
        let base = self.base as u128;
        proof {
            assert(state * base <= 0xffff_ffff_ffff_ffffu128 * 0xffff_ffff_ffff_ffffu128)
                by (nonlinear_arith)
                requires
                    state <= 0xffff_ffff_ffff_ffffu128,
                    base <= 0xffff_ffff_ffff_ffffu128,
            ;
        }
        let next = (state * base + mapped as u128 + 1) % (self.modulus as u128);
        self.state = next as u64;
    }

    /// Update the hash with a slice of trits, one after the other.
    pub fn update_slice(&mut self, trits: &[Trit])
        requires
            old(self).modulus() > 0,
            increments_fit(trits@),
        ensures
            final(self).state() == poly_fold(
                old(self).state() as int,
                old(self).base() as int,
                old(self).modulus() as int,
                trits@,
            ),
            final(self).base() == old(self).base(),
            final(self).modulus() == old(self).modulus(),
    {
        let ghost start = self.state as int;
        let ghost b = self.base as int;
        let ghost m = self.modulus as int;
        let n = trits.len();
        let mut i: usize = 0;
        while i < n
            invariant
                n == trits@.len(),
                0 <= i <= n,
                self.base == b,
                self.modulus == m,
                m > 0,
                increments_fit(trits@),
                self.state == poly_fold(start, b, m, trits@.take(i as int)),
            decreases n - i,
        {
            let t = trits[i];
            assert(trits@[i as int] < 127);
            self.update(t);
            assert(trits@.take(i + 1).drop_last() =~= trits@.take(i as int));
            i = i + 1;
        }
        assert(trits@.take(n as int) =~= trits@);
    }

    /// Return the current hash value.
    pub fn finish(&self) -> (r: u64)
        ensures
            r == self.state(),
    {
        self.state
    }

    /// Reset the hasher to its initial state, keeping base and modulus.
    pub fn reset(&mut self)
        ensures
            final(self).state() == 0,
            final(self).base() == old(self).base(),
            final(self).modulus() == old(self).modulus(),
    {
        self.state = 0;
    }

    /// Hash a slice in one call with the default parameters.
    pub fn hash_slice(trits: &[Trit]) -> (r: u64)
        requires
            increments_fit(trits@),
        ensures
            r == poly_fold(0, DEFAULT_BASE as int, DEFAULT_MODULUS as int, trits@),
    {
        let mut h = Self::new();
        h.update_slice(trits);
        h.finish()
    }
}

impl Default for TernaryHash {
    fn default() -> (h: Self)
        ensures
            h.state() == 0,
            h.base() == DEFAULT_BASE,
            h.modulus() == DEFAULT_MODULUS,
    {
        Self::new()
    }
}

} // verus!
