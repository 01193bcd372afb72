//! FNV-1a fingerprints of trit sequences.

use vstd::prelude::*;

use crate::inverse::{lemma_u32_mul_inverse, lemma_u64_mul_inverse};
use crate::{increments_fit, matches_upto, Trit};

verus! {

/// FNV-1a 32-bit offset basis.
pub const FNV32_OFFSET: u32 = 0x811c9dc5;

/// FNV-1a 32-bit prime.
pub const FNV32_PRIME: u32 = 0x01000193;

/// FNV-1a 64-bit offset basis.
pub const FNV64_OFFSET: u64 = 0xcbf29ce484222325;

/// FNV-1a 64-bit prime.
pub const FNV64_PRIME: u64 = 0x100000001b3;

/// Inverse of the 32-bit FNV prime modulo 2^32.
pub const FNV32_PRIME_INVERSE: u32 = 0x359c449b;

/// Inverse of the 64-bit FNV prime modulo 2^64.
pub const FNV64_PRIME_INVERSE: u64 = 0xce965057aff6957b;

/// The byte a trit is fingerprinted as: `trit + 1` taken as a `u8`.
pub open spec fn trit_byte(t: Trit) -> u8 {
    (t + 1) as u8
}

/// The 32-bit FNV-1a state after absorbing the trits of `s` from state `h`.
pub open spec fn fnv32_fold(h: u32, s: Seq<Trit>) -> u32
    decreases s.len(),
{
    if s.len() == 0 {
        h
    } else {
        (fnv32_fold(h, s.drop_last()) ^ (trit_byte(s.last()) as u32)).wrapping_mul(FNV32_PRIME)
    }
}

/// The 64-bit FNV-1a state after absorbing the trits of `s` from state `h`.
pub open spec fn fnv64_fold(h: u64, s: Seq<Trit>) -> u64
    decreases s.len(),
{
    if s.len() == 0 {
        h
    } else {
        (fnv64_fold(h, s.drop_last()) ^ (trit_byte(s.last()) as u64)).wrapping_mul(FNV64_PRIME)
    }
}

/// Law: fingerprints stream. Absorbing `a` and then `b` gives the fingerprint of `a + b`,
/// in both widths.
pub proof fn law_fnv_streaming(h32: u32, h64: u64, a: Seq<Trit>, b: Seq<Trit>)
    ensures
        fnv32_fold(h32, a + b) == fnv32_fold(fnv32_fold(h32, a), b),
        fnv64_fold(h64, a + b) == fnv64_fold(fnv64_fold(h64, a), b),
    decreases b.len(),
{
    if b.len() == 0 {
        assert(a + b =~= a);
    } else {
        law_fnv_streaming(h32, h64, a, b.drop_last());
        assert((a + b).drop_last() =~= a + b.drop_last());
        assert((a + b).last() == b.last());
    }
}

/// Law: every trit is absorbed, and can be read back. Undoing the last multiplication by
/// the FNV prime on the fingerprint of `s` followed by `t`, and xoring out the fingerprint
/// of `s`, leaves `t + 1`, in both widths. So fingerprints of `s` extended by two
/// different trits differ.
pub proof fn law_fnv_last_trit(h32: u32, h64: u64, s: Seq<Trit>, t: Trit, u: Trit)
    requires
        -1 <= t < 127,
        -1 <= u < 127,
    ensures
        fnv32_fold(h32, s.push(t)).wrapping_mul(FNV32_PRIME_INVERSE) ^ fnv32_fold(h32, s) == (t
            + 1) as u32,
        fnv64_fold(h64, s.push(t)).wrapping_mul(FNV64_PRIME_INVERSE) ^ fnv64_fold(h64, s) == (t
            + 1) as u64,
        t != u ==> fnv32_fold(h32, s.push(t)) != fnv32_fold(h32, s.push(u)),
        t != u ==> fnv64_fold(h64, s.push(t)) != fnv64_fold(h64, s.push(u)),
{
    lemma_fnv_last_trit(h32, h64, s, t);
    lemma_fnv_last_trit(h32, h64, s, u);
}

proof fn lemma_fnv_last_trit(h32: u32, h64: u64, s: Seq<Trit>, t: Trit)
    requires
        -1 <= t < 127,
    ensures
        fnv32_fold(h32, s.push(t)).wrapping_mul(FNV32_PRIME_INVERSE) ^ fnv32_fold(h32, s) == (t
            + 1) as u32,
        fnv64_fold(h64, s.push(t)).wrapping_mul(FNV64_PRIME_INVERSE) ^ fnv64_fold(h64, s) == (t
            + 1) as u64,
{
    assert(s.push(t).drop_last() =~= s);
    assert(s.push(t).last() == t);
    let b32 = (t + 1) as u32;
    let b64 = (t + 1) as u64;
    assert(trit_byte(t) as u32 == b32);
    assert(trit_byte(t) as u64 == b64);
    let p32 = fnv32_fold(h32, s);
    let p64 = fnv64_fold(h64, s);
    let x32 = p32 ^ b32;
    let x64 = p64 ^ b64;
    assert(fnv32_fold(h32, s.push(t)) == x32.wrapping_mul(FNV32_PRIME));
    assert(fnv64_fold(h64, s.push(t)) == x64.wrapping_mul(FNV64_PRIME));
    lemma_u32_mul_inverse(x32, FNV32_PRIME, FNV32_PRIME_INVERSE);
    lemma_u64_mul_inverse(x64, FNV64_PRIME, FNV64_PRIME_INVERSE);
    assert((p32 ^ b32) ^ p32 == b32) by (bit_vector);
    assert((p64 ^ b64) ^ p64 == b64) by (bit_vector);
}

/// Compute a 32-bit FNV-1a fingerprint of a ternary sequence.
pub fn fingerprint32(trits: &[Trit]) -> (r: u32)
    requires
        increments_fit(trits@),
    ensures
        r == fnv32_fold(FNV32_OFFSET, trits@),
{
    let mut h: u32 = FNV32_OFFSET;
    let n = trits.len();
    let mut i: usize = 0;
    while i < n
        invariant
            n == trits@.len(),
            0 <= i <= n,
            increments_fit(trits@),
            h == fnv32_fold(FNV32_OFFSET, trits@.take(i as int)),
        decreases n - i,
    {
        let t = trits[i];
        assert(trits@[i as int] < 127);
        let byte = (t + 1) as u8;
        h = h ^ (byte as u32);
        h = h.wrapping_mul(FNV32_PRIME);
        assert(trits@.take(i + 1).drop_last() =~= trits@.take(i as int));
        i = i + 1;
    }
    assert(trits@.take(n as int) =~= trits@);
    h
}

/// Compute a 64-bit FNV-1a fingerprint of a ternary sequence.
pub fn fingerprint64(trits: &[Trit]) -> (r: u64)
    requires
        increments_fit(trits@),
    ensures
        r == fnv64_fold(FNV64_OFFSET, trits@),
{
    let mut h: u64 = FNV64_OFFSET;
    let n = trits.len();
    let mut i: usize = 0;
    while i < n
        invariant
            n == trits@.len(),
            0 <= i <= n,
            increments_fit(trits@),
            h == fnv64_fold(FNV64_OFFSET, trits@.take(i as int)),
        decreases n - i,
    {
        let t = trits[i];
        assert(trits@[i as int] < 127);
        let byte = (t + 1) as u8;
        h = h ^ (byte as u64);
        h = h.wrapping_mul(FNV64_PRIME);
        assert(trits@.take(i + 1).drop_last() =~= trits@.take(i as int));
        i = i + 1;
    }
    assert(trits@.take(n as int) =~= trits@);
    h
}

/// The number of positions at which two sequences of equal, nonzero length agree, or
/// `None` when the lengths differ or are zero. The Hamming similarity is this count
/// divided by the length.
pub fn hamming_matches(a: &[Trit], b: &[Trit]) -> (r: Option<usize>)
    ensures
        r == if a@.len() != b@.len() || a@.len() == 0 {
            None::<usize>
        } else {
            Some(matches_upto(a@, b@, a@.len() as int) as usize)
        },
{
    if a.len() != b.len() || a.len() == 0 {
        return None;
    }
    let n = a.len();
    let mut count: usize = 0;
    let mut i: usize = 0;
    while i < n
        invariant
            n == a@.len(),
            n == b@.len(),
            0 <= i <= n,
            count == matches_upto(a@, b@, i as int),
            count <= i,
        decreases n - i,
    {
        if a[i] == b[i] {
            count = count + 1;
        }
        i = i + 1;
    }
    Some(count)
}

} // verus!
