//! Inverses of the mixing steps used by the hashes: odd multipliers and xor-shifts
//! can be undone, so they never merge two distinct inputs.

use vstd::prelude::*;

verus! {

/// Multiplying by `c` and then by `c_inv` modulo 2^64 gives back `x` when `c * c_inv` is 1 modulo 2^64.
pub proof fn lemma_u64_mul_inverse(x: u64, c: u64, c_inv: u64)
    requires
        (c as int * c_inv as int) % 0x1_0000_0000_0000_0000int == 1,
    ensures
        x.wrapping_mul(c).wrapping_mul(c_inv) == x,
{
    let m: int = 0x1_0000_0000_0000_0000int;
    let a: int = (x as int * c as int) % m;
    assert(x.wrapping_mul(c) as int == a);
    vstd::arithmetic::div_mod::lemma_mul_mod_noop_left(x as int * c as int, c_inv as int, m);
    assert((a * c_inv as int) % m == (x as int * c as int * c_inv as int) % m);
    vstd::arithmetic::mul::lemma_mul_is_associative(x as int, c as int, c_inv as int);
    vstd::arithmetic::div_mod::lemma_mul_mod_noop_right(x as int, c as int * c_inv as int, m);
    assert((x as int * (c as int * c_inv as int)) % m == (x as int * 1) % m);
    vstd::arithmetic::div_mod::lemma_small_mod(x as nat, m as nat);
    assert(x.wrapping_mul(c).wrapping_mul(c_inv) as int == (a * c_inv as int) % m);
}

/// Multiplying by `c` and then by `c_inv` modulo 2^32 gives back `x` when `c * c_inv` is 1 modulo 2^32.
pub proof fn lemma_u32_mul_inverse(x: u32, c: u32, c_inv: u32)
    requires
        (c as int * c_inv as int) % 0x1_0000_0000int == 1,
    ensures
        x.wrapping_mul(c).wrapping_mul(c_inv) == x,
{
    let m: int = 0x1_0000_0000int;
    let a: int = (x as int * c as int) % m;
    assert(x.wrapping_mul(c) as int == a);
    vstd::arithmetic::div_mod::lemma_mul_mod_noop_left(x as int * c as int, c_inv as int, m);
    vstd::arithmetic::mul::lemma_mul_is_associative(x as int, c as int, c_inv as int);
    vstd::arithmetic::div_mod::lemma_mul_mod_noop_right(x as int, c as int * c_inv as int, m);
    vstd::arithmetic::div_mod::lemma_small_mod(x as nat, m as nat);
    assert(x.wrapping_mul(c).wrapping_mul(c_inv) as int == (a * c_inv as int) % m);
}

/// Multiplication by an odd constant with a known inverse modulo 2^64 is injective.
pub proof fn lemma_u64_mul_injective(x: u64, y: u64, c: u64, c_inv: u64)
    requires
        (c as int * c_inv as int) % 0x1_0000_0000_0000_0000int == 1,
        x.wrapping_mul(c) == y.wrapping_mul(c),
    ensures
        x == y,
{
    lemma_u64_mul_inverse(x, c, c_inv);
    lemma_u64_mul_inverse(y, c, c_inv);
}

/// `x ^ (x >> 33)` undoes itself on 64-bit words, so it is injective.
pub proof fn lemma_xorshift33_involution(x: u64)
    ensures
        (x ^ (x >> 33u64)) ^ ((x ^ (x >> 33u64)) >> 33u64) == x,
{
    assert((x ^ (x >> 33u64)) ^ ((x ^ (x >> 33u64)) >> 33u64) == x) by (bit_vector);
}

/// A xor-shift by 33 is injective.
pub proof fn lemma_xorshift33_injective(x: u64, y: u64)
    requires
        x ^ (x >> 33u64) == y ^ (y >> 33u64),
    ensures
        x == y,
{
    lemma_xorshift33_involution(x);
    lemma_xorshift33_involution(y);
}

} // verus!
