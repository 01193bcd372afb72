//! Base-`b` polynomials of trit codes, the closed form of the rolling hashes.

use vstd::prelude::*;

use vstd::arithmetic::power::pow;

use crate::Trit;

verus! {

/// `sum over i < n of (s[i] + 2) * b^(n - 1 - i)`: the trits of `s`, coded as
/// `t + 2`, read as the digits of a number in base `b`, most significant first.
pub open spec fn code_poly(b: int, s: Seq<Trit>) -> int
    decreases s.len(),
{
    if s.len() == 0 {
        0
    } else {
        (s[0] + 2) * pow(b, (s.len() - 1) as nat) + code_poly(b, s.drop_first())
    }
}

/// Appending a trit shifts the number one digit up and adds the new digit.
pub proof fn lemma_code_poly_push(b: int, s: Seq<Trit>, t: Trit)
    ensures
        code_poly(b, s.push(t)) == code_poly(b, s) * b + (t + 2),
    decreases s.len(),
{
    reveal(pow);
    if s.len() == 0 {
        assert(s.push(t).drop_first() =~= Seq::<Trit>::empty());
        assert(s.push(t)[0] == t);
        assert(pow(b, 0) == 1);
        assert(code_poly(b, s.push(t).drop_first()) == 0);
        assert(code_poly(b, s.push(t)) == (t + 2) * pow(b, 0) + 0);
        assert(code_poly(b, s) == 0);
        assert(code_poly(b, s) * b == 0);
    } else {
        let n = s.len();
        lemma_code_poly_push(b, s.drop_first(), t);
        assert(s.push(t).drop_first() =~= s.drop_first().push(t));
        assert(s.push(t)[0] == s[0]);
        let p = pow(b, (n - 1) as nat);
        assert(pow(b, n as nat) == b * p);
        let d = s[0] + 2;
        let rest = code_poly(b, s.drop_first());
        assert(code_poly(b, s.push(t)) == d * pow(b, n as nat) + code_poly(
            b,
            s.drop_first().push(t),
        ));
        assert(code_poly(b, s) == d * p + rest);
        assert(d * (b * p) + (rest * b + (t + 2)) == (d * p + rest) * b + (t + 2))
            by (nonlinear_arith);
    }
}

/// Reducing before a Horner step does not change the result modulo `m`.
pub proof fn lemma_horner_step_mod(x: int, a: int, b: int, c: int, m: int)
    requires
        m > 0,
        x == a % m,
    ensures
        (x * b + c) % m == (a * b + c) % m,
{
    vstd::arithmetic::div_mod::lemma_mul_mod_noop_left(a, b, m);
    vstd::arithmetic::div_mod::lemma_add_mod_noop(x * b, c, m);
    vstd::arithmetic::div_mod::lemma_add_mod_noop(a * b, c, m);
}

} // verus!
