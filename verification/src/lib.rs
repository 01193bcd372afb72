//! Hashing, fingerprinting and similarity estimation for ternary data `{-1, 0, +1}`.
//!
//! Every executable function here carries a contract over a mathematical model of
//! its type; the laws that tie the operations together are public proof functions.

use vstd::prelude::*;

pub mod bloom;
pub mod fingerprint;
pub mod inverse;
pub mod lsh;
pub mod minhash;
pub mod poly;
pub mod rolling;
pub mod sketch;

pub use bloom::{TernaryBloomFilter, TernaryMembership};
pub use fingerprint::{fingerprint32, fingerprint64, hamming_matches};
pub use lsh::TernaryLSH;
pub use minhash::TernaryMinHash;
pub use rolling::TernaryHash;
pub use sketch::TernarySketch;

verus! {

/// A trit value: -1, 0, or +1.
pub type Trit = i8;

/// The negative trit.
pub const NEG: Trit = -1;

/// The zero trit.
pub const ZERO: Trit = 0;

/// The positive trit.
pub const POS: Trit = 1;

/// A trit in the ternary alphabet `{-1, 0, +1}`.
pub open spec fn is_trit(t: Trit) -> bool {
    -1 <= t <= 1
}

/// Every element of `s` is below 127, so that `t + 1` is again an `i8`.
pub open spec fn increments_fit(s: Seq<Trit>) -> bool {
    forall|k: int| 0 <= k < s.len() ==> #[trigger] s[k] < 127
}

/// The number of positions below `n` at which `a` and `b` hold equal values.
pub open spec fn matches_upto<T>(a: Seq<T>, b: Seq<T>, n: int) -> nat
    decreases n,
{
    if n <= 0 {
        0
    } else {
        matches_upto(a, b, n - 1) + if a[n - 1] == b[n - 1] {
            1nat
        } else {
            0nat
        }
    }
}

/// Law: counting equal positions is symmetric, never exceeds the number of positions
/// looked at, counts every position when a sequence meets itself, and is positive
/// exactly when some position agrees. So MinHash and Hamming agreement counts are
/// symmetric and full for identical inputs, and LSH candidacy is a positive band count.
pub proof fn law_matches_upto<T>(a: Seq<T>, b: Seq<T>, n: int)
    requires
        0 <= n,
    ensures
        matches_upto(a, b, n) == matches_upto(b, a, n),
        matches_upto(a, b, n) <= n,
        matches_upto(a, a, n) == n,
        matches_upto(a, b, n) > 0 <==> exists|j: int| 0 <= j < n && #[trigger] a[j] == b[j],
    decreases n,
{
    if n > 0 {
        law_matches_upto(a, b, n - 1);
        if matches_upto(a, b, n - 1) > 0 {
            let j = choose|j: int| 0 <= j < n - 1 && #[trigger] a[j] == b[j];
            assert(0 <= j < n && a[j] == b[j]);
        }
    }
}

} // verus!
