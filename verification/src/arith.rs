//! Small executable helpers for powers of two, tied to `vstd`'s `pow2`.

use vstd::prelude::*;
use vstd::arithmetic::power2::{pow2, lemma_pow2_adds, lemma_pow2_strictly_increases, lemma2_to64, lemma2_to64_rest};

verus! {

/// `2^e` as a `u32`, for exponents below the `u32` width.
pub fn pow2_u32(e: u8) -> (r: u32)
    requires
        e < 32,
    ensures
        r as nat == pow2(e as nat),
{
    proof {
        vstd::arithmetic::power2::lemma2_to64();
    }
    let mut r: u32 = 1;
    let mut i: u8 = 0;
    while i < e
        invariant
            i <= e < 32,
            r as nat == pow2(i as nat),
        decreases e - i,
    {
        proof {
            lemma_pow2_adds(i as nat, 1);
            lemma_pow2_strictly_increases(i as nat + 1, 32);
            lemma2_to64();
        }
        r = r * 2;
        i = i + 1;
    }
    r
}

/// `2^e` as a `u64`, for exponents below the `u64` width.
pub fn pow2_u64(e: u8) -> (r: u64)
    requires
        e < 64,
    ensures
        r as nat == pow2(e as nat),
{
    proof {
        vstd::arithmetic::power2::lemma2_to64();
    }
    let mut r: u64 = 1;
    let mut i: u8 = 0;
    while i < e
        invariant
            i <= e < 64,
            r as nat == pow2(i as nat),
        decreases e - i,
    {
        proof {
            lemma_pow2_adds(i as nat, 1);
            lemma_pow2_strictly_increases(i as nat + 1, 64);
            lemma2_to64();
            lemma2_to64_rest();
        }
        r = r * 2;
        i = i + 1;
    }
    r
}

/// `pow2` values above the `u32` range exceed every `u32`.
pub proof fn lemma_pow2_ge_u32_width(e: nat)
    requires
        e >= 32,
    ensures
        pow2(e) > u32::MAX,
{
    if e > 32 {
        lemma_pow2_strictly_increases(32, e);
    }
    lemma2_to64();
}

} // verus!
