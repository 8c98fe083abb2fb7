//! Powers of two in machine integers.

use vstd::arithmetic::power2::{lemma2_to64, lemma_pow2_strictly_increases, lemma_pow2_unfold, pow2};
use vstd::prelude::*;

verus! {

/// Two to the power `e`, below `2^16`.
pub fn pow2_u16(e: u8) -> (r: u16)
    requires
        e <= 15,
    ensures
        r == pow2(e as nat),
{
    proof {
        lemma2_to64();
        if e < 15 {
            lemma_pow2_strictly_increases(e as nat, 15);
        }
    }
    pow2_u64(e) as u16
}

/// Two to the power `e`, below `2^64`.
pub fn pow2_u64(e: u8) -> (r: u64)
    requires
        e <= 63,
    ensures
        r == pow2(e as nat),
{
    let mut r: u64 = 1;
    let mut i: u8 = 0;
    proof {
        lemma2_to64();
    }
    while i < e
        invariant
            i <= e <= 63,
            r == pow2(i as nat),
        decreases e - i,
    {
        proof {
            lemma_pow2_unfold((i + 1) as nat);
            if i + 1 < 63 {
                lemma_pow2_strictly_increases((i + 1) as nat, 63);
            }
            lemma2_to64();
            vstd::arithmetic::power2::lemma2_to64_rest();
        }
        r = r * 2;
        i = i + 1;
    }
    r
}

} // verus!
