//! Integrity digest over payload bytes.
//!
//! A 64-bit Fowler–Noll–Vo style fold: the digest of a byte sequence is
//! defined recursively, and the executable function is proved to compute
//! exactly that value.  The writer stores the digest of the published
//! payload in the control block; a validating reader recomputes it over the
//! bytes it fetched and compares.

use vstd::prelude::*;

verus! {

pub const DIGEST_OFFSET: u64 = 0xcbf29ce484222325;

pub const DIGEST_PRIME: u64 = 0x100000001b3;

/// One fold step: xor the next byte in, then multiply by the prime
/// modulo 2^64.
pub open spec fn digest_step(h: u64, b: u8) -> u64 {
    (((h ^ (b as u64)) * DIGEST_PRIME) % 0x10000000000000000) as u64
}

/// Digest of a whole byte sequence, folded left to right.
pub open spec fn digest_spec(bytes: Seq<u8>) -> u64
    decreases bytes.len(),
{
    if bytes.len() == 0 {
        DIGEST_OFFSET
    } else {
        digest_step(digest_spec(bytes.drop_last()), bytes.last())
    }
}

/// Computes the digest of `bytes`, matching `digest_spec` exactly.
pub fn digest_of(bytes: &Vec<u8>) -> (r: u64)
    ensures
        r == digest_spec(bytes@),
{
    let mut h: u64 = DIGEST_OFFSET;
    let mut i: usize = 0;
    while i < bytes.len()
        invariant
            i <= bytes.len(),
            h == digest_spec(bytes@.take(i as int)),
        decreases bytes.len() - i,
    {
        let x: u64 = h ^ (bytes[i] as u64);
        let wide: u128 = (x as u128) * (DIGEST_PRIME as u128);
        proof {
            assert((x as int) * (DIGEST_PRIME as int) < 0x100000000000000000000000000000000)
                by (nonlinear_arith)
                requires
                    x <= 0xffffffffffffffffu64,
            ;
            assert(bytes@.take(i + 1).drop_last() =~= bytes@.take(i as int));
            assert(bytes@.take(i + 1).last() == bytes@[i as int]);
        }
        h = (wide % 0x10000000000000000u128) as u64;
        i = i + 1;
    }
    proof {
        assert(bytes@.take(bytes@.len() as int) =~= bytes@);
    }
    h
}

} // verus!
