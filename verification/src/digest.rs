//! The commitment digest: a standard non-cryptographic hash combinator
//! (64-bit FNV-1a) over a byte rendering of a block's contents.
//!
//! The digest identifies a block's exact contents for equality and display;
//! it is not a cryptographic commitment.

use vstd::prelude::*;

verus! {

/// The FNV-1a 64-bit offset basis: the state the hash starts from.
pub const FNV_OFFSET_BASIS: u64 = 0xcbf2_9ce4_8422_2325;

/// The FNV-1a 64-bit prime the state is folded with per byte.
pub const FNV_PRIME: u64 = 0x0000_0100_0000_01b3;

/// One FNV-1a round: fold byte `b` into state `h`.
pub open spec fn fnv1a_step(h: u64, b: u8) -> u64 {
    (h ^ (b as u64)).wrapping_mul(FNV_PRIME)
}

/// The FNV-1a state after folding every byte of `s`, in order, into `h`.
pub open spec fn fnv1a_from(h: u64, s: Seq<u8>) -> u64
    decreases s.len(),
{
    if s.len() == 0 {
        h
    } else {
        fnv1a_step(fnv1a_from(h, s.drop_last()), s.last())
    }
}

/// The FNV-1a digest of `data`.
pub fn fnv1a(data: &Vec<u8>) -> (h: u64)
    ensures
        h == fnv1a_from(FNV_OFFSET_BASIS, data@),
{
    let n = data.len();
    let mut h: u64 = FNV_OFFSET_BASIS;
    let mut i: usize = 0;
    while i < n
        invariant
            i <= n,
            n == data@.len(),
            h == fnv1a_from(FNV_OFFSET_BASIS, data@.take(i as int)),
        decreases n - i,
    {
        h = (h ^ (data[i] as u64)).wrapping_mul(FNV_PRIME);
        proof {
            assert(data@.take(i + 1).drop_last() =~= data@.take(i as int));
            assert(data@.take(i + 1).last() == data@[i as int]);
        }
        i = i + 1;
    }
    proof {
        assert(data@.take(n as int) =~= data@);
    }
    h
}

} // verus!
