//! The shared hasher: maps a byte string to a 64-bit fingerprint.
//!
//! Both filter algorithms derive every probe position from this single
//! value, so a caller that already holds a fingerprint can skip re-hashing
//! the key bytes entirely.  The hash folds the bytes FNV-1a style and then
//! applies a 64-bit multiplicative finalizer for avalanche.
use vstd::prelude::*;

verus! {

pub const FNV_OFFSET: u64 = 0xcbf29ce484222325;

pub const FNV_PRIME: u64 = 0x100000001b3;

pub const MIX_MUL_1: u64 = 0xff51afd7ed558ccd;

pub const MIX_MUL_2: u64 = 0xc4ceb9fe1a85ec53;

/// The finalizer: xor-shift / multiply rounds that spread every input bit
/// over the whole word.
pub open spec fn spec_mix64(x: u64) -> u64 {
    let a = x ^ (x >> 33);
    let b = a.wrapping_mul(MIX_MUL_1);
    let c = b ^ (b >> 33);
    let d = c.wrapping_mul(MIX_MUL_2);
    d ^ (d >> 33)
}

/// FNV-1a fold of the key bytes, before the finalizer.
pub open spec fn spec_fnv_fold(bytes: Seq<u8>) -> u64
    decreases bytes.len(),
{
    if bytes.len() == 0 {
        FNV_OFFSET
    } else {
        (spec_fnv_fold(bytes.drop_last()) ^ (bytes.last() as u64)).wrapping_mul(FNV_PRIME)
    }
}

/// The fingerprint of a key: a deterministic, total function of its bytes.
pub open spec fn spec_hash(bytes: Seq<u8>) -> u64 {
    spec_mix64(spec_fnv_fold(bytes))
}

/// Run the finalizer alone, for callers that need a cheap pseudorandom
/// word from an index.
pub fn mix64(x: u64) -> (r: u64)
    ensures
        r == spec_mix64(x),
{
    let a = x ^ (x >> 33);
    let b = a.wrapping_mul(MIX_MUL_1);
    let c = b ^ (b >> 33);
    let d = c.wrapping_mul(MIX_MUL_2);
    d ^ (d >> 33)
}

/// Hash a key to its 64-bit fingerprint.
pub fn hash(key: &[u8]) -> (r: u64)
    ensures
        r == spec_hash(key@),
{
    let mut h: u64 = FNV_OFFSET;
    let mut i: usize = 0;
    while i < key.len()
        invariant
            i <= key.len(),
            h == spec_fnv_fold(key@.take(i as int)),
        decreases key.len() - i,
    {
        proof {
            assert(key@.take(i + 1).drop_last() =~= key@.take(i as int));
            assert(key@.take(i + 1).last() == key@[i as int]);
        }
        h = (h ^ (key[i] as u64)).wrapping_mul(FNV_PRIME);
        i = i + 1;
    }
    proof {
        assert(key@.take(key@.len() as int) =~= key@);
    }
    mix64(h)
}

} // verus!
