//! The cache-local Bloom filter.
//!
//! The bit array is partitioned into 512-bit buckets.  A fingerprint picks
//! one bucket from its high bits and probes `num_probes` bits inside that
//! bucket by double hashing, so a query touches a single cache line no
//! matter how large the filter is.
use vstd::prelude::*;
use vstd::arithmetic::div_mod::{lemma_fundamental_div_mod, lemma_mod_multiples_basic};
use crate::bits::{
    spec_get_bit, spec_set_bit, lemma_set_bit_effect, lemma_set_bit_len, get_bit, set_bit,
    zero_bytes,
};

verus! {

/// Bits per bucket: one cache line.
pub const BLOCK_BITS: u32 = 512;

/// Largest bit array handed out: keeps every byte index comfortably inside
/// `usize` on any platform.  A multiple of 512.
pub const MAX_TOTAL_BITS: u32 = 0x4000_0000;

/// A fresh bit array: every bit off.
pub open spec fn spec_zero_bits(n: nat) -> Seq<u8> {
    Seq::new(n, |k: int| 0u8)
}

/// Probe count for a bits-per-key budget given in hundredths of a bit:
/// `round(bits_per_key * ln 2)`, clamped to `[1, 30]`.
pub open spec fn spec_num_probes(centi_bpk: u32) -> u8 {
    let raw = ((centi_bpk as int) * 693147 + 50_000_000) / 100_000_000;
    if raw < 1 {
        1u8
    } else if raw > 30 {
        30u8
    } else {
        raw as u8
    }
}

/// Size of the bit array for `num_keys` keys at `centi_bpk` hundredths of a
/// bit per key: the budget rounded up to a whole number of 512-bit buckets,
/// at least one bucket, capped at `MAX_TOTAL_BITS`.
pub open spec fn spec_total_bits(num_keys: u32, centi_bpk: u32) -> u32 {
    let raw = ((num_keys as int) * (centi_bpk as int) + 99) / 100;
    let rounded = ((raw + 511) / 512) * 512;
    if rounded < 512 {
        512u32
    } else if rounded > MAX_TOTAL_BITS {
        MAX_TOTAL_BITS
    } else {
        rounded as u32
    }
}

pub proof fn lemma_total_bits_bounds(num_keys: u32, centi_bpk: u32)
    ensures
        512 <= spec_total_bits(num_keys, centi_bpk) <= MAX_TOTAL_BITS,
        spec_total_bits(num_keys, centi_bpk) % 512 == 0,
        spec_total_bits(num_keys, centi_bpk) % 8 == 0,
{
    let raw = ((num_keys as int) * (centi_bpk as int) + 99) / 100;
    let q = (raw + 511) / 512;
    let rounded = q * 512;
    lemma_mod_multiples_basic(q, 512);
    assert(q * 512 == (q * 64) * 8) by (nonlinear_arith);
    lemma_mod_multiples_basic(q * 64, 8);
    assert(512u32 % 512 == 0 && 512u32 % 8 == 0);
    assert(MAX_TOTAL_BITS % 512 == 0 && MAX_TOTAL_BITS % 8 == 0);
}

/// The bit probed in pass `k` for fingerprint `h`: a bucket chosen from the
/// high hash bits, then double hashing inside the bucket.
pub open spec fn spec_bloom_probe(total_bits: u32, h: u64, k: int) -> int
    recommends
        total_bits >= 512,
        total_bits % 512 == 0,
{
    let buckets = (total_bits / 512) as int;
    let bucket = ((h >> 32) as int) % buckets;
    let h1 = (h & 511) as int;
    let h2 = (((h >> 9) & 511) | 1) as int;
    bucket * 512 + ((h1 + k * h2) % 512)
}

pub proof fn lemma_probe_in_range(total_bits: u32, h: u64, k: int)
    requires
        total_bits >= 512,
        total_bits % 512 == 0,
    ensures
        0 <= spec_bloom_probe(total_bits, h, k) < total_bits,
{
    let buckets = (total_bits / 512) as int;
    let hi = (h >> 32) as int;
    let bucket = hi % buckets;
    let h1 = (h & 511) as int;
    let h2 = (((h >> 9) & 511) | 1) as int;
    let off = (h1 + k * h2) % 512;
    assert(buckets >= 1);
    assert(0 <= bucket < buckets) by (nonlinear_arith)
        requires
            buckets >= 1,
            hi >= 0,
            bucket == hi % buckets,
    ;
    assert(0 <= off < 512) by (nonlinear_arith)
        requires
            off == (h1 + k * h2) % 512,
    ;
    lemma_fundamental_div_mod(total_bits as int, 512);
    assert(bucket * 512 + off < buckets * 512) by (nonlinear_arith)
        requires
            bucket < buckets,
            off < 512,
    ;
    assert(bucket * 512 + off >= 0) by (nonlinear_arith)
        requires
            bucket >= 0,
            off >= 0,
    ;
}

/// A fingerprint may be present if and only if every probed bit is set.
pub open spec fn spec_bloom_query(bits: Seq<u8>, total_bits: u32, num_probes: u8, h: u64) -> bool {
    forall|k: int|
        0 <= k < num_probes ==> spec_get_bit(bits, #[trigger] spec_bloom_probe(total_bits, h, k))
}

/// The bit array after the first `k` probes of fingerprint `h` are set.
pub open spec fn spec_bloom_add(bits: Seq<u8>, total_bits: u32, h: u64, k: nat) -> Seq<u8>
    decreases k,
{
    if k == 0 {
        bits
    } else {
        spec_set_bit(
            spec_bloom_add(bits, total_bits, h, (k - 1) as nat),
            spec_bloom_probe(total_bits, h, k - 1),
        )
    }
}

/// The bit array after every fingerprint in `hs` is added.
pub open spec fn spec_bloom_build(
    bits: Seq<u8>,
    total_bits: u32,
    num_probes: u8,
    hs: Seq<u64>,
) -> Seq<u8>
    decreases hs.len(),
{
    if hs.len() == 0 {
        bits
    } else {
        spec_bloom_add(
            spec_bloom_build(bits, total_bits, num_probes, hs.drop_last()),
            total_bits,
            hs.last(),
            num_probes as nat,
        )
    }
}

pub proof fn lemma_add_len(bits: Seq<u8>, total_bits: u32, h: u64, k: nat)
    requires
        total_bits >= 512,
        total_bits % 512 == 0,
        8 * bits.len() == total_bits,
    ensures
        spec_bloom_add(bits, total_bits, h, k).len() == bits.len(),
    decreases k,
{
    if k > 0 {
        lemma_add_len(bits, total_bits, h, (k - 1) as nat);
        lemma_probe_in_range(total_bits, h, k - 1);
        lemma_set_bit_len(
            spec_bloom_add(bits, total_bits, h, (k - 1) as nat),
            spec_bloom_probe(total_bits, h, k - 1),
        );
    }
}

pub proof fn lemma_build_len(bits: Seq<u8>, total_bits: u32, num_probes: u8, hs: Seq<u64>)
    requires
        total_bits >= 512,
        total_bits % 512 == 0,
        8 * bits.len() == total_bits,
    ensures
        spec_bloom_build(bits, total_bits, num_probes, hs).len() == bits.len(),
    decreases hs.len(),
{
    if hs.len() > 0 {
        lemma_build_len(bits, total_bits, num_probes, hs.drop_last());
        lemma_add_len(
            spec_bloom_build(bits, total_bits, num_probes, hs.drop_last()),
            total_bits,
            hs.last(),
            num_probes as nat,
        );
    }
}

/// Adding a fingerprint never clears a bit.
pub proof fn lemma_add_monotone(bits: Seq<u8>, total_bits: u32, h: u64, k: nat, j: int)
    requires
        total_bits >= 512,
        total_bits % 512 == 0,
        8 * bits.len() == total_bits,
        0 <= j < total_bits,
        spec_get_bit(bits, j),
    ensures
        spec_get_bit(spec_bloom_add(bits, total_bits, h, k), j),
    decreases k,
{
    if k > 0 {
        lemma_add_monotone(bits, total_bits, h, (k - 1) as nat, j);
        let prev = spec_bloom_add(bits, total_bits, h, (k - 1) as nat);
        lemma_add_len(bits, total_bits, h, (k - 1) as nat);
        lemma_probe_in_range(total_bits, h, k - 1);
        lemma_set_bit_effect(prev, spec_bloom_probe(total_bits, h, k - 1), j);
    }
}

/// After `k` probes of `h` are added, each of those probed bits is set.
pub proof fn lemma_add_sets(bits: Seq<u8>, total_bits: u32, h: u64, k: nat)
    requires
        total_bits >= 512,
        total_bits % 512 == 0,
        8 * bits.len() == total_bits,
    ensures
        forall|j: int|
            0 <= j < k ==> spec_get_bit(
                spec_bloom_add(bits, total_bits, h, k),
                #[trigger] spec_bloom_probe(total_bits, h, j),
            ),
    decreases k,
{
    if k > 0 {
        lemma_add_sets(bits, total_bits, h, (k - 1) as nat);
        let prev = spec_bloom_add(bits, total_bits, h, (k - 1) as nat);
        lemma_add_len(bits, total_bits, h, (k - 1) as nat);
        lemma_probe_in_range(total_bits, h, k - 1);
        assert forall|j: int| 0 <= j < k implies spec_get_bit(
            spec_bloom_add(bits, total_bits, h, k),
            #[trigger] spec_bloom_probe(total_bits, h, j),
        ) by {
            lemma_probe_in_range(total_bits, h, j);
            lemma_set_bit_effect(
                prev,
                spec_bloom_probe(total_bits, h, k - 1),
                spec_bloom_probe(total_bits, h, j),
            );
        }
    }
}

/// Adding one fingerprint keeps every fingerprint that already queried true.
pub proof fn lemma_add_preserves_query(
    bits: Seq<u8>,
    total_bits: u32,
    num_probes: u8,
    h0: u64,
    h: u64,
    k: nat,
)
    requires
        total_bits >= 512,
        total_bits % 512 == 0,
        8 * bits.len() == total_bits,
        spec_bloom_query(bits, total_bits, num_probes, h0),
    ensures
        spec_bloom_query(spec_bloom_add(bits, total_bits, h, k), total_bits, num_probes, h0),
{
    assert forall|j: int| 0 <= j < num_probes implies spec_get_bit(
        spec_bloom_add(bits, total_bits, h, k),
        #[trigger] spec_bloom_probe(total_bits, h0, j),
    ) by {
        lemma_probe_in_range(total_bits, h0, j);
        lemma_add_monotone(bits, total_bits, h, k, spec_bloom_probe(total_bits, h0, j));
    }
}

/// No false negatives: every fingerprint folded into the bit array queries
/// true on the result.
pub proof fn lemma_build_covers(bits: Seq<u8>, total_bits: u32, num_probes: u8, hs: Seq<u64>)
    requires
        total_bits >= 512,
        total_bits % 512 == 0,
        8 * bits.len() == total_bits,
    ensures
        forall|i: int|
            0 <= i < hs.len() ==> spec_bloom_query(
                spec_bloom_build(bits, total_bits, num_probes, hs),
                total_bits,
                num_probes,
                #[trigger] hs[i],
            ),
    decreases hs.len(),
{
    if hs.len() > 0 {
        let prev = spec_bloom_build(bits, total_bits, num_probes, hs.drop_last());
        lemma_build_covers(bits, total_bits, num_probes, hs.drop_last());
        lemma_build_len(bits, total_bits, num_probes, hs.drop_last());
        lemma_add_sets(prev, total_bits, hs.last(), num_probes as nat);
        assert forall|i: int| 0 <= i < hs.len() implies spec_bloom_query(
            spec_bloom_build(bits, total_bits, num_probes, hs),
            total_bits,
            num_probes,
            #[trigger] hs[i],
        ) by {
            if i < hs.len() - 1 {
                assert(hs.drop_last()[i] == hs[i]);
                lemma_add_preserves_query(
                    prev,
                    total_bits,
                    num_probes,
                    hs[i],
                    hs.last(),
                    num_probes as nat,
                );
            } else {
                assert(hs[i] == hs.last());
            }
        }
    }
}

/// Probe count, computed as the spec says.
pub fn bloom_num_probes(centi_bpk: u32) -> (r: u8)
    ensures
        r == spec_num_probes(centi_bpk),
        1 <= r <= 30,
{
    let raw: u64 = ((centi_bpk as u64) * 693147 + 50_000_000) / 100_000_000;
    if raw < 1 {
        1
    } else if raw > 30 {
        30
    } else {
        raw as u8
    }
}

/// Bit-array size, computed as the spec says.
pub fn bloom_total_bits(num_keys: u32, centi_bpk: u32) -> (r: u32)
    ensures
        r == spec_total_bits(num_keys, centi_bpk),
{
    proof {
        assert((num_keys as int) * (centi_bpk as int) < 0x10000000000000000) by (nonlinear_arith)
            requires
                (num_keys as int) < 0x100000000,
                (centi_bpk as int) < 0x100000000,
                (num_keys as int) >= 0,
                (centi_bpk as int) >= 0,
        ;
    }
    let raw: u128 = ((num_keys as u128) * (centi_bpk as u128) + 99) / 100;
    proof {
        assert(raw <= (num_keys as u128) * (centi_bpk as u128) + 99) by (nonlinear_arith)
            requires
                raw == ((num_keys as u128) * (centi_bpk as u128) + 99) / 100,
        ;
        assert(((raw + 511) / 512) * 512 <= raw + 511) by (nonlinear_arith)
            requires
                raw >= 0,
        ;
    }
    let rounded: u128 = ((raw + 511) / 512) * 512;
    if rounded < 512 {
        512
    } else if rounded > MAX_TOTAL_BITS as u128 {
        MAX_TOTAL_BITS
    } else {
        rounded as u32
    }
}

/// One probe position, computed as the spec says.
fn bloom_probe(total_bits: u32, h: u64, k: u8) -> (r: u64)
    requires
        total_bits >= 512,
        total_bits % 512 == 0,
        k < 30,
    ensures
        r as int == spec_bloom_probe(total_bits, h, k as int),
        r < total_bits,
{
    proof {
        lemma_probe_in_range(total_bits, h, k as int);
    }
    let buckets: u64 = (total_bits / 512) as u64;
    let bucket: u64 = (h >> 32) % buckets;
    let h1: u64 = h & 511;
    let h2: u64 = ((h >> 9) & 511) | 1;
    proof {
        assert(h1 < 512 && h2 < 512) by (bit_vector)
            requires
                h1 == h & 511,
                h2 == ((h >> 9) & 511) | 1,
        ;
        assert(bucket < buckets) by (nonlinear_arith)
            requires
                buckets >= 1,
                bucket == (h >> 32) % buckets,
        ;
        assert((k as u64) * h2 < 30 * 512) by (nonlinear_arith)
            requires
                k < 30,
                h2 < 512,
        ;
    }
    let off: u64 = (h1 + (k as u64) * h2) % 512;
    bucket * 512 + off
}

/// Fold every fingerprint into a fresh bit array.
pub fn bloom_block_build(hashes: &Vec<u64>, total_bits: u32, num_probes: u8) -> (r: Vec<u8>)
    requires
        total_bits >= 512,
        total_bits % 512 == 0,
        total_bits % 8 == 0,
        total_bits <= MAX_TOTAL_BITS,
        1 <= num_probes <= 30,
    ensures
        8 * r@.len() == total_bits,
        r@ == spec_bloom_build(
            spec_zero_bits((total_bits / 8) as nat),
            total_bits,
            num_probes,
            hashes@,
        ),
{
    let nbytes = (total_bits / 8) as usize;
    proof {
        lemma_fundamental_div_mod(total_bits as int, 8);
    }
    let mut bits = zero_bytes(nbytes);
    let ghost zeros = spec_zero_bits((total_bits / 8) as nat);
    proof {
        assert(bits@ =~= zeros);
    }
    let mut i: usize = 0;
    while i < hashes.len()
        invariant
            i <= hashes@.len(),
            total_bits >= 512,
            total_bits % 512 == 0,
            1 <= num_probes <= 30,
            8 * bits@.len() == total_bits,
            bits@ == spec_bloom_build(zeros, total_bits, num_probes, hashes@.take(i as int)),
        decreases hashes@.len() - i,
    {
        let h = hashes[i];
        let ghost base = bits@;
        let mut k: u8 = 0;
        while k < num_probes
            invariant
                k <= num_probes,
                total_bits >= 512,
                total_bits % 512 == 0,
                1 <= num_probes <= 30,
                8 * bits@.len() == total_bits,
                bits@ == spec_bloom_add(base, total_bits, h, k as nat),
            decreases num_probes - k,
        {
            let idx = bloom_probe(total_bits, h, k);
            set_bit(&mut bits, idx);
            k = k + 1;
        }
        i = i + 1;
        proof {
            assert(hashes@.take(i as int).drop_last() =~= hashes@.take(i - 1));
            assert(hashes@.take(i as int).last() == h);
        }
    }
    proof {
        assert(hashes@.take(hashes@.len() as int) =~= hashes@);
    }
    bits
}

/// Query one fingerprint against a Bloom bit array.
pub fn bloom_block_query(bits: &Vec<u8>, total_bits: u32, num_probes: u8, h: u64) -> (r: bool)
    requires
        total_bits >= 512,
        total_bits % 512 == 0,
        8 * bits@.len() == total_bits,
        1 <= num_probes <= 30,
    ensures
        r == spec_bloom_query(bits@, total_bits, num_probes, h),
{
    let mut k: u8 = 0;
    while k < num_probes
        invariant
            k <= num_probes,
            total_bits >= 512,
            total_bits % 512 == 0,
            8 * bits@.len() == total_bits,
            1 <= num_probes <= 30,
            forall|j: int|
                0 <= j < k ==> spec_get_bit(bits@, #[trigger] spec_bloom_probe(total_bits, h, j)),
        decreases num_probes - k,
    {
        let idx = bloom_probe(total_bits, h, k);
        if !get_bit(bits, idx) {
            assert(!spec_bloom_query(bits@, total_bits, num_probes, h));
            return false;
        }
        k = k + 1;
    }
    true
}

} // verus!
