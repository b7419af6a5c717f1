//! The serialized filter: a tagged, self-describing byte buffer.
//!
//! Layout (all integers little-endian):
//! byte 0 the format tag (0 Bloom, 1 ribbon, 2 Bloom fallback from a failed
//! ribbon solve), bytes 1-4 the key count, bytes 5-8 the bits-per-key
//! budget in hundredths of a bit, then the payload: for Bloom the bit-array
//! size, the probe count and the bit array; for ribbon the slot count, the
//! window length, the seed and the solution bits.  A reader accepts a
//! buffer only when the tag is known, the declared lengths match the
//! buffer exactly and every parameter is in range.
use vstd::prelude::*;
use crate::bloom::{spec_bloom_query, bloom_block_query, MAX_TOTAL_BITS};
use crate::ribbon::{spec_ribbon_eval, spec_rbits, ribbon_eval, ribbon_rbits, SEGMENT_LENGTH, MAX_SLOTS};

verus! {

/// Parsed Bloom payload.
pub struct BloomBlock {
    pub num_keys: u32,
    pub centi_bpk: u32,
    pub total_bits: u32,
    pub num_probes: u8,
    pub from_ribbon: bool,
    pub bits: Vec<u8>,
}

/// Parsed ribbon payload.
pub struct RibbonBlock {
    pub num_keys: u32,
    pub centi_bpk: u32,
    pub num_slots: u32,
    pub seed: u64,
    pub sol: Vec<u8>,
}

/// A parsed filter of either variant.
pub enum Filter {
    Bloom(BloomBlock),
    Ribbon(RibbonBlock),
}

/// Mathematical model of a Bloom payload.
pub struct BloomV {
    pub num_keys: u32,
    pub centi_bpk: u32,
    pub total_bits: u32,
    pub num_probes: u8,
    pub from_ribbon: bool,
    pub bits: Seq<u8>,
}

/// Mathematical model of a ribbon payload.
pub struct RibbonV {
    pub num_keys: u32,
    pub centi_bpk: u32,
    pub num_slots: u32,
    pub seed: u64,
    pub sol: Seq<u8>,
}

/// Mathematical model of a parsed filter.
pub enum FilterV {
    Bloom(BloomV),
    Ribbon(RibbonV),
}

impl View for BloomBlock {
    type V = BloomV;

    open spec fn view(&self) -> BloomV {
        BloomV {
            num_keys: self.num_keys,
            centi_bpk: self.centi_bpk,
            total_bits: self.total_bits,
            num_probes: self.num_probes,
            from_ribbon: self.from_ribbon,
            bits: self.bits@,
        }
    }
}

impl View for RibbonBlock {
    type V = RibbonV;

    open spec fn view(&self) -> RibbonV {
        RibbonV {
            num_keys: self.num_keys,
            centi_bpk: self.centi_bpk,
            num_slots: self.num_slots,
            seed: self.seed,
            sol: self.sol@,
        }
    }
}

impl View for Filter {
    type V = FilterV;

    open spec fn view(&self) -> FilterV {
        match self {
            Filter::Bloom(b) => FilterV::Bloom(b@),
            Filter::Ribbon(r) => FilterV::Ribbon(r@),
        }
    }
}

/// Internal consistency of a parsed filter: exactly what `spec_parse`
/// accepts of a payload.
pub open spec fn spec_filter_wf(v: FilterV) -> bool {
    match v {
        FilterV::Bloom(b) => {
            &&& b.total_bits % 512 == 0
            &&& 512 <= b.total_bits <= MAX_TOTAL_BITS
            &&& 1 <= b.num_probes <= 30
            &&& 8 * b.bits.len() == b.total_bits
        },
        FilterV::Ribbon(r) => {
            &&& 64 <= r.num_slots <= MAX_SLOTS
            &&& r.sol.len() == (r.num_slots + 7) / 8
        },
    }
}

/// What a query answers on a parsed filter: false on an empty filter,
/// otherwise the variant's own probe.
pub open spec fn spec_filter_query(v: FilterV, h: u64) -> bool {
    match v {
        FilterV::Bloom(b) => b.num_keys != 0 && spec_bloom_query(
            b.bits,
            b.total_bits,
            b.num_probes,
            h,
        ),
        FilterV::Ribbon(r) => r.num_keys != 0 && spec_ribbon_eval(
            r.sol,
            r.num_slots,
            spec_rbits(r.centi_bpk),
            r.seed,
            h,
        ),
    }
}

pub open spec fn spec_u32_le(x: u32) -> Seq<u8> {
    seq![
        (x & 0xff) as u8,
        ((x >> 8) & 0xff) as u8,
        ((x >> 16) & 0xff) as u8,
        ((x >> 24) & 0xff) as u8,
    ]
}

pub open spec fn spec_u64_le(x: u64) -> Seq<u8> {
    seq![
        (x & 0xff) as u8,
        ((x >> 8) & 0xff) as u8,
        ((x >> 16) & 0xff) as u8,
        ((x >> 24) & 0xff) as u8,
        ((x >> 32) & 0xff) as u8,
        ((x >> 40) & 0xff) as u8,
        ((x >> 48) & 0xff) as u8,
        ((x >> 56) & 0xff) as u8,
    ]
}

/// The little-endian u32 starting at byte `i`.
pub open spec fn spec_u32_at(data: Seq<u8>, i: int) -> u32
    recommends
        0 <= i,
        i + 4 <= data.len(),
{
    (data[i] as u32) | ((data[i + 1] as u32) << 8) | ((data[i + 2] as u32) << 16) | ((data[i + 3]
        as u32) << 24)
}

/// The little-endian u64 starting at byte `i`.
pub open spec fn spec_u64_at(data: Seq<u8>, i: int) -> u64
    recommends
        0 <= i,
        i + 8 <= data.len(),
{
    (data[i] as u64) | ((data[i + 1] as u64) << 8) | ((data[i + 2] as u64) << 16) | ((data[i + 3]
        as u64) << 24) | ((data[i + 4] as u64) << 32) | ((data[i + 5] as u64) << 40) | ((data[i + 6]
        as u64) << 48) | ((data[i + 7] as u64) << 56)
}

/// The exact byte string of a filter.
pub open spec fn spec_encode(v: FilterV) -> Seq<u8> {
    match v {
        FilterV::Bloom(b) => seq![if b.from_ribbon { 2u8 } else { 0u8 }] + spec_u32_le(b.num_keys)
            + spec_u32_le(b.centi_bpk) + spec_u32_le(b.total_bits) + seq![b.num_probes] + b.bits,
        FilterV::Ribbon(r) => seq![1u8] + spec_u32_le(r.num_keys) + spec_u32_le(r.centi_bpk)
            + spec_u32_le(r.num_slots) + spec_u32_le(SEGMENT_LENGTH) + spec_u64_le(r.seed) + r.sol,
    }
}

/// Parse a buffer; `None` is the corrupt-filter outcome: an unknown tag, a
/// length that does not match the header, or a parameter out of range.
pub open spec fn spec_parse(data: Seq<u8>) -> Option<FilterV> {
    if data.len() < 14 {
        None
    } else {
        let tag = data[0];
        let num_keys = spec_u32_at(data, 1);
        let centi_bpk = spec_u32_at(data, 5);
        if tag == 0 || tag == 2 {
            let total_bits = spec_u32_at(data, 9);
            let num_probes = data[13];
            if total_bits % 512 == 0 && 512 <= total_bits && total_bits <= MAX_TOTAL_BITS && 1
                <= num_probes && num_probes <= 30 && data.len() == 14 + total_bits / 8 {
                Some(
                    FilterV::Bloom(
                        BloomV {
                            num_keys,
                            centi_bpk,
                            total_bits,
                            num_probes,
                            from_ribbon: tag == 2,
                            bits: data.skip(14),
                        },
                    ),
                )
            } else {
                None
            }
        } else if tag == 1 {
            if data.len() < 25 {
                None
            } else {
                let num_slots = spec_u32_at(data, 9);
                let seg = spec_u32_at(data, 13);
                let seed = spec_u64_at(data, 17);
                if 64 <= num_slots && num_slots <= MAX_SLOTS && seg == SEGMENT_LENGTH && data.len()
                    == 25 + (num_slots + 7) / 8 {
                    Some(
                        FilterV::Ribbon(
                            RibbonV { num_keys, centi_bpk, num_slots, seed, sol: data.skip(25) },
                        ),
                    )
                } else {
                    None
                }
            }
        } else {
            None
        }
    }
}

pub proof fn lemma_u32_le_roundtrip(x: u32)
    ensures
        spec_u32_at(spec_u32_le(x), 0) == x,
        forall|i: int| 0 <= i < 4 ==> (spec_u32_le(x)[i] as u32) < 256,
{
    let b0 = (x & 0xff) as u8;
    let b1 = ((x >> 8) & 0xff) as u8;
    let b2 = ((x >> 16) & 0xff) as u8;
    let b3 = ((x >> 24) & 0xff) as u8;
    assert((b0 as u32) | ((b1 as u32) << 8) | ((b2 as u32) << 16) | ((b3 as u32) << 24) == x)
        by (bit_vector)
        requires
            b0 == (x & 0xff) as u8,
            b1 == ((x >> 8) & 0xff) as u8,
            b2 == ((x >> 16) & 0xff) as u8,
            b3 == ((x >> 24) & 0xff) as u8,
    ;
}

pub proof fn lemma_u64_le_roundtrip(x: u64)
    ensures
        spec_u64_at(spec_u64_le(x), 0) == x,
{
    let b0 = (x & 0xff) as u8;
    let b1 = ((x >> 8) & 0xff) as u8;
    let b2 = ((x >> 16) & 0xff) as u8;
    let b3 = ((x >> 24) & 0xff) as u8;
    let b4 = ((x >> 32) & 0xff) as u8;
    let b5 = ((x >> 40) & 0xff) as u8;
    let b6 = ((x >> 48) & 0xff) as u8;
    let b7 = ((x >> 56) & 0xff) as u8;
    assert((b0 as u64) | ((b1 as u64) << 8) | ((b2 as u64) << 16) | ((b3 as u64) << 24) | ((b4
        as u64) << 32) | ((b5 as u64) << 40) | ((b6 as u64) << 48) | ((b7 as u64) << 56) == x)
        by (bit_vector)
        requires
            b0 == (x & 0xff) as u8,
            b1 == ((x >> 8) & 0xff) as u8,
            b2 == ((x >> 16) & 0xff) as u8,
            b3 == ((x >> 24) & 0xff) as u8,
            b4 == ((x >> 32) & 0xff) as u8,
            b5 == ((x >> 40) & 0xff) as u8,
            b6 == ((x >> 48) & 0xff) as u8,
            b7 == ((x >> 56) & 0xff) as u8,
    ;
}

/// Round trip: a well-formed filter comes back exactly from its own bytes.
pub proof fn lemma_parse_encode(v: FilterV)
    requires
        spec_filter_wf(v),
    ensures
        spec_parse(spec_encode(v)) == Some(v),
{
    let data = spec_encode(v);
    match v {
        FilterV::Bloom(b) => {
            assert(data.len() == 14 + b.bits.len());
            lemma_u32_le_roundtrip(b.num_keys);
            lemma_u32_le_roundtrip(b.centi_bpk);
            lemma_u32_le_roundtrip(b.total_bits);
            assert(spec_u32_le(b.num_keys) =~= data.subrange(1, 5));
            assert(spec_u32_le(b.centi_bpk) =~= data.subrange(5, 9));
            assert(spec_u32_le(b.total_bits) =~= data.subrange(9, 13));
            assert(spec_u32_at(data, 1) == b.num_keys);
            assert(spec_u32_at(data, 5) == b.centi_bpk);
            assert(spec_u32_at(data, 9) == b.total_bits);
            assert(data[13] == b.num_probes);
            assert(8 * b.bits.len() == b.total_bits);
            assert(b.total_bits / 8 == b.bits.len());
            assert(data.skip(14) =~= b.bits);
            assert(spec_parse(data) == Some(v));
        },
        FilterV::Ribbon(r) => {
            assert(data.len() == 25 + r.sol.len());
            lemma_u32_le_roundtrip(r.num_keys);
            lemma_u32_le_roundtrip(r.centi_bpk);
            lemma_u32_le_roundtrip(r.num_slots);
            lemma_u32_le_roundtrip(SEGMENT_LENGTH);
            lemma_u64_le_roundtrip(r.seed);
            assert(spec_u32_le(r.num_keys) =~= data.subrange(1, 5));
            assert(spec_u32_le(r.centi_bpk) =~= data.subrange(5, 9));
            assert(spec_u32_le(r.num_slots) =~= data.subrange(9, 13));
            assert(spec_u32_le(SEGMENT_LENGTH) =~= data.subrange(13, 17));
            assert(spec_u64_le(r.seed) =~= data.subrange(17, 25));
            assert(spec_u32_at(data, 1) == r.num_keys);
            assert(spec_u32_at(data, 5) == r.centi_bpk);
            assert(spec_u32_at(data, 9) == r.num_slots);
            assert(spec_u32_at(data, 13) == SEGMENT_LENGTH);
            assert(spec_u64_at(data, 17) == r.seed);
            assert(data.skip(25) =~= r.sol);
            assert(spec_parse(data) == Some(v));
        },
    }
}

/// Dropping any nonzero number of trailing bytes from a parsable buffer
/// makes the parse fail: the header's declared length no longer matches.
pub proof fn lemma_truncation_detected(data: Seq<u8>, n: int)
    requires
        spec_parse(data) is Some,
        0 < n <= data.len(),
    ensures
        spec_parse(data.take(data.len() - n)) is None,
{
    let cut = data.take(data.len() - n);
    if cut.len() >= 14 {
        assert(cut[0] == data[0]);
        assert(spec_u32_at(cut, 9) == spec_u32_at(data, 9));
        if cut.len() >= 25 {
            assert(spec_u32_at(cut, 13) == spec_u32_at(data, 13));
        }
    }
}

/// An unknown format tag makes the parse fail whatever the rest holds.
pub proof fn lemma_bad_tag_detected(data: Seq<u8>, tag: u8)
    requires
        tag != 0,
        tag != 1,
        tag != 2,
        data.len() > 0,
    ensures
        spec_parse(data.update(0, tag)) is None,
{
}

/// Append the little-endian bytes of a u32.
fn push_u32_le(out: &mut Vec<u8>, x: u32)
    ensures
        final(out)@ == old(out)@ + spec_u32_le(x),
{
    proof {
        assert(x & 0xff < 256 && (x >> 8) & 0xff < 256 && (x >> 16) & 0xff < 256 && (x >> 24)
            & 0xff < 256) by (bit_vector);
    }
    out.push((x & 0xff) as u8);
    out.push(((x >> 8) & 0xff) as u8);
    out.push(((x >> 16) & 0xff) as u8);
    out.push(((x >> 24) & 0xff) as u8);
    proof {
        assert(out@ =~= old(out)@ + spec_u32_le(x));
    }
}

/// Append the little-endian bytes of a u64.
fn push_u64_le(out: &mut Vec<u8>, x: u64)
    ensures
        final(out)@ == old(out)@ + spec_u64_le(x),
{
    proof {
        assert(x & 0xff < 256 && (x >> 8) & 0xff < 256 && (x >> 16) & 0xff < 256 && (x >> 24)
            & 0xff < 256 && (x >> 32) & 0xff < 256 && (x >> 40) & 0xff < 256 && (x >> 48) & 0xff
            < 256 && (x >> 56) & 0xff < 256) by (bit_vector);
    }
    out.push((x & 0xff) as u8);
    out.push(((x >> 8) & 0xff) as u8);
    out.push(((x >> 16) & 0xff) as u8);
    out.push(((x >> 24) & 0xff) as u8);
    out.push(((x >> 32) & 0xff) as u8);
    out.push(((x >> 40) & 0xff) as u8);
    out.push(((x >> 48) & 0xff) as u8);
    out.push(((x >> 56) & 0xff) as u8);
    proof {
        assert(out@ =~= old(out)@ + spec_u64_le(x));
    }
}

/// Append a whole byte vector.
fn push_bytes(out: &mut Vec<u8>, bytes: &Vec<u8>)
    requires
        old(out)@.len() + bytes@.len() <= usize::MAX,
    ensures
        final(out)@ == old(out)@ + bytes@,
{
    let mut k: usize = 0;
    while k < bytes.len()
        invariant
            k <= bytes@.len(),
            out@ == old(out)@ + bytes@.take(k as int),
        decreases bytes@.len() - k,
    {
        out.push(bytes[k]);
        k = k + 1;
        proof {
            assert(old(out)@ + bytes@.take(k as int) =~= (old(out)@ + bytes@.take(k - 1)).push(
                bytes@[k - 1],
            ));
        }
    }
    proof {
        assert(bytes@.take(bytes@.len() as int) =~= bytes@);
        assert(out@ =~= old(out)@ + bytes@);
    }
}

/// Serialize a filter to its exact byte string.
pub fn encode_filter(f: &Filter) -> (r: Vec<u8>)
    requires
        spec_filter_wf(f@),
    ensures
        r@ == spec_encode(f@),
{
    let mut out: Vec<u8> = Vec::new();
    match f {
        Filter::Bloom(b) => {
            if b.from_ribbon {
                out.push(2u8);
            } else {
                out.push(0u8);
            }
            push_u32_le(&mut out, b.num_keys);
            push_u32_le(&mut out, b.centi_bpk);
            push_u32_le(&mut out, b.total_bits);
            out.push(b.num_probes);
            push_bytes(&mut out, &b.bits);
            proof {
                assert(out@ =~= spec_encode(f@));
            }
        },
        Filter::Ribbon(r) => {
            out.push(1u8);
            push_u32_le(&mut out, r.num_keys);
            push_u32_le(&mut out, r.centi_bpk);
            push_u32_le(&mut out, r.num_slots);
            push_u32_le(&mut out, SEGMENT_LENGTH);
            push_u64_le(&mut out, r.seed);
            push_bytes(&mut out, &r.sol);
            proof {
                assert(out@ =~= spec_encode(f@));
            }
        },
    }
    out
}

/// Read the little-endian u32 at byte `i`.
fn read_u32_le(data: &Vec<u8>, i: usize) -> (r: u32)
    requires
        i + 4 <= data@.len(),
    ensures
        r == spec_u32_at(data@, i as int),
{
    let _len: usize = data.len();
    (data[i] as u32) | ((data[i + 1] as u32) << 8) | ((data[i + 2] as u32) << 16) | ((data[i + 3]
        as u32) << 24)
}

/// Read the little-endian u64 at byte `i`.
fn read_u64_le(data: &Vec<u8>, i: usize) -> (r: u64)
    requires
        i + 8 <= data@.len(),
    ensures
        r == spec_u64_at(data@, i as int),
{
    let _len: usize = data.len();
    (data[i] as u64) | ((data[i + 1] as u64) << 8) | ((data[i + 2] as u64) << 16) | ((data[i + 3]
        as u64) << 24) | ((data[i + 4] as u64) << 32) | ((data[i + 5] as u64) << 40) | ((data[i + 6]
        as u64) << 48) | ((data[i + 7] as u64) << 56)
}

/// Copy the payload bytes from `start` to the end.
fn copy_tail(data: &Vec<u8>, start: usize) -> (r: Vec<u8>)
    requires
        start <= data@.len(),
    ensures
        r@ == data@.skip(start as int),
{
    let mut out: Vec<u8> = Vec::new();
    let mut k: usize = start;
    while k < data.len()
        invariant
            start <= k <= data@.len(),
            out@ == data@.subrange(start as int, k as int),
        decreases data@.len() - k,
    {
        out.push(data[k]);
        k = k + 1;
        proof {
            assert(data@.subrange(start as int, k as int) =~= data@.subrange(
                start as int,
                k - 1,
            ).push(data@[k - 1]));
        }
    }
    proof {
        assert(out@ =~= data@.skip(start as int));
    }
    out
}

/// Parse a serialized filter, as the spec says; `None` means corrupt.
pub fn parse_filter(data: &Vec<u8>) -> (r: Option<Filter>)
    ensures
        r is Some <==> spec_parse(data@) is Some,
        r is Some ==> r->Some_0@ == spec_parse(data@)->Some_0,
        r is Some ==> spec_filter_wf(r->Some_0@),
{
    if data.len() < 14 {
        return None;
    }
    let tag = data[0];
    let num_keys = read_u32_le(data, 1);
    let centi_bpk = read_u32_le(data, 5);
    if tag == 0 || tag == 2 {
        let total_bits = read_u32_le(data, 9);
        let num_probes = data[13];
        if total_bits % 512 == 0 && 512 <= total_bits && total_bits <= MAX_TOTAL_BITS && 1
            <= num_probes && num_probes <= 30 && data.len() == 14 + (total_bits / 8) as usize {
            let bits = copy_tail(data, 14);
            Some(
                Filter::Bloom(
                    BloomBlock {
                        num_keys,
                        centi_bpk,
                        total_bits,
                        num_probes,
                        from_ribbon: tag == 2,
                        bits,
                    },
                ),
            )
        } else {
            None
        }
    } else if tag == 1 {
        if data.len() < 25 {
            return None;
        }
        let num_slots = read_u32_le(data, 9);
        let seg = read_u32_le(data, 13);
        let seed = read_u64_le(data, 17);
        if 64 <= num_slots && num_slots <= MAX_SLOTS && seg == SEGMENT_LENGTH && data.len() == 25
            + ((num_slots + 7) / 8) as usize {
            let sol = copy_tail(data, 25);
            Some(Filter::Ribbon(RibbonBlock { num_keys, centi_bpk, num_slots, seed, sol }))
        } else {
            None
        }
    } else {
        None
    }
}

/// Query a parsed filter with a fingerprint.
pub fn filter_query(f: &Filter, h: u64) -> (r: bool)
    requires
        spec_filter_wf(f@),
    ensures
        r == spec_filter_query(f@, h),
{
    match f {
        Filter::Bloom(b) => {
            if b.num_keys == 0 {
                false
            } else {
                bloom_block_query(&b.bits, b.total_bits, b.num_probes, h)
            }
        },
        Filter::Ribbon(r) => {
            if r.num_keys == 0 {
                false
            } else {
                ribbon_eval(&r.sol, r.num_slots, ribbon_rbits(r.centi_bpk), r.seed, h)
            }
        },
    }
}

} // verus!
