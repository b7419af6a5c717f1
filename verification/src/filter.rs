//! The public filter API: a builder that accumulates fingerprints and
//! serializes a filter, and a reader that parses one and answers queries.
//!
//! The builder is consumed by `finish`, so no key can be added to a
//! finished filter; the reader is immutable after `create`, so it can be
//! shared freely across threads.
use vstd::prelude::*;
use crate::hash::{spec_hash, hash};
use crate::bloom::{
    spec_zero_bits, spec_num_probes, spec_total_bits, spec_bloom_build, lemma_total_bits_bounds,
    lemma_build_covers, lemma_build_len, bloom_num_probes, bloom_total_bits, bloom_block_build,
};
use crate::ribbon::{
    spec_num_slots, spec_rbits, spec_ribbon_solve, spec_rcheck, lemma_num_slots_bounds,
    lemma_ribbon_solve_props, ribbon_num_slots, ribbon_rbits, ribbon_solve,
};
use crate::codec::{
    Filter, BloomBlock, RibbonBlock, FilterV, BloomV, RibbonV, spec_filter_wf, spec_filter_query,
    spec_encode, spec_parse, lemma_parse_encode, encode_filter, parse_filter, filter_query,
};

verus! {

/// Which algorithm a builder uses.
#[derive(Clone, Copy, Debug)]
pub enum FilterType {
    FastLocalBloom,
    Ribbon,
}

/// The one error surfaced to callers: a buffer the reader cannot trust.
#[derive(Clone, Copy, Debug, PartialEq, Eq, Structural)]
pub enum FilterError {
    CorruptFilter,
}

/// Abstract state of a builder: its fixed parameters and the fingerprints
/// recorded so far, in order.
pub struct BuilderView {
    pub centi_bpk: u32,
    pub ribbon: bool,
    pub hashes: Seq<u64>,
}

/// Bits-per-key budgets below one bit per key are clamped up to one.
pub open spec fn spec_clamp_bpk(centi_bpk: u32) -> u32 {
    if centi_bpk < 100 {
        100u32
    } else {
        centi_bpk
    }
}

/// The key count a parsed filter declares.
pub open spec fn spec_filter_num_keys(v: FilterV) -> u32 {
    match v {
        FilterV::Bloom(b) => b.num_keys,
        FilterV::Ribbon(r) => r.num_keys,
    }
}

/// The format tag a filter serializes to.
pub open spec fn spec_filter_tag(v: FilterV) -> u8 {
    match v {
        FilterV::Bloom(b) => if b.from_ribbon {
            2u8
        } else {
            0u8
        },
        FilterV::Ribbon(r) => 1u8,
    }
}

/// The Bloom filter built for these fingerprints.
pub open spec fn spec_bloom_filterv(
    num_keys: u32,
    centi_bpk: u32,
    hs: Seq<u64>,
    from_ribbon: bool,
) -> FilterV {
    let total_bits = spec_total_bits(num_keys, centi_bpk);
    let num_probes = spec_num_probes(centi_bpk);
    FilterV::Bloom(
        BloomV {
            num_keys,
            centi_bpk,
            total_bits,
            num_probes,
            from_ribbon,
            bits: spec_bloom_build(
                spec_zero_bits((total_bits / 8) as nat),
                total_bits,
                num_probes,
                hs,
            ),
        },
    )
}

/// The ribbon filter for a successful solve.
pub open spec fn spec_ribbon_filterv(
    num_keys: u32,
    centi_bpk: u32,
    num_slots: u32,
    seed: u64,
    sol: Seq<u8>,
) -> FilterV {
    FilterV::Ribbon(RibbonV { num_keys, centi_bpk, num_slots, seed, sol })
}

/// The exact bytes `finish` returns for a builder state: the ribbon
/// variant solves over its seed budget and falls back to the Bloom path
/// when every attempt fails.
pub open spec fn spec_finish_bytes(v: BuilderView) -> Seq<u8>
    recommends
        v.hashes.len() <= 0xffffffff,
{
    let num_keys = v.hashes.len() as u32;
    if !v.ribbon {
        spec_encode(spec_bloom_filterv(num_keys, v.centi_bpk, v.hashes, false))
    } else {
        let num_slots = spec_num_slots(num_keys, v.centi_bpk);
        match spec_ribbon_solve(v.hashes, num_slots, spec_rbits(v.centi_bpk)) {
            Some(ss) => spec_encode(
                spec_ribbon_filterv(num_keys, v.centi_bpk, num_slots, ss.0, ss.1),
            ),
            None => spec_encode(spec_bloom_filterv(num_keys, v.centi_bpk, v.hashes, true)),
        }
    }
}

/// The buffer parses, and every one of these fingerprints queries true on
/// the parsed filter.
pub open spec fn spec_covers(data: Seq<u8>, hs: Seq<u64>) -> bool {
    &&& spec_parse(data) is Some
    &&& forall|i: int|
        0 <= i < hs.len() ==> spec_filter_query(spec_parse(data)->Some_0, #[trigger] hs[i])
}

/// Accumulates key fingerprints, then serializes a filter over them.
pub struct FilterBitsBuilderWrapper {
    centi_bpk: u32,
    ribbon: bool,
    hashes: Vec<u64>,
}

impl View for FilterBitsBuilderWrapper {
    type V = BuilderView;

    closed spec fn view(&self) -> BuilderView {
        BuilderView { centi_bpk: self.centi_bpk, ribbon: self.ribbon, hashes: self.hashes@ }
    }
}

/// Build and serialize the Bloom filter over these fingerprints.
fn finish_bloom(hashes: &Vec<u64>, num_keys: u32, centi_bpk: u32, from_ribbon: bool) -> (r: Vec<
    u8,
>)
    requires
        hashes@.len() == num_keys,
    ensures
        r@ == spec_encode(spec_bloom_filterv(num_keys, centi_bpk, hashes@, from_ribbon)),
        spec_parse(r@) == Some(spec_bloom_filterv(num_keys, centi_bpk, hashes@, from_ribbon)),
        spec_covers(r@, hashes@),
{
    let num_probes = bloom_num_probes(centi_bpk);
    let total_bits = bloom_total_bits(num_keys, centi_bpk);
    proof {
        lemma_total_bits_bounds(num_keys, centi_bpk);
    }
    let bits = bloom_block_build(hashes, total_bits, num_probes);
    let f = Filter::Bloom(
        BloomBlock { num_keys, centi_bpk, total_bits, num_probes, from_ribbon, bits },
    );
    proof {
        assert(f@ == spec_bloom_filterv(num_keys, centi_bpk, hashes@, from_ribbon));
        assert(spec_filter_wf(f@));
        lemma_parse_encode(f@);
        lemma_build_covers(
            spec_zero_bits((total_bits / 8) as nat),
            total_bits,
            num_probes,
            hashes@,
        );
    }
    let out = encode_filter(&f);
    proof {
        assert forall|i: int| 0 <= i < hashes@.len() implies spec_filter_query(
            spec_parse(out@)->Some_0,
            #[trigger] hashes@[i],
        ) by {
            assert(num_keys != 0);
        }
    }
    out
}

impl FilterBitsBuilderWrapper {
    /// A fresh builder for the given budget, in hundredths of a bit per
    /// key, and algorithm variant.  Budgets below one bit per key are
    /// clamped up to one.
    pub fn create(bits_per_key_centi: u32, tp: FilterType) -> (r: Self)
        ensures
            r@.centi_bpk == spec_clamp_bpk(bits_per_key_centi),
            r@.ribbon == (tp is Ribbon),
            r@.hashes == Seq::<u64>::empty(),
    {
        let centi_bpk = if bits_per_key_centi < 100 {
            100
        } else {
            bits_per_key_centi
        };
        let ribbon = match tp {
            FilterType::FastLocalBloom => false,
            FilterType::Ribbon => true,
        };
        let r = FilterBitsBuilderWrapper { centi_bpk, ribbon, hashes: Vec::new() };
        proof {
            assert(r@.hashes =~= Seq::<u64>::empty());
        }
        r
    }

    /// Record a key: hashes its bytes and records the fingerprint.
    /// Duplicate keys are harmless.
    pub fn add_key(&mut self, key: &[u8])
        ensures
            final(self)@.hashes == old(self)@.hashes.push(spec_hash(key@)),
            final(self)@.centi_bpk == old(self)@.centi_bpk,
            final(self)@.ribbon == old(self)@.ribbon,
    {
        let h = hash(key);
        self.hashes.push(h);
    }

    /// Record a precomputed fingerprint directly, bypassing the hash; the
    /// caller must have used the same hash function for it to stand for a
    /// key.
    pub fn add_key_hash(&mut self, h: u64)
        ensures
            final(self)@.hashes == old(self)@.hashes.push(h),
            final(self)@.centi_bpk == old(self)@.centi_bpk,
            final(self)@.ribbon == old(self)@.ribbon,
    {
        self.hashes.push(h);
    }

    /// Consume the builder and serialize the filter over everything
    /// recorded.  The bytes are a function of the builder state alone, the
    /// buffer always parses, declares the exact key count, and covers
    /// every recorded fingerprint: no false negatives.
    pub fn finish(self) -> (r: Vec<u8>)
        requires
            self@.hashes.len() <= 0xffffffff,
        ensures
            r@ == spec_finish_bytes(self@),
            spec_covers(r@, self@.hashes),
            spec_filter_num_keys(spec_parse(r@)->Some_0) == self@.hashes.len(),
    {
        let FilterBitsBuilderWrapper { centi_bpk, ribbon, hashes } = self;
        let num_keys = hashes.len() as u32;
        if ribbon {
            let num_slots = ribbon_num_slots(num_keys, centi_bpk);
            let rbits = ribbon_rbits(centi_bpk);
            let solved = ribbon_solve(&hashes, num_slots, rbits);
            match solved {
                Some(pair) => {
                    let seed = pair.0;
                    let sol = pair.1;
                    let f = Filter::Ribbon(
                        RibbonBlock { num_keys, centi_bpk, num_slots, seed, sol },
                    );
                    proof {
                        assert(spec_filter_wf(f@));
                        lemma_parse_encode(f@);
                    }
                    let out = encode_filter(&f);
                    proof {
                        assert forall|i: int| 0 <= i < hashes@.len() implies spec_filter_query(
                            spec_parse(out@)->Some_0,
                            #[trigger] hashes@[i],
                        ) by {
                            assert(num_keys != 0);
                            assert(spec_rcheck(f@->Ribbon_0.sol, num_slots, rbits, seed, hashes@));
                        }
                    }
                    out
                },
                None => finish_bloom(&hashes, num_keys, centi_bpk, true),
            }
        } else {
            finish_bloom(&hashes, num_keys, centi_bpk, false)
        }
    }
}

/// Parses a serialized filter once, then answers membership queries,
/// read-only and shareable.
pub struct FilterBitsReaderWrapper {
    filter: Filter,
}

impl View for FilterBitsReaderWrapper {
    type V = FilterV;

    closed spec fn view(&self) -> FilterV {
        self.filter@
    }
}

impl FilterBitsReaderWrapper {
    #[verifier::type_invariant]
    spec fn wf(self) -> bool {
        spec_filter_wf(self.filter@)
    }

    /// Parse a serialized filter, taking ownership of the buffer.  Fails
    /// with `CorruptFilter` exactly when the buffer does not parse: an
    /// unknown tag, a mismatched length, or a parameter out of range.
    pub fn create(data: Vec<u8>) -> (r: Result<Self, FilterError>)
        ensures
            r is Ok <==> spec_parse(data@) is Some,
            r is Ok ==> r->Ok_0@ == spec_parse(data@)->Some_0,
            r is Err ==> r->Err_0 == FilterError::CorruptFilter,
    {
        match parse_filter(&data) {
            Some(f) => Ok(FilterBitsReaderWrapper { filter: f }),
            None => Err(FilterError::CorruptFilter),
        }
    }

    /// Might this key be present?  True for every key recorded before the
    /// `finish` that produced this buffer; false positives possible.
    pub fn may_match(&self, key: &[u8]) -> (r: bool)
        ensures
            r == spec_filter_query(self@, spec_hash(key@)),
    {
        let h = hash(key);
        self.hash_may_match(h)
    }

    /// `may_match` for a caller that already holds the fingerprint.
    pub fn hash_may_match(&self, h: u64) -> (r: bool)
        ensures
            r == spec_filter_query(self@, h),
    {
        proof {
            use_type_invariant(self);
        }
        filter_query(&self.filter, h)
    }
}

/// No false negatives: every fingerprint recorded before `finish` queries
/// true on the filter parsed back from the buffer `finish` returned, for
/// either variant.
pub proof fn lemma_no_false_negatives(data: Seq<u8>, hs: Seq<u64>, i: int)
    requires
        spec_covers(data, hs),
        0 <= i < hs.len(),
    ensures
        spec_parse(data) is Some,
        spec_filter_query(spec_parse(data)->Some_0, hs[i]),
{
}

/// An empty filter accepts nothing: with no keys recorded, `finish` still
/// yields a buffer that parses, and every query on it returns false.
pub proof fn lemma_empty_filter(v: BuilderView, h: u64)
    requires
        v.hashes.len() == 0,
    ensures
        spec_parse(spec_finish_bytes(v)) is Some,
        !spec_filter_query(spec_parse(spec_finish_bytes(v))->Some_0, h),
{
    lemma_finish_parses(v);
    let f = spec_parse(spec_finish_bytes(v))->Some_0;
    assert(spec_filter_num_keys(f) == 0);
}

/// `finish` always yields a buffer that parses back to a well-formed
/// filter declaring the exact key count.
pub proof fn lemma_finish_parses(v: BuilderView)
    requires
        v.hashes.len() <= 0xffffffff,
    ensures
        spec_parse(spec_finish_bytes(v)) is Some,
        spec_filter_num_keys(spec_parse(spec_finish_bytes(v))->Some_0) == v.hashes.len(),
        spec_filter_wf(spec_parse(spec_finish_bytes(v))->Some_0),
{
    let num_keys = v.hashes.len() as u32;
    lemma_total_bits_bounds(num_keys, v.centi_bpk);
    let total_bits = spec_total_bits(num_keys, v.centi_bpk);
    lemma_build_len(
        spec_zero_bits((total_bits / 8) as nat),
        total_bits,
        spec_num_probes(v.centi_bpk),
        v.hashes,
    );
    if !v.ribbon {
        lemma_parse_encode(spec_bloom_filterv(num_keys, v.centi_bpk, v.hashes, false));
    } else {
        let num_slots = spec_num_slots(num_keys, v.centi_bpk);
        lemma_num_slots_bounds(num_keys, v.centi_bpk);
        match spec_ribbon_solve(v.hashes, num_slots, spec_rbits(v.centi_bpk)) {
            Some(ss) => {
                lemma_ribbon_solve_props(v.hashes, num_slots, spec_rbits(v.centi_bpk));
                lemma_parse_encode(spec_ribbon_filterv(num_keys, v.centi_bpk, num_slots, ss.0, ss.1));
            },
            None => {
                lemma_parse_encode(spec_bloom_filterv(num_keys, v.centi_bpk, v.hashes, true));
            },
        }
    }
}

/// Hash path and byte path are interchangeable: recording a key's bytes
/// records exactly its fingerprint, so a builder fed `add_key(key)` and
/// one fed `add_key_hash` of that key's hash reach the same state, their
/// `finish` bytes coincide, and every later query answers the same.
pub proof fn lemma_hash_byte_path_equivalence(v: BuilderView, key: Seq<u8>, h: u64, q: u64)
    requires
        h == spec_hash(key),
        v.hashes.len() + 1 <= 0xffffffff,
    ensures
        ((BuilderView { hashes: v.hashes.push(spec_hash(key)), ..v }) == (BuilderView {
            hashes: v.hashes.push(h),
            ..v
        })),
        (spec_finish_bytes((BuilderView { hashes: v.hashes.push(spec_hash(key)), ..v }))
            == spec_finish_bytes((BuilderView { hashes: v.hashes.push(h), ..v }))),
        (spec_filter_query(
            spec_parse(
                spec_finish_bytes((BuilderView { hashes: v.hashes.push(spec_hash(key)), ..v })),
            )->Some_0,
            q,
        ) == spec_filter_query(
            spec_parse(spec_finish_bytes((BuilderView { hashes: v.hashes.push(h), ..v })))->Some_0,
            q,
        )),
{
}

/// Round-trip stability: parsing the bytes of a well-formed filter gives
/// the filter back, so every query result survives a serialize /
/// deserialize round trip exactly.
pub proof fn lemma_round_trip_queries(v: FilterV, h: u64)
    requires
        spec_filter_wf(v),
    ensures
        spec_parse(spec_encode(v)) == Some(v),
        spec_filter_query(spec_parse(spec_encode(v))->Some_0, h) == spec_filter_query(v, h),
{
    lemma_parse_encode(v);
}

/// Ribbon fallback correctness: when every seeded solve attempt fails,
/// `finish` emits the Bloom fallback tag, and the buffer still parses and
/// covers every recorded fingerprint.
pub proof fn lemma_ribbon_fallback(v: BuilderView)
    requires
        v.ribbon,
        v.hashes.len() <= 0xffffffff,
        spec_ribbon_solve(
            v.hashes,
            spec_num_slots(v.hashes.len() as u32, v.centi_bpk),
            spec_rbits(v.centi_bpk),
        ) is None,
    ensures
        spec_parse(spec_finish_bytes(v)) is Some,
        spec_filter_tag(spec_parse(spec_finish_bytes(v))->Some_0) == 2,
        spec_covers(spec_finish_bytes(v), v.hashes),
{
    let num_keys = v.hashes.len() as u32;
    lemma_total_bits_bounds(num_keys, v.centi_bpk);
    let total_bits = spec_total_bits(num_keys, v.centi_bpk);
    lemma_build_len(
        spec_zero_bits((total_bits / 8) as nat),
        total_bits,
        spec_num_probes(v.centi_bpk),
        v.hashes,
    );
    lemma_parse_encode(spec_bloom_filterv(num_keys, v.centi_bpk, v.hashes, true));
    lemma_build_covers(
        spec_zero_bits((total_bits / 8) as nat),
        total_bits,
        spec_num_probes(v.centi_bpk),
        v.hashes,
    );
}

} // verus!

