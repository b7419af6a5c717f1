use filterbits::hash::hash;
use filterbits::FilterBitsBuilderWrapper;
use filterbits::FilterBitsReaderWrapper;
use filterbits::FilterError;
use filterbits::FilterType;

fn lcg_next(state: &mut u64) -> u64 {
    *state = state
        .wrapping_mul(6364136223846793005)
        .wrapping_add(1442695040888963407);
    *state
}

fn make_key(prefix: u8, n: u64) -> Vec<u8> {
    let mut k = vec![prefix];
    k.extend_from_slice(&n.to_le_bytes());
    k
}

#[test]
fn basic_test() {
    let mut builder = FilterBitsBuilderWrapper::create(1000, FilterType::Ribbon);
    builder.add_key(b"abcd");
    builder.add_key(b"cdef");
    let d = builder.finish();
    println!("{}", d.len());
    let reader = FilterBitsReaderWrapper::create(d).unwrap();
    assert!(reader.may_match(b"abcd"));
    assert!(reader.may_match(b"cdef"));
    assert!(!reader.may_match(b"aaaa"));
}

#[test]
fn no_false_negatives_bloom() {
    for &n in &[0u64, 1, 10, 10_000] {
        let mut builder = FilterBitsBuilderWrapper::create(1000, FilterType::FastLocalBloom);
        let mut state: u64 = 42 + n;
        let mut keys = Vec::new();
        for _ in 0..n {
            let k = make_key(b'i', lcg_next(&mut state));
            builder.add_key(&k);
            keys.push(k);
        }
        let d = builder.finish();
        let reader = FilterBitsReaderWrapper::create(d).unwrap();
        for k in &keys {
            assert!(reader.may_match(k));
            assert!(reader.hash_may_match(hash(k)));
        }
    }
}

#[test]
fn no_false_negatives_ribbon() {
    for &n in &[0u64, 1, 10, 10_000] {
        let mut builder = FilterBitsBuilderWrapper::create(1000, FilterType::Ribbon);
        let mut state: u64 = 7 + n;
        let mut keys = Vec::new();
        for _ in 0..n {
            let k = make_key(b'i', lcg_next(&mut state));
            builder.add_key(&k);
            keys.push(k);
        }
        let d = builder.finish();
        let reader = FilterBitsReaderWrapper::create(d).unwrap();
        for k in &keys {
            assert!(reader.may_match(k));
            assert!(reader.hash_may_match(hash(k)));
        }
    }
}

#[test]
fn bloom_false_positive_rate() {
    let mut builder = FilterBitsBuilderWrapper::create(1000, FilterType::FastLocalBloom);
    let mut state: u64 = 1234;
    for _ in 0..10_000 {
        let k = make_key(b'i', lcg_next(&mut state));
        builder.add_key(&k);
    }
    let d = builder.finish();
    let reader = FilterBitsReaderWrapper::create(d).unwrap();
    let mut false_positives: u64 = 0;
    for _ in 0..100_000 {
        let k = make_key(b'q', lcg_next(&mut state));
        if reader.may_match(&k) {
            false_positives += 1;
        }
    }
    // ten bits per key: classical expectation is under one percent; the
    // cache-local layout costs a little more.  Twice the expected rate.
    assert!(
        false_positives < 2000,
        "false positive rate too high: {false_positives} in 100000"
    );
}

#[test]
fn ribbon_false_positive_rate() {
    let mut builder = FilterBitsBuilderWrapper::create(1000, FilterType::Ribbon);
    let mut state: u64 = 4321;
    for _ in 0..10_000 {
        let k = make_key(b'i', lcg_next(&mut state));
        builder.add_key(&k);
    }
    let d = builder.finish();
    let reader = FilterBitsReaderWrapper::create(d).unwrap();
    let mut false_positives: u64 = 0;
    for _ in 0..100_000 {
        let k = make_key(b'q', lcg_next(&mut state));
        if reader.may_match(&k) {
            false_positives += 1;
        }
    }
    // eight equations per key: about one accept in 256 when the solve
    // succeeds, about one percent on the Bloom fallback.
    assert!(
        false_positives < 2000,
        "false positive rate too high: {false_positives} in 100000"
    );
}

#[test]
fn empty_filter_all_queries_false() {
    for tp in [FilterType::FastLocalBloom, FilterType::Ribbon] {
        let builder = FilterBitsBuilderWrapper::create(1000, tp);
        let d = builder.finish();
        let reader = FilterBitsReaderWrapper::create(d).unwrap();
        assert!(!reader.may_match(b""));
        assert!(!reader.may_match(b"abcd"));
        assert!(!reader.hash_may_match(0));
        assert!(!reader.hash_may_match(u64::MAX));
        let mut state: u64 = 5;
        for _ in 0..100 {
            let k = make_key(b'q', lcg_next(&mut state));
            assert!(!reader.may_match(&k));
        }
    }
}

#[test]
fn hash_and_byte_paths_agree() {
    for tp in [FilterType::FastLocalBloom, FilterType::Ribbon] {
        let mut by_key = FilterBitsBuilderWrapper::create(1000, tp);
        let mut by_hash = FilterBitsBuilderWrapper::create(1000, tp);
        let mut state: u64 = 99;
        for _ in 0..50 {
            let k = make_key(b'i', lcg_next(&mut state));
            by_key.add_key(&k);
            by_hash.add_key_hash(hash(&k));
        }
        let d1 = by_key.finish();
        let d2 = by_hash.finish();
        assert_eq!(d1, d2);
        let r1 = FilterBitsReaderWrapper::create(d1).unwrap();
        let r2 = FilterBitsReaderWrapper::create(d2).unwrap();
        for _ in 0..200 {
            let k = make_key(b'q', lcg_next(&mut state));
            assert_eq!(r1.may_match(&k), r2.may_match(&k));
        }
    }
}

#[test]
fn mixed_paths_form_one_key_set() {
    let mut builder = FilterBitsBuilderWrapper::create(1000, FilterType::FastLocalBloom);
    builder.add_key(b"plain");
    builder.add_key_hash(hash(b"hashed"));
    let d = builder.finish();
    let reader = FilterBitsReaderWrapper::create(d).unwrap();
    assert!(reader.may_match(b"plain"));
    assert!(reader.may_match(b"hashed"));
}

#[test]
fn duplicate_keys_are_harmless() {
    let mut builder = FilterBitsBuilderWrapper::create(1000, FilterType::FastLocalBloom);
    for _ in 0..10 {
        builder.add_key(b"same");
    }
    let d = builder.finish();
    let reader = FilterBitsReaderWrapper::create(d).unwrap();
    assert!(reader.may_match(b"same"));
}

#[test]
fn bloom_layout_exact_values() {
    let mut builder = FilterBitsBuilderWrapper::create(1000, FilterType::FastLocalBloom);
    builder.add_key(b"abcd");
    builder.add_key(b"cdef");
    let d = builder.finish();
    // tag 0, two keys at ten bits each round up to one 512-bit bucket.
    assert_eq!(d[0], 0);
    assert_eq!(&d[1..5], &[2, 0, 0, 0]);
    assert_eq!(&d[5..9], &[0xe8, 3, 0, 0]); // 1000 hundredths
    assert_eq!(&d[9..13], &[0, 2, 0, 0]); // 512 bits
    assert_eq!(d[13], 7); // round(10 * ln 2)
    assert_eq!(d.len(), 14 + 64);
}

#[test]
fn bits_per_key_clamped_below_one() {
    let mut low = FilterBitsBuilderWrapper::create(50, FilterType::FastLocalBloom);
    let mut one = FilterBitsBuilderWrapper::create(100, FilterType::FastLocalBloom);
    low.add_key(b"abcd");
    one.add_key(b"abcd");
    let d_low = low.finish();
    let d_one = one.finish();
    assert_eq!(d_low, d_one);
    assert_eq!(&d_low[5..9], &[100, 0, 0, 0]);
}

#[test]
fn ribbon_single_key_solves() {
    let mut builder = FilterBitsBuilderWrapper::create(1000, FilterType::Ribbon);
    builder.add_key(b"only");
    let d = builder.finish();
    assert_eq!(d[0], 1); // the ribbon solve succeeded
    assert_eq!(&d[13..17], &[32, 0, 0, 0]); // segment length
    let reader = FilterBitsReaderWrapper::create(d).unwrap();
    assert!(reader.may_match(b"only"));
}

#[test]
fn round_trip_preserves_queries() {
    for tp in [FilterType::FastLocalBloom, FilterType::Ribbon] {
        let mut builder = FilterBitsBuilderWrapper::create(1000, tp);
        let mut state: u64 = 3;
        for _ in 0..20 {
            let k = make_key(b'i', lcg_next(&mut state));
            builder.add_key(&k);
        }
        let d = builder.finish();
        let parsed = filterbits::codec::parse_filter(&d).unwrap();
        let d2 = filterbits::codec::encode_filter(&parsed);
        assert_eq!(d, d2);
        let r1 = FilterBitsReaderWrapper::create(d).unwrap();
        let r2 = FilterBitsReaderWrapper::create(d2).unwrap();
        let mut qstate: u64 = 77;
        for _ in 0..500 {
            let k = make_key(b'q', lcg_next(&mut qstate));
            assert_eq!(r1.may_match(&k), r2.may_match(&k));
            let h = lcg_next(&mut qstate);
            assert_eq!(r1.hash_may_match(h), r2.hash_may_match(h));
        }
    }
}

#[test]
fn truncation_is_detected() {
    for tp in [FilterType::FastLocalBloom, FilterType::Ribbon] {
        let mut builder = FilterBitsBuilderWrapper::create(1000, tp);
        builder.add_key(b"abcd");
        builder.add_key(b"cdef");
        let d = builder.finish();
        for cut in 1..=d.len() {
            let shorter = d[..d.len() - cut].to_vec();
            match FilterBitsReaderWrapper::create(shorter) {
                Err(e) => assert_eq!(e, FilterError::CorruptFilter),
                Ok(_) => panic!("truncated by {cut} bytes but accepted"),
            }
        }
    }
}

#[test]
fn unknown_tag_is_detected() {
    let mut builder = FilterBitsBuilderWrapper::create(1000, FilterType::FastLocalBloom);
    builder.add_key(b"abcd");
    let d = builder.finish();
    for bad_tag in [3u8, 4, 100, 255] {
        let mut flipped = d.clone();
        flipped[0] = bad_tag;
        match FilterBitsReaderWrapper::create(flipped) {
            Err(e) => assert_eq!(e, FilterError::CorruptFilter),
            Ok(_) => panic!("unknown tag {bad_tag} but accepted"),
        }
    }
}

#[test]
fn empty_buffer_is_corrupt() {
    match FilterBitsReaderWrapper::create(Vec::new()) {
        Err(e) => assert_eq!(e, FilterError::CorruptFilter),
        Ok(_) => panic!("empty buffer accepted"),
    }
}

#[test]
fn ribbon_fallback_on_forced_failure() {
    // Two fingerprints differing only in the lowest bit share their window
    // start and coefficient pattern under every seed, but demand opposite
    // target bits: the system is singular for the whole seed budget.
    let h: u64 = 0x0123_4567_89ab_cdef;
    let mut builder = FilterBitsBuilderWrapper::create(1000, FilterType::Ribbon);
    builder.add_key_hash(h);
    builder.add_key_hash(h ^ 1);
    let d = builder.finish();
    assert_eq!(d[0], 2); // Bloom fallback tag
    let reader = FilterBitsReaderWrapper::create(d).unwrap();
    assert!(reader.hash_may_match(h));
    assert!(reader.hash_may_match(h ^ 1));
}

#[test]
fn hash_is_deterministic_and_spreads() {
    assert_eq!(hash(b"abcd"), hash(b"abcd"));
    assert_ne!(hash(b"abcd"), hash(b"abce"));
    assert_ne!(hash(b""), hash(b"\0"));
}
