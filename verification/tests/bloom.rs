use xx_bloomfilter::Bloom;

#[test]
fn bloom_test_add() {
    let mut bloom = Bloom::new(100, 10);
    let key: u64 = rand::random();
    assert_eq!(bloom.check(&key), false);
    bloom.add(&key);
    assert_eq!(bloom.check(&key), true);
}

#[test]
fn bloom_test_check_and_add() {
    let mut bloom = Bloom::new(100, 10);
    let key: u64 = rand::random();
    assert_eq!(bloom.check_and_add(&key), false);
    assert_eq!(bloom.check_and_add(&key), true);
}

#[test]
fn bloom_test_clear() {
    let mut bloom = Bloom::new(100, 10);
    let key: u64 = rand::random();
    bloom.add(&key);
    assert_eq!(bloom.check(&key), true);
    bloom.clear();
    assert_eq!(bloom.check(&key), false);
}

#[test]
fn bloom_test_load() {
    let mut original = Bloom::new(100, 10);
    let key: u64 = rand::random();
    original.add(&key);
    assert_eq!(original.check(&key), true);

    let cloned = Bloom::from_existing(
        &original.bitmap().to_bytes(),
        original.number_of_bits(),
        original.number_of_hash_functions(),
        original.xx(),
    );
    assert_eq!(cloned.check(&key), true);
}

#[test]
fn bloom_test_load_struct() {
    let mut original = Bloom::new(100, 10);
    let key: u64 = rand::random();
    original.add(&key);
    assert_eq!(original.check(&key), true);

    let cloned = Bloom::from_existing_struct(&original);
    assert_eq!(cloned.check(&key), true);
}

#[test]
fn sizing_matches_formula() {
    // 100 bytes hold 800 bits; k = ceil(800 / 10 * ln 2) = ceil(55.45...) = 56.
    let bloom = Bloom::new(100, 10);
    assert_eq!(bloom.number_of_bits(), 800);
    assert_eq!(bloom.number_of_hash_functions(), 56);
}

#[test]
fn contains_survives_other_insertions() {
    let mut bloom = Bloom::new(100, 10);
    let key: u64 = 0xDEADBEEF;
    bloom.add(&key);
    for other in 0u64..50 {
        bloom.add(&other);
        assert_eq!(bloom.check(&key), true);
    }
}

#[test]
fn check_and_add_matches_prior_check() {
    let mut bloom = Bloom::from_existing(&[0u8; 100], 800, 56, (1, 2));
    for key in 0u64..200 {
        let before = bloom.check(&key);
        assert_eq!(bloom.check_and_add(&key), before);
        assert_eq!(bloom.check(&key), true);
    }
}

#[test]
fn clear_keeps_sizing() {
    let mut bloom = Bloom::new(100, 10);
    bloom.add(&42u64);
    bloom.clear();
    assert_eq!(bloom.check(&42u64), false);
    assert_eq!(bloom.number_of_bits(), 800);
    assert_eq!(bloom.number_of_hash_functions(), 56);
}

#[test]
fn fixed_seed_scenario() {
    // Two filters of identical sizing and seeds, both starting empty: the
    // one that received the value reports it, the fresh one does not.
    let mut with_value = Bloom::from_existing(&[0u8; 100], 800, 56, (11, 22));
    let fresh = Bloom::from_existing(&[0u8; 100], 800, 56, (11, 22));
    let value: u64 = 0x0123456789ABCDEF;
    with_value.add(&value);
    assert_eq!(with_value.check(&value), true);
    assert_eq!(fresh.check(&value), false);
}

#[test]
fn hashing_depends_on_the_value() {
    // With one value inserted, a value differing only by a multiple of the
    // bit count must not probe the same positions.
    let mut bloom = Bloom::from_existing(&[0u8; 100], 800, 56, (1, 2));
    bloom.add(&5u64);
    assert_eq!(bloom.check(&805u64), false);
    assert_eq!(bloom.check(&6u64), false);
}

#[test]
fn export_import_round_trip() {
    let mut original = Bloom::new(100, 10);
    for key in 500u64..600 {
        original.add(&key);
    }
    let state = original.export_state();
    assert_eq!(state.bitmap_size, 800);
    assert_eq!(state.bitmap.len(), 100);
    let restored = Bloom::from_state(&state);
    assert_eq!(restored.number_of_bits(), original.number_of_bits());
    assert_eq!(
        restored.number_of_hash_functions(),
        original.number_of_hash_functions()
    );
    assert_eq!(restored.xx(), original.xx());
    for key in 500u64..600 {
        assert_eq!(restored.check(&key), true);
    }
    for key in 0u64..100 {
        assert_eq!(restored.check(&key), original.check(&key));
    }
}

#[test]
fn export_packs_most_significant_bit_first() {
    // Bits 1,0,1,0,0,0,0,0 pack into the single byte 0b1010_0000.
    let bloom = Bloom::from_existing(&[0b1010_0000u8], 8, 1, (7, 9));
    let state = bloom.export_state();
    assert_eq!(state.bitmap, vec![0b1010_0000u8]);
    assert_eq!(state.bitmap_size, 8);
    assert_eq!(state.k, 1);
    assert_eq!(state.seeds, (7, 9));
}

#[test]
fn rate_sized_filter_holds_a_thousand_items() {
    // m = ceil(items * ln(p) / (-8 * (ln 2)^2)) bytes, for a million items
    // at a one-in-a-million false-positive target.
    let ln2 = std::f64::consts::LN_2;
    let size = ((1_000_000f64) * (1e-6f64).ln() / (-8.0 * ln2 * ln2)).ceil() as usize;
    let mut bloom = Bloom::new(size, 1_000_000);
    assert_eq!(bloom.number_of_bits(), (size * 8) as u64);
    let keys: Vec<u64> = (0..1000).map(|_| rand::random()).collect();
    for key in &keys {
        bloom.add(key);
    }
    for key in &keys {
        assert_eq!(bloom.check(key), true);
    }
}
