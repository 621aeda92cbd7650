use perception::{
    hash_bytes, mix_numerator, projection_hash, projection_key, projection_row, EncodingMethod,
    PerceptionEncoder, MIX_RANGE,
};

#[test]
fn test_projection_key_layout() {
    assert_eq!(projection_key("hash", 3, 8), "hash-3-8");
    assert_eq!(projection_key("random", 0, 100), "random-0-100");
    assert_eq!(projection_key("learned", 12, 10), "learned-12-10");
    assert_eq!(projection_key("", 1234567890, 9), "-1234567890-9");
}

#[test]
fn test_projection_hash_is_hash_of_key() {
    assert_eq!(projection_hash("hash", 3, 8), 10583724997335496672);
    assert_eq!(projection_hash("random", 0, 100), hash_bytes("random-0-100"));
    assert_eq!(projection_hash("learned", 12, 10), 0x92b470883ad7f862);
}

#[test]
fn test_mix_numerator_values() {
    assert_eq!(mix_numerator(7, 0), 7);
    assert_eq!(mix_numerator(1_000_003, 0), 3);
    // wraps modulo 2^64 before reducing
    assert_eq!(mix_numerator(u64::MAX, 5), 178804);
    let h = projection_hash("hash", 3, 8);
    let expected = [496672u64, 932433, 368194, 803955, 239716, 675477, 111238, 546999];
    for (j, &e) in expected.iter().enumerate() {
        assert_eq!(mix_numerator(h, j), e);
        assert!(mix_numerator(h, j) < MIX_RANGE);
    }
}

#[test]
fn test_projection_row_values() {
    let row = projection_row("hash", 3, 8);
    assert_eq!(row, vec![496672, 932433, 368194, 803955, 239716, 675477, 111238, 546999]);
    assert!(projection_row("hash", 3, 0).is_empty());
}

#[test]
fn test_projection_table_for_hash_method() {
    let enc = PerceptionEncoder::new(3, 4, EncodingMethod::HashProjection);
    let table = enc.projection_table(2).unwrap();
    assert_eq!(table.len(), 2);
    assert_eq!(table[0], vec![591429, 27190, 462951, 898712]);
    assert_eq!(table[1], vec![232646, 668407, 104168, 539929]);
}

#[test]
fn test_projection_table_absent_without_projection() {
    let raw = PerceptionEncoder::new(3, 6, EncodingMethod::Raw);
    assert!(raw.projection_table(3).is_none());
    let norm = PerceptionEncoder::new(3, 6, EncodingMethod::Normalized);
    assert!(norm.projection_table(3).is_none());
}

#[test]
fn test_projection_tables_differ_by_seed_and_repeat_by_seed() {
    let a = PerceptionEncoder::new(3, 8, EncodingMethod::HashProjection);
    let b = PerceptionEncoder::new(3, 8, EncodingMethod::RandomProjection);
    let c = PerceptionEncoder::new(3, 8, EncodingMethod::LearnedProjection);
    let ta = a.projection_table(6).unwrap();
    assert_eq!(ta, a.projection_table(6).unwrap());
    assert_ne!(ta, b.projection_table(6).unwrap());
    assert_ne!(ta, c.projection_table(6).unwrap());
    assert_eq!(ta[4], projection_row("hash", 4, 8));
    assert!(a.projection_table(0).unwrap().is_empty());
}
