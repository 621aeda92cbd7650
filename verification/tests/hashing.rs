use perception::{hash_bytes, FNV_OFFSET_BASIS, FNV_PRIME};

#[test]
fn test_hash_of_empty_is_offset_basis() {
    assert_eq!(hash_bytes(""), 14695981039346656037);
    assert_eq!(hash_bytes(""), FNV_OFFSET_BASIS);
}

#[test]
fn test_hash_known_values() {
    assert_eq!(hash_bytes("a"), 0xaf63dc4c8601ec8c);
    assert_eq!(hash_bytes("foobar"), 0x85944171f73967e8);
}

#[test]
fn test_hash_is_deterministic() {
    assert_eq!(hash_bytes("hash-3-8"), hash_bytes("hash-3-8"));
    assert_ne!(hash_bytes("hash-3-8"), hash_bytes("hash-3-9"));
}

#[test]
fn test_hash_of_concatenation_continues_from_prefix() {
    let mut h = hash_bytes("foo");
    for b in "bar".bytes() {
        h ^= b as u64;
        h = h.wrapping_mul(FNV_PRIME);
    }
    assert_eq!(h, hash_bytes("foobar"));
}

#[test]
fn test_hash_reads_utf8_bytes() {
    // 'é' is two bytes in UTF-8; hashing the char is hashing both bytes.
    let mut h = FNV_OFFSET_BASIS;
    for b in [0xc3u8, 0xa9u8] {
        h ^= b as u64;
        h = h.wrapping_mul(FNV_PRIME);
    }
    assert_eq!(hash_bytes("é"), h);
}
