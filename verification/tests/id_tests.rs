use docstore::id::{key_of, DocumentId};

#[test]
fn key_derivation_is_deterministic() {
    let id = DocumentId { hi: 0xDEAD_BEEF_0000_0001, lo: 42 };
    assert_eq!(key_of(&id), key_of(&id.clone()));
}

#[test]
fn key_carries_shard_prefix() {
    let id = DocumentId { hi: 0xAB00_0000_0000_0000, lo: 0 };
    let key = key_of(&id);
    assert_eq!(key.shard, 0xAB);
    assert_eq!(key.hi, id.hi);
    assert_eq!(key.lo, id.lo);
}

#[test]
fn distinct_ids_get_distinct_keys_and_paths() {
    let a = DocumentId { hi: 1, lo: 2 };
    let b = DocumentId { hi: 1, lo: 3 };
    assert_ne!(key_of(&a), key_of(&b));
    assert_ne!(key_of(&a).render_path(), key_of(&b).render_path());
}

#[test]
fn path_renders_exact_hex() {
    let id = DocumentId { hi: 0x0123_4567_89AB_CDEF, lo: 0xFEDC_BA98_7654_3210 };
    let path = key_of(&id).render_path();
    assert_eq!(path.as_slice(), b"01/0123456789abcdeffedcba9876543210");
}

#[test]
fn path_of_zero_id() {
    let id = DocumentId { hi: 0, lo: 0 };
    let path = key_of(&id).render_path();
    assert_eq!(path.as_slice(), b"00/00000000000000000000000000000000");
}

#[test]
fn from_entropy_sets_both_halves() {
    let id = DocumentId::from_entropy(7, 11);
    assert_eq!(id, DocumentId { hi: 7, lo: 11 });
}
