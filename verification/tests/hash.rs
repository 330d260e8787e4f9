use necessary_work::hash::fnv1a64;
use necessary_work::record::digest_bytes;

#[test]
fn matches_the_reference_vector() {
    // The canonical FNV-1a 64 test vectors.
    assert_eq!(fnv1a64(b""), 0xcbf2_9ce4_8422_2325);
    assert_eq!(fnv1a64(b"a"), 0xaf63_dc4c_8601_ec8c);
}

#[test]
fn digests_are_fnv_over_the_serialized_bytes() {
    assert_eq!(digest_bytes(b"foobar"), 0x8594_4171_f739_67e8);
    assert_ne!(digest_bytes(b"foobar"), digest_bytes(b"foobaz"));
}
