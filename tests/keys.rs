use dup_indexer::PtrRead;

#[test]
fn string_hash_is_fnv1a_of_its_bytes() {
    assert_eq!(String::new().key_hash(), 0xcbf2_9ce4_8422_2325);
    assert_eq!("a".to_string().key_hash(), 0xaf63_dc4c_8601_ec8c);
    assert_eq!("foobar".to_string().key_hash(), 0x8594_4171_f739_67e8);
}

#[test]
fn str_and_string_hash_alike() {
    let s: &str = "héllo";
    assert_eq!(s.key_hash(), s.to_string().key_hash());
    assert!(s.key_eq(&"héllo"));
    assert!(!s.key_eq(&"hello"));
}

#[test]
fn integer_hash_is_low_64_bits() {
    assert_eq!(42u64.key_hash(), 42);
    assert_eq!((-1i32).key_hash(), u64::MAX);
    assert_eq!(((1u128 << 64) + 7).key_hash(), 7);
    assert_eq!('a'.key_hash(), 97);
    assert_eq!(true.key_hash(), 1);
    assert_eq!(false.key_hash(), 0);
}

#[test]
fn vector_hash_folds_element_hashes() {
    let empty: Vec<u64> = Vec::new();
    assert_eq!(empty.key_hash(), 0xcbf2_9ce4_8422_2325);
    let one = vec![1u64];
    assert_eq!(
        one.key_hash(),
        (0xcbf2_9ce4_8422_2325u64 ^ 1).wrapping_mul(0x0000_0100_0000_01b3)
    );
}

#[test]
fn key_equality_matches_value_equality() {
    assert!(vec![1, 2, 3].key_eq(&vec![1, 2, 3]));
    assert!(!vec![1, 2, 3].key_eq(&vec![1, 2]));
    assert!(!vec![1, 2, 3].key_eq(&vec![1, 2, 4]));
    assert!("ab".to_string().key_eq(&"ab".to_string()));
    assert!(!"ab".to_string().key_eq(&"ba".to_string()));
    assert!(7i8.key_eq(&7i8));
    assert!(!7i8.key_eq(&-7i8));
}

#[test]
fn options_are_keyed_by_variant_and_content() {
    assert!(Some(3u8).key_eq(&Some(3u8)));
    assert!(!Some(3u8).key_eq(&Some(4u8)));
    assert!(!Some(0u8).key_eq(&None));
    assert!(None::<u8>.key_eq(&None));
    assert_eq!(None::<u8>.key_hash(), 0xcbf2_9ce4_8422_2325);
    assert_eq!(
        Some(1u8).key_hash(),
        (0xcbf2_9ce4_8422_2325u64 ^ 1).wrapping_mul(0x0000_0100_0000_01b3)
    );
}

#[test]
fn arrays_hash_like_vectors() {
    let a = [1u64, 2, 3];
    assert_eq!(a.key_hash(), vec![1u64, 2, 3].key_hash());
    assert!(a.key_eq(&[1, 2, 3]));
    assert!(!a.key_eq(&[1, 2, 4]));
}

#[test]
fn unit_and_wrapping_keys() {
    assert!(().key_eq(&()));
    assert_eq!(().key_hash(), 0);
    let w = std::num::Wrapping(7u32);
    assert!(w.key_eq(&std::num::Wrapping(7u32)));
    assert!(!w.key_eq(&std::num::Wrapping(8u32)));
    assert_eq!(w.key_hash(), 7);
}
