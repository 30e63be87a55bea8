use std::ops::Deref;

use dup_indexer::DupIndexerRefs;

#[test]
fn deref_test_string() {
    let mut di: DupIndexerRefs<String> = DupIndexerRefs::with_capacity(5);
    assert!(di.is_empty());
    assert!(di.capacity() >= 5);
    assert_eq!(di.insert_owned("foo".to_string()), 0);
    assert_eq!(di.insert_owned("bar".to_string()), 1);
    assert_eq!(di.insert_owned("foo".to_string()), 0);
    assert_eq!(di[1], "bar");
    assert_eq!(di[1], "bar".to_string());
    assert!(!di.is_empty());
    assert_eq!(di.len(), 2);
    assert!(di.capacity() >= 5);
    assert_eq!(di.deref(), &["foo", "bar"]);
    assert_eq!(di.as_slice(), &["foo", "bar"]);
    assert_eq!(di.debug_string(), r#"{0: "foo", 1: "bar"}"#);
    assert_eq!(di.into_vec(), vec!["foo", "bar"]);
}

#[test]
fn test_string_own() {
    let mut di: DupIndexerRefs<String> = DupIndexerRefs::with_capacity(5);
    assert_eq!(di.insert_owned("foo".to_string()), 0);
    assert_eq!(di.insert_ref("bar"), 1);
    assert_eq!(di.insert_ref("foo"), 0);
    assert_eq!(di.into_vec(), vec!["foo", "bar"]);
}

#[test]
fn deref_test_many_strings() {
    const ITERATIONS: usize = 50;
    let mut di: DupIndexerRefs<String> = DupIndexerRefs::with_capacity(1);
    let mut old_capacity = 0;
    let mut capacity_has_grown = false;
    for shift in &[0, ITERATIONS] {
        for _pass in 0..2 {
            for idx in 0..ITERATIONS {
                assert_eq!(di.insert_owned((idx + shift).to_string()), idx + shift);
                if old_capacity == 0 {
                    old_capacity = di.capacity();
                } else if di.capacity() > old_capacity {
                    capacity_has_grown = true;
                }
            }
        }
    }
    // Ensure that capacity has grown at least once
    assert!(capacity_has_grown);
    assert_eq!(
        di.into_vec(),
        (0..ITERATIONS * 2)
            .map(|i| i.to_string())
            .collect::<Vec<_>>()
    );
}

#[test]
fn insert_ref_then_owned_share_identifiers() {
    let mut di: DupIndexerRefs<String> = DupIndexerRefs::new();
    assert_eq!(di.insert_ref("hello"), 0);
    assert_eq!(di.insert_ref("world"), 1);
    assert_eq!(di.insert_owned("hello".to_string()), 0);
    assert_eq!(di.insert_ref("world"), 1);
    assert_eq!(di.len(), 2);
    assert_eq!(di.into_vec(), vec!["hello", "world"]);
}

#[test]
fn refs_default_is_empty() {
    let di: DupIndexerRefs<String> = DupIndexerRefs::default();
    assert!(di.is_empty());
    assert_eq!(di.len(), 0);
    assert_eq!(di.into_vec(), Vec::<String>::new());
}

#[test]
fn refs_into_iter_in_identifier_order() {
    let mut di: DupIndexerRefs<String> = DupIndexerRefs::new();
    assert_eq!(di.insert_ref("b"), 0);
    assert_eq!(di.insert_ref("a"), 1);
    assert_eq!(di.insert_ref("b"), 0);
    assert_eq!(di.into_iter().collect::<Vec<_>>(), vec!["b", "a"]);
}
