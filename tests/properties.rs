use dup_indexer::{DupIndexer, DupIndexerRefs};

fn insert_all(di: &mut DupIndexer<String>, inputs: &[&str]) -> Vec<usize> {
    inputs.iter().map(|s| di.insert(s.to_string())).collect()
}

#[test]
fn equal_values_share_an_identifier_and_distinct_ones_do_not() {
    let inputs = ["x", "y", "x", "z", "y", "y", "w", "x"];
    let mut di: DupIndexer<String> = DupIndexer::new();
    let ids = insert_all(&mut di, &inputs);
    for a in 0..inputs.len() {
        for b in 0..inputs.len() {
            assert_eq!(ids[a] == ids[b], inputs[a] == inputs[b]);
        }
    }
}

#[test]
fn identifiers_are_dense_in_first_seen_order() {
    let inputs = ["x", "y", "x", "z", "y", "y", "w", "x"];
    let mut di: DupIndexer<String> = DupIndexer::new();
    let ids = insert_all(&mut di, &inputs);
    assert_eq!(ids, vec![0, 1, 0, 2, 1, 1, 3, 0]);
    assert_eq!(di.into_vec(), vec!["x", "y", "z", "w"]);
}

#[test]
fn length_counts_distinct_values() {
    let inputs = ["a", "b", "a", "a", "c", "b"];
    let mut di: DupIndexer<String> = DupIndexer::new();
    insert_all(&mut di, &inputs);
    assert_eq!(di.len(), 3);
    assert_eq!(di.into_vec().len(), 3);
}

#[test]
fn repeated_insertion_is_idempotent() {
    let mut di: DupIndexer<u64> = DupIndexer::new();
    assert_eq!(di.insert(5), 0);
    let before = di.len();
    for _ in 0..4 {
        assert_eq!(di.insert(9), 1);
        assert_eq!(di.len(), before + 1);
    }
    for _ in 0..3 {
        assert_eq!(di.insert(5), 0);
        assert_eq!(di.len(), before + 1);
    }
}

#[test]
fn exported_values_at_returned_identifiers_round_trip() {
    let inputs = ["p", "q", "p", "r", "q"];
    let mut di: DupIndexer<String> = DupIndexer::new();
    let ids = insert_all(&mut di, &inputs);
    let out = di.into_vec();
    for (k, id) in ids.iter().enumerate() {
        assert_eq!(out[*id], inputs[k]);
    }
}

#[test]
fn scenario_strings() {
    let mut di: DupIndexer<String> = DupIndexer::new();
    assert_eq!(di.insert("foo".to_string()), 0);
    assert_eq!(di.insert("bar".to_string()), 1);
    assert_eq!(di.insert("foo".to_string()), 0);
    assert_eq!(di.into_vec(), vec!["foo", "bar"]);
}

#[test]
fn scenario_integers() {
    let mut di: DupIndexer<i64> = DupIndexer::new();
    assert_eq!(di.insert(42), 0);
    assert_eq!(di.insert(13), 1);
    assert_eq!(di.insert(42), 0);
    assert_eq!(di.into_vec(), vec![42, 13]);
}

#[test]
fn scenario_hundred_strings_twice_interleaved() {
    let mut di: DupIndexer<String> = DupIndexer::new();
    let mut first = Vec::new();
    for i in 0..100 {
        first.push(di.insert(format!("s{i}")));
    }
    for i in (0..100).rev() {
        assert_eq!(di.insert(format!("s{i}")), first[i]);
    }
    assert_eq!(first, (0..100).collect::<Vec<usize>>());
    assert_eq!(di.len(), 100);
}

#[test]
fn scenario_empty_indexer() {
    let di: DupIndexer<String> = DupIndexer::new();
    assert_eq!(di.len(), 0);
    assert!(di.is_empty());
    assert!(di.as_slice().is_empty());
    assert_eq!(di.into_vec(), Vec::<String>::new());
}

#[test]
fn scenario_growth_keeps_identifiers() {
    let mut di: DupIndexer<String> = DupIndexer::with_capacity(1);
    let start = di.capacity();
    let mut ids = Vec::new();
    for i in 0..1000 {
        ids.push(di.insert(i.to_string()));
    }
    assert!(di.capacity() > start);
    for i in 0..1000 {
        assert_eq!(di[ids[i]], i.to_string());
        assert_eq!(di.insert(i.to_string()), i);
    }
    assert_eq!(di.len(), 1000);
}

#[test]
fn capacity_covers_length() {
    let mut di: DupIndexer<u8> = DupIndexer::new();
    for b in 0..=255u8 {
        di.insert(b);
        assert!(di.capacity() >= di.len());
    }
    assert_eq!(di.len(), 256);
}

#[test]
fn with_capacity_starts_empty() {
    let di: DupIndexer<u32> = DupIndexer::with_capacity(64);
    assert!(di.is_empty());
    assert!(di.capacity() >= 64);
}

#[test]
fn vectors_are_keyed_element_wise() {
    let mut di: DupIndexer<Vec<String>> = DupIndexer::new();
    assert_eq!(di.insert(vec!["a".to_string(), "b".to_string()]), 0);
    assert_eq!(di.insert(vec!["ab".to_string()]), 1);
    assert_eq!(di.insert(vec![]), 2);
    assert_eq!(di.insert(vec!["a".to_string(), "b".to_string()]), 0);
    assert_eq!(di.insert(vec![]), 2);
    assert_eq!(di.len(), 3);
}

#[test]
fn booleans_and_unit_like_values() {
    let mut di: DupIndexer<bool> = DupIndexer::new();
    assert_eq!(di.insert(true), 0);
    assert_eq!(di.insert(false), 1);
    assert_eq!(di.insert(true), 0);
    assert_eq!(di.into_vec(), vec![true, false]);
}

#[test]
fn largest_integers_are_told_apart() {
    let mut di: DupIndexer<u128> = DupIndexer::new();
    assert_eq!(di.insert(u128::MAX), 0);
    assert_eq!(di.insert(u64::MAX as u128), 1);
    assert_eq!(di.insert(0), 2);
    assert_eq!(di.insert(u128::MAX), 0);
    let mut signed: DupIndexer<i32> = DupIndexer::new();
    assert_eq!(signed.insert(-1), 0);
    assert_eq!(signed.insert(i32::MAX), 1);
    assert_eq!(signed.insert(-1), 0);
}

#[test]
fn refs_probe_by_borrowed_form() {
    let mut di: DupIndexerRefs<String> = DupIndexerRefs::new();
    assert_eq!(di.insert_ref(""), 0);
    assert_eq!(di.insert_ref("é"), 1);
    assert_eq!(di.insert_owned(String::new()), 0);
    assert_eq!(di.insert_ref("é"), 1);
    assert_eq!(di[1], "é");
    assert_eq!(di.len(), 2);
}

#[test]
fn new_indexer_has_no_capacity() {
    let di: DupIndexer<&str> = DupIndexer::new();
    assert_eq!(di.capacity(), 0);
    let refs: DupIndexerRefs<String> = DupIndexerRefs::new();
    assert_eq!(refs.capacity(), 0);
}

#[test]
fn reserved_capacity_survives_insertions() {
    let mut di: DupIndexerRefs<String> = DupIndexerRefs::with_capacity(8);
    assert!(di.capacity() >= 8);
    for i in 0..20 {
        di.insert_ref(&i.to_string());
        assert!(di.capacity() >= 8);
        assert!(di.capacity() >= di.len());
    }
}

#[test]
fn into_iter_yields_values_once_in_order() {
    let mut di: DupIndexer<Option<u8>> = DupIndexer::new();
    assert_eq!(di.insert(Some(2)), 0);
    assert_eq!(di.insert(None), 1);
    assert_eq!(di.insert(Some(2)), 0);
    assert_eq!(di.insert(Some(1)), 2);
    let mut it = di.into_iter();
    assert_eq!(it.next(), Some(Some(2)));
    assert_eq!(it.next(), Some(None));
    assert_eq!(it.next(), Some(Some(1)));
    assert_eq!(it.next(), None);
}

#[test]
fn empty_indexer_renders_as_empty_map() {
    let di: DupIndexer<u8> = DupIndexer::new();
    assert_eq!(di.debug_string(), "{}");
    let mut many: DupIndexer<u16> = DupIndexer::new();
    for v in 0..12u16 {
        many.insert(v * 3);
    }
    assert_eq!(
        many.debug_string(),
        "{0: 0, 1: 3, 2: 6, 3: 9, 4: 12, 5: 15, 6: 18, 7: 21, 8: 24, 9: 27, 10: 30, 11: 33}"
    );
}

#[test]
fn arrays_and_units_intern() {
    let mut di: DupIndexer<[u8; 2]> = DupIndexer::new();
    assert_eq!(di.insert([1, 2]), 0);
    assert_eq!(di.insert([2, 1]), 1);
    assert_eq!(di.insert([1, 2]), 0);
    let mut units: DupIndexer<()> = DupIndexer::new();
    assert_eq!(units.insert(()), 0);
    assert_eq!(units.insert(()), 0);
    assert_eq!(units.len(), 1);
}
