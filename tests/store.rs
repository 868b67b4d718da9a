use retreive::store::{check_dimensions, StoreError, TextRecord, TextStore};

fn rec(text: &str, e: &[u32]) -> TextRecord {
    TextRecord { text: text.to_string(), embedding: e.to_vec() }
}

#[test]
fn inserting_a_text_twice_keeps_one_record_with_the_first_embedding() {
    let mut store = TextStore::new(2);
    assert_eq!(store.insert_batch(&vec![rec("a", &[1, 2])]), Ok(1));
    assert_eq!(store.insert_batch(&vec![rec("a", &[9, 9])]), Ok(0));
    assert_eq!(store.len(), 1);
    assert_eq!(store.records()[0].embedding, vec![1, 2]);
    assert!(store.contains(&"a".to_string()));
}

#[test]
fn duplicate_within_one_batch_is_skipped() {
    let mut store = TextStore::new(1);
    let batch = vec![rec("a", &[1]), rec("b", &[2]), rec("a", &[3])];
    assert_eq!(store.insert_batch(&batch), Ok(2));
    let texts: Vec<&str> = store.records().iter().map(|r| r.text.as_str()).collect();
    assert_eq!(texts, vec!["a", "b"]);
    assert_eq!(store.records()[0].embedding, vec![1]);
}

#[test]
fn wrong_dimension_rejects_the_whole_batch() {
    let mut store = TextStore::new(3);
    assert_eq!(store.insert_batch(&vec![rec("x", &[0, 0, 0])]), Ok(1));
    let batch = vec![rec("a", &[1, 2, 3]), rec("b", &[1, 2])];
    assert_eq!(store.insert_batch(&batch), Err(StoreError::DimensionMismatch));
    assert_eq!(store.len(), 1);
    assert!(!store.contains(&"a".to_string()));
}

#[test]
fn empty_batch_inserts_nothing() {
    let mut store = TextStore::new(3);
    assert_eq!(store.insert_batch(&Vec::new()), Ok(0));
    assert_eq!(store.len(), 0);
}

#[test]
fn dimensions_are_checked_per_record() {
    assert_eq!(check_dimensions(&vec![rec("a", &[1, 2])], 2), Ok(()));
    assert_eq!(
        check_dimensions(&vec![rec("a", &[1, 2]), rec("b", &[])], 2),
        Err(StoreError::DimensionMismatch)
    );
}
