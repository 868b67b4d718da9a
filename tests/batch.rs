use retreive::batch::{batch_all, Batch, BatchAccumulator};

fn docs(n: usize) -> Vec<String> {
    (0..n).map(|i| format!("doc {}", i)).collect()
}

fn sizes(batches: &[Batch]) -> Vec<usize> {
    batches.iter().map(|b| b.texts.len()).collect()
}

#[test]
fn hundred_docs_in_twenties_make_five_full_batches() {
    let d = docs(100);
    let mut acc = BatchAccumulator::new(20);
    let mut flushed = Vec::new();
    for t in d.iter() {
        if let Some(b) = acc.append_and_maybe_flush(t.clone()) {
            flushed.push(b);
        }
    }
    assert_eq!(sizes(&flushed), vec![20, 20, 20, 20, 20]);
    assert!(acc.drain().is_none());
}

#[test]
fn ninety_five_docs_leave_a_drained_remainder() {
    let d = docs(95);
    let mut acc = BatchAccumulator::new(20);
    let mut flushed = Vec::new();
    for t in d.iter() {
        if let Some(b) = acc.append_and_maybe_flush(t.clone()) {
            flushed.push(b);
        }
    }
    assert_eq!(sizes(&flushed), vec![20, 20, 20, 20]);
    let last = acc.drain().expect("remainder");
    assert_eq!(last.texts.len(), 15);
    assert_eq!(last.number, 5);
    assert_eq!(last.texts[0], "doc 80");
    assert!(acc.drain().is_none());
}

#[test]
fn no_docs_make_no_batches() {
    let mut acc = BatchAccumulator::new(20);
    assert!(acc.drain().is_none());
    assert!(batch_all(&Vec::new(), 20).is_empty());
}

#[test]
fn batch_all_emits_ceiling_many_batches_covering_every_doc_once() {
    let d = docs(95);
    let batches = batch_all(&d, 20);
    assert_eq!(batches.len(), 5);
    assert_eq!(sizes(&batches), vec![20, 20, 20, 20, 15]);
    let numbers: Vec<usize> = batches.iter().map(|b| b.number).collect();
    assert_eq!(numbers, vec![1, 2, 3, 4, 5]);
    let joined: Vec<String> = batches.into_iter().flat_map(|b| b.texts).collect();
    assert_eq!(joined, d);
}

#[test]
fn batch_all_on_an_exact_multiple() {
    let batches = batch_all(&docs(100), 20);
    assert_eq!(sizes(&batches), vec![20, 20, 20, 20, 20]);
}

#[test]
fn batch_of_one_flushes_every_doc() {
    let mut acc = BatchAccumulator::new(1);
    let b = acc.append_and_maybe_flush("a".to_string()).expect("flush");
    assert_eq!(b.number, 1);
    assert_eq!(b.texts, vec!["a".to_string()]);
    let b = acc.append_and_maybe_flush("b".to_string()).expect("flush");
    assert_eq!(b.number, 2);
}
