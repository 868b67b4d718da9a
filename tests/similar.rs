use retreive::similar::{nearest_indices, top_k_texts};

fn texts(v: &[&str]) -> Vec<String> {
    v.iter().map(|s| s.to_string()).collect()
}

fn key(d: f32) -> u64 {
    d.to_bits() as u64
}

#[test]
fn two_nearest_of_three_come_nearest_first() {
    let t = texts(&["far", "near", "middle"]);
    let d = vec![key(0.9), key(0.1), key(0.4)];
    assert_eq!(top_k_texts(&t, &d, 2), texts(&["near", "middle"]));
}

#[test]
fn fewer_records_than_asked_gives_all_in_order() {
    let t = texts(&["b", "a"]);
    let d = vec![key(0.5), key(0.25)];
    assert_eq!(top_k_texts(&t, &d, 10), texts(&["a", "b"]));
}

#[test]
fn equal_distances_keep_store_order() {
    let d = vec![7, 3, 7, 3];
    assert_eq!(nearest_indices(&d, 4), vec![1, 3, 0, 2]);
}

#[test]
fn empty_store_gives_nothing() {
    assert!(top_k_texts(&Vec::new(), &Vec::new(), 3).is_empty());
}
