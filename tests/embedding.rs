use retreive::embedding::{
    check_status, check_vectors, embedding_request, pair_records, resolve_credential,
    EmbeddingError, EMBEDDING_MODEL,
};
use retreive::EMBEDDING_DIM;

#[test]
fn request_uses_the_library_model() {
    let r = embedding_request(vec!["a".to_string()]);
    assert_eq!(r.model, "text-embedding-3-large");
    assert_eq!(r.model, EMBEDDING_MODEL);
    assert_eq!(r.texts, vec!["a".to_string()]);
}

#[test]
fn missing_credential_is_reported() {
    assert_eq!(resolve_credential(None), Err(EmbeddingError::MissingCredential));
    assert_eq!(resolve_credential(Some(String::new())), Err(EmbeddingError::MissingCredential));
    assert_eq!(resolve_credential(Some("k".to_string())), Ok("k".to_string()));
}

#[test]
fn non_success_status_is_upstream_failure() {
    assert_eq!(check_status(200), Ok(()));
    assert_eq!(check_status(299), Ok(()));
    assert_eq!(check_status(199), Err(EmbeddingError::UpstreamUnavailable));
    assert_eq!(check_status(404), Err(EmbeddingError::UpstreamUnavailable));
    assert_eq!(check_status(503), Err(EmbeddingError::UpstreamUnavailable));
}

#[test]
fn vectors_are_checked_for_count_and_dimension() {
    let good = vec![vec![0u32; EMBEDDING_DIM], vec![1u32; EMBEDDING_DIM]];
    assert_eq!(check_vectors(2, good.clone(), EMBEDDING_DIM), Ok(good));
    assert_eq!(
        check_vectors(3, vec![vec![0u32; 2]; 2], 2),
        Err(EmbeddingError::MalformedResponse)
    );
    assert_eq!(
        check_vectors(2, vec![vec![0u32; 2], vec![0u32; 3]], 2),
        Err(EmbeddingError::MalformedResponse)
    );
}

#[test]
fn records_pair_texts_with_vectors_by_position() {
    let r = pair_records(vec!["a".to_string(), "b".to_string()], vec![vec![1], vec![2]]);
    assert_eq!(r.len(), 2);
    assert_eq!(r[1].text, "b");
    assert_eq!(r[1].embedding, vec![2]);
}
