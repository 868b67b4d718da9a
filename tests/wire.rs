use retreive::wire::{article_from_extract, article_text, batch_body, FetchError};

#[test]
fn extract_is_the_document() {
    let body = r#"{"title":"T","extract":"Some text."}"#;
    assert_eq!(article_text(body), Ok("Some text.".to_string()));
}

#[test]
fn missing_extract_fails_the_fetch() {
    assert_eq!(article_text(r#"{"title":"T"}"#), Err(FetchError::FetchFailed));
    assert_eq!(article_text(r#"{"extract":3}"#), Err(FetchError::FetchFailed));
    assert_eq!(article_text("not json"), Err(FetchError::FetchFailed));
}

#[test]
fn empty_extract_fails_the_fetch() {
    assert_eq!(article_text(r#"{"extract":""}"#), Err(FetchError::FetchFailed));
    assert_eq!(article_from_extract(None), Err(FetchError::FetchFailed));
    assert_eq!(article_from_extract(Some("x".to_string())), Ok("x".to_string()));
}

#[test]
fn batch_body_wraps_the_texts() {
    let texts = vec!["a".to_string(), "b \"q\"".to_string()];
    assert_eq!(batch_body(&texts), r#"{"texts":["a","b \"q\""]}"#);
    assert_eq!(batch_body(&Vec::new()), r#"{"texts":[]}"#);
}
