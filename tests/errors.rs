use actix_web::http::StatusCode;
use retreive::embedding::EmbeddingError;
use retreive::errors::ApiError;
use retreive::store::StoreError;

#[test]
fn test_error_display() {
    let bad_request = ApiError::Database(sqlx::Error::RowNotFound.to_string());
    let internal_error = ApiError::InvalidInput("Wrong input".to_string());
    let config_error = ApiError::ConfigError("Missing environment variable".to_string());
    let unauthorized = ApiError::Unauthorized("Unauthorized".to_string());

    assert_eq!(
        bad_request.message(),
        "Database error: no rows returned by a query that expected to return at least one row"
    );
    assert_eq!(internal_error.message(), "Invalid input: Wrong input");
    assert_eq!(config_error.message(), "Config error: Missing environment variable");
    assert_eq!(unauthorized.message(), "Unauthorized: Unauthorized");
}

#[test]
fn test_status_codes() {
    assert_eq!(
        ApiError::Database(sqlx::Error::RowNotFound.to_string()).status_code(),
        StatusCode::INTERNAL_SERVER_ERROR.as_u16()
    );
    assert_eq!(
        ApiError::InvalidInput("Wrong input".to_string()).status_code(),
        StatusCode::BAD_REQUEST.as_u16()
    );
    assert_eq!(
        ApiError::ConfigError("Missing environment variable".to_string()).status_code(),
        StatusCode::INTERNAL_SERVER_ERROR.as_u16()
    );
    assert_eq!(
        ApiError::Unauthorized("Unauthorized".to_string()).status_code(),
        StatusCode::UNAUTHORIZED.as_u16()
    );
}

#[test]
fn error_response_carries_message() {
    let e = ApiError::InvalidInput("bad".to_string());
    assert_eq!(e.error_response().message, "Invalid input: bad");
}

#[test]
fn embedding_errors_map_without_detail() {
    let e = ApiError::from_embedding(EmbeddingError::MissingCredential);
    assert_eq!(e.message(), "Config error: missing embedding credential");
    assert_eq!(e.status_code(), 500);
    let e = ApiError::from_embedding(EmbeddingError::UpstreamUnavailable);
    assert_eq!(e.message(), "Invalid input: embedding service unavailable");
    assert_eq!(e.status_code(), 400);
    let e = ApiError::from_embedding(EmbeddingError::MalformedResponse);
    assert_eq!(e.message(), "Invalid input: malformed embedding response");
}

#[test]
fn store_errors_map_without_detail() {
    let e = ApiError::from_store(StoreError::StoreUnavailable);
    assert_eq!(e.message(), "Database error: store unavailable");
    assert_eq!(e.status_code(), 500);
    let e = ApiError::from_store(StoreError::DimensionMismatch);
    assert_eq!(e.message(), "Invalid input: embedding dimension mismatch");
    assert_eq!(e.status_code(), 400);
}
