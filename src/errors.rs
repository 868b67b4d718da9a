//! Failures as the service reports them: a kind, a detail message and a status code.
use vstd::prelude::*;
use crate::embedding::EmbeddingError;
use crate::store::StoreError;

verus! {

/// The body of an error response.
pub struct ErrorResponse {
    /// The error message.
    pub message: String,
}

/// A failure as the service reports it, with a detail message.
pub enum ApiError {
    Database(String),
    InvalidInput(String),
    ConfigError(String),
    Unauthorized(String),
}

impl ApiError {
    /// The words that open the message of each kind.
    pub open spec fn spec_prefix(&self) -> Seq<char> {
        match self {
            ApiError::Database(_) => "Database error: "@,
            ApiError::InvalidInput(_) => "Invalid input: "@,
            ApiError::ConfigError(_) => "Config error: "@,
            ApiError::Unauthorized(_) => "Unauthorized: "@,
        }
    }

    pub open spec fn spec_detail(&self) -> Seq<char> {
        match self {
            ApiError::Database(e) => e@,
            ApiError::InvalidInput(e) => e@,
            ApiError::ConfigError(e) => e@,
            ApiError::Unauthorized(e) => e@,
        }
    }

    pub open spec fn spec_status_code(&self) -> u16 {
        match self {
            ApiError::Database(_) => 500,
            ApiError::InvalidInput(_) => 400,
            ApiError::ConfigError(_) => 500,
            ApiError::Unauthorized(_) => 401,
        }
    }

    /// The message shown to a user: the kind, then the detail.
    pub fn message(&self) -> (r: String)
        ensures
            r@ == self.spec_prefix() + self.spec_detail(),
    {
        let (prefix, detail) = match self {
            ApiError::Database(e) => ("Database error: ", e),
            ApiError::InvalidInput(e) => ("Invalid input: ", e),
            ApiError::ConfigError(e) => ("Config error: ", e),
            ApiError::Unauthorized(e) => ("Unauthorized: ", e),
        };
        let r = String::from_str(prefix);
        r.concat(detail.as_str())
    }

    /// The HTTP status code the error is answered with.
    pub fn status_code(&self) -> (r: u16)
        ensures
            r == self.spec_status_code(),
    {
        match self {
            ApiError::Database(_) => 500,
            ApiError::InvalidInput(_) => 400,
            ApiError::ConfigError(_) => 500,
            ApiError::Unauthorized(_) => 401,
        }
    }

    /// The body of the response for this error.
    pub fn error_response(&self) -> (r: ErrorResponse)
        ensures
            r.message@ == self.spec_prefix() + self.spec_detail(),
    {
        ErrorResponse { message: self.message() }
    }

    /// The error a failed embedding call is reported as. No vector data is included.
    pub fn from_embedding(e: EmbeddingError) -> (r: ApiError)
        ensures
            match e {
                EmbeddingError::MissingCredential => r is ConfigError && r.spec_detail()
                    == "missing embedding credential"@,
                EmbeddingError::UpstreamUnavailable => r is InvalidInput && r.spec_detail()
                    == "embedding service unavailable"@,
                EmbeddingError::MalformedResponse => r is InvalidInput && r.spec_detail()
                    == "malformed embedding response"@,
            },
    {
        match e {
            EmbeddingError::MissingCredential => ApiError::ConfigError(
                String::from_str("missing embedding credential"),
            ),
            EmbeddingError::UpstreamUnavailable => ApiError::InvalidInput(
                String::from_str("embedding service unavailable"),
            ),
            EmbeddingError::MalformedResponse => ApiError::InvalidInput(
                String::from_str("malformed embedding response"),
            ),
        }
    }

    /// The error a failed bulk insert is reported as. No vector data is included.
    pub fn from_store(e: StoreError) -> (r: ApiError)
        ensures
            match e {
                StoreError::StoreUnavailable => r is Database && r.spec_detail()
                    == "store unavailable"@,
                StoreError::DimensionMismatch => r is InvalidInput && r.spec_detail()
                    == "embedding dimension mismatch"@,
            },
    {
        match e {
            StoreError::StoreUnavailable => ApiError::Database(String::from_str("store unavailable")),
            StoreError::DimensionMismatch => ApiError::InvalidInput(
                String::from_str("embedding dimension mismatch"),
            ),
        }
    }
}

} // verus!
