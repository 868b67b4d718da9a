//! The embedding capability as the library sees it: the request it sends, the credential
//! it carries, and the checks on what comes back.
//!
//! A vector component is held as the bit pattern of its `f32` value.
use vstd::prelude::*;
use crate::batch::texts_of;
use crate::store::{rows_of, TextRecord};

verus! {

/// The model that both ingestion and queries embed with.
pub const EMBEDDING_MODEL: &'static str = "text-embedding-3-large";

/// Why an embedding call gave no vectors.
#[derive(PartialEq, Eq, Structural, Debug, Clone, Copy)]
pub enum EmbeddingError {
    /// No credential was found; nothing was sent.
    MissingCredential,
    /// The service could not be reached, or answered with a non-success status.
    UpstreamUnavailable,
    /// The answer holds the wrong number of vectors, or a vector of the wrong length.
    MalformedResponse,
}

/// What is sent to the embedding service.
pub struct EmbeddingRequest {
    pub model: String,
    pub texts: Vec<String>,
}

/// A request to embed `texts`, in order, with the library's model.
pub fn embedding_request(texts: Vec<String>) -> (r: EmbeddingRequest)
    ensures
        r.model@ == EMBEDDING_MODEL@,
        r.texts@ == texts@,
{
    EmbeddingRequest { model: String::from_str(EMBEDDING_MODEL), texts }
}

/// The bearer credential, from the value the environment holds for it. An absent or
/// empty value is a missing credential.
pub fn resolve_credential(value: Option<String>) -> (r: Result<String, EmbeddingError>)
    ensures
        match value {
            Some(v) if v@.len() > 0 => r == Ok::<String, EmbeddingError>(v),
            _ => r == Err::<String, EmbeddingError>(EmbeddingError::MissingCredential),
        },
{
    match value {
        Some(v) => {
            if v.as_str().unicode_len() > 0 {
                Ok(v)
            } else {
                Err(EmbeddingError::MissingCredential)
            }
        },
        None => Err(EmbeddingError::MissingCredential),
    }
}

/// Whether an HTTP status is a success (2xx).
pub open spec fn is_success(status: u16) -> bool {
    200 <= status <= 299
}

/// The outcome of the embedding call's HTTP status: any non-success status fails it.
pub fn check_status(status: u16) -> (r: Result<(), EmbeddingError>)
    ensures
        r is Ok <==> is_success(status),
        r is Err ==> r == Err::<(), EmbeddingError>(EmbeddingError::UpstreamUnavailable),
{
    if 200 <= status && status <= 299 {
        Ok(())
    } else {
        Err(EmbeddingError::UpstreamUnavailable)
    }
}

/// Whether an answer is well formed: one vector per text, each of `dim` components.
pub open spec fn well_formed(n_texts: nat, vectors: Seq<Vec<u32>>, dim: nat) -> bool {
    &&& vectors.len() == n_texts
    &&& forall|i: int| 0 <= i < vectors.len() ==> (#[trigger] vectors[i])@.len() == dim
}

/// Accepts the vectors of an answer to a request for `n_texts` texts when it is well
/// formed, and rejects it as malformed otherwise.
pub fn check_vectors(n_texts: usize, vectors: Vec<Vec<u32>>, dim: usize) -> (r: Result<
    Vec<Vec<u32>>,
    EmbeddingError,
>)
    ensures
        well_formed(n_texts as nat, vectors@, dim as nat) ==> r == Ok::<
            Vec<Vec<u32>>,
            EmbeddingError,
        >(vectors),
        !well_formed(n_texts as nat, vectors@, dim as nat) ==> r == Err::<
            Vec<Vec<u32>>,
            EmbeddingError,
        >(EmbeddingError::MalformedResponse),
{
    if vectors.len() != n_texts {
        return Err(EmbeddingError::MalformedResponse);
    }
    let mut i: usize = 0;
    while i < vectors.len()
        invariant
            i <= vectors@.len(),
            forall|j: int| 0 <= j < i ==> (#[trigger] vectors@[j])@.len() == dim,
        decreases vectors@.len() - i,
    {
        if vectors[i].len() != dim {
            return Err(EmbeddingError::MalformedResponse);
        }
        i = i + 1;
    }
    Ok(vectors)
}

/// Pairs each text with the vector at the same position.
pub fn pair_records(texts: Vec<String>, vectors: Vec<Vec<u32>>) -> (r: Vec<TextRecord>)
    requires
        texts@.len() == vectors@.len(),
    ensures
        r@.len() == texts@.len(),
        forall|i: int|
            0 <= i < r@.len() ==> #[trigger] rows_of(r@)[i] == (texts@[i]@, vectors@[i]@),
{
    let mut r: Vec<TextRecord> = Vec::new();
    let mut i: usize = 0;
    while i < texts.len()
        invariant
            texts@.len() == vectors@.len(),
            i <= texts@.len(),
            r@.len() == i,
            forall|j: int|
                0 <= j < i ==> #[trigger] rows_of(r@)[j] == (texts@[j]@, vectors@[j]@),
        decreases texts@.len() - i,
    {
        let text = texts[i].clone();
        let embedding = vectors[i].clone();
        assert(embedding@ =~= vectors@[i as int]@);
        assert(text@ == texts@[i as int]@);
        let ghost prev = r@;
        r.push(TextRecord { text, embedding });
        assert forall|j: int| 0 <= j <= i implies #[trigger] rows_of(r@)[j] == (
            texts@[j]@,
            vectors@[j]@,
        ) by {
            if j < i {
                assert(r@[j] == prev[j]);
                assert(rows_of(prev)[j] == (texts@[j]@, vectors@[j]@));
            }
        }
        i = i + 1;
    }
    r
}

} // verus!
