//! The JSON the fetch run reads and writes: the text of a fetched article, and the body
//! of a batch sent for ingestion.
use vstd::prelude::*;
use crate::batch::texts_of;

verus! {

/// Why a fetch gave no document.
#[derive(PartialEq, Eq, Structural, Debug, Clone, Copy)]
pub enum FetchError {
    /// The source could not be reached, or its answer holds no text.
    FetchFailed,
}

/// The string member "extract" of the JSON value that `body` holds, as serde_json reads
/// it; none when `body` is not JSON or the member is missing or not a string.
pub uninterp spec fn json_extract(body: Seq<char>) -> Option<Seq<char>>;

/// The JSON array of the given strings, in order, as serde_json writes it.
pub uninterp spec fn json_string_array(texts: Seq<Seq<char>>) -> Seq<char>;

/// Relies on serde_json::from_str, indexing a serde_json::Value by a key and
/// Value::as_str: the "extract" member of the parsed body when it is a string.
#[verifier::external_body]
fn read_extract(body: &str) -> (r: Option<String>)
    ensures
        match r {
            Some(t) => json_extract(body@) == Some(t@),
            None => json_extract(body@) is None,
        },
{
    match serde_json::from_str::<serde_json::Value>(body) {
        Ok(v) => v["extract"].as_str().map(|e| e.to_string()),
        Err(_) => None,
    }
}

/// Relies on serde_json::to_string on a vector of strings, which cannot fail for it: the
/// JSON array of the strings.
#[verifier::external_body]
fn encode_strings(texts: &Vec<String>) -> (r: String)
    ensures
        r@ == json_string_array(texts_of(texts@)),
{
    serde_json::to_string(texts).unwrap_or_default()
}

/// The document a fetch yields from the extract found in the answer: an absent or empty
/// extract fails the fetch.
pub fn article_from_extract(extract: Option<String>) -> (r: Result<String, FetchError>)
    ensures
        match extract {
            Some(t) if t@.len() > 0 => r == Ok::<String, FetchError>(t),
            _ => r == Err::<String, FetchError>(FetchError::FetchFailed),
        },
{
    match extract {
        Some(t) => {
            if t.as_str().unicode_len() > 0 {
                Ok(t)
            } else {
                Err(FetchError::FetchFailed)
            }
        },
        None => Err(FetchError::FetchFailed),
    }
}

/// The document in a fetched answer `body`: its non-empty "extract" text.
pub fn article_text(body: &str) -> (r: Result<String, FetchError>)
    ensures
        match json_extract(body@) {
            Some(t) if t.len() > 0 => r is Ok && r->Ok_0@ == t,
            _ => r == Err::<String, FetchError>(FetchError::FetchFailed),
        },
{
    let extract = read_extract(body);
    article_from_extract(extract)
}

/// The body that delivers a batch for ingestion: `{"texts":[...]}`.
pub fn batch_body(texts: &Vec<String>) -> (r: String)
    ensures
        r@ == "{\"texts\":"@ + json_string_array(texts_of(texts@)) + "}"@,
{
    let array = encode_strings(texts);
    let body = String::from_str("{\"texts\":");
    let body = body.concat(array.as_str());
    body.concat("}")
}

} // verus!
