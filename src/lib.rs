use vstd::prelude::*;

pub mod batch;
pub mod config;
pub mod embedding;
pub mod errors;
pub mod fetcher;
pub mod similar;
pub mod store;
pub mod wire;

verus! {

/// Number of components in every stored embedding vector.
pub const EMBEDDING_DIM: usize = 3072;

} // verus!
