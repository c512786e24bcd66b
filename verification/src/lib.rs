//! A minimal retrieval-augmented generation core: an in-memory vector
//! store with an exact, similarity-ranked top-k query, and the
//! orchestration that sequences embedding, ranking, context assembly
//! and completion.
//!
//! Embeddings are fixed-point integer vectors, so every dot product,
//! norm and similarity comparison is computed exactly and proved
//! overflow-free; the ranking a query returns is pinned, element by
//! element, to a deterministic specification. The embedding and
//! completion providers are opaque collaborators behind traits; a
//! network-backed driver sits outside this crate.

pub mod embedding;
pub mod errors;
pub mod orchestrator;
pub mod similarity;
pub mod store;
