//! The closed error taxonomy of the pipeline.
//!
//! Every fallible operation in this crate reports exactly one of these
//! kinds; callers can match on the kind instead of inspecting messages.

use vstd::prelude::*;

verus! {

/// One error kind per failure class of the pipeline.
///
/// - `DimensionMismatch`: an embedding's length is inconsistent with the
///   store's established dimensionality, or two compared vectors differ
///   in length.
/// - `DegenerateVector`: a zero-norm vector reached the similarity
///   computation, which would make the cosine undefined.
/// - `NetworkError`, `AuthError`, `MalformedResponse`: failures of the
///   embedding or completion provider, propagated unchanged.
/// - `IOError`: failure while acquiring source documents, representable
///   here because the boundary hands data across this type.
#[derive(Clone, Copy, Debug, PartialEq, Eq, Structural)]
pub enum RagError {
    DimensionMismatch,
    DegenerateVector,
    NetworkError,
    AuthError,
    MalformedResponse,
    IOError,
}

} // verus!
