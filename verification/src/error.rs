//! The errors of erasure coding.

use vstd::prelude::*;

verus! {

/// Errors in erasure coding.
#[derive(Debug, Clone, PartialEq, Eq)]
pub enum Error {
    /// Returned when there are too many validators.
    TooManyValidators,
    /// Cannot encode something for no validators.
    EmptyValidators,
    /// Cannot reconstruct: wrong number of validators.
    WrongValidatorCount,
    /// Not enough chunks present.
    NotEnoughChunks,
    /// Too many chunks present.
    TooManyChunks,
    /// Chunks not of uniform length or the chunks are empty.
    NonUniformChunks,
    /// Chunk index out of bounds: the index, then the number of validators.
    ChunkIndexOutOfBounds(usize, usize),
    /// Bad payload in reconstructed bytes.
    BadPayload,
}

} // verus!
