//! Resume logic.
//!
//! A resumed load can skip the chunks that are already complete: a [`Check`] tells whether a
//! chunk is complete, and a [`Preserve`] keeps the per-chunk state that such checks rely on.

use vstd::prelude::*;

use crate::chunker::ChunkIndex;

verus! {

/// Resume state check.
///
/// If the chunk is complete the whole procedure of loading it can be skipped.
///
/// Typically, the implementation will query its internal state for a given chunk, and compare
/// it with the desired state.
pub trait Check {
    /// The check error.
    type Error;

    /// Check whether the chunk with the given index is complete.
    fn is_chunk_complete(&self, chunk_index: usize) -> Result<bool, Self::Error>;
}

/// Preserve the state for the resume checks.
pub trait Preserve {
    /// An error that can occur while preserving the resume state.
    type Error;

    /// The state (per chunk) to preserve.
    type State;

    /// Preserve the state for the given chunk.
    fn preserve(&mut self, chunk_index: ChunkIndex, state: Self::State) -> Result<(), Self::Error>;
}

} // verus!
