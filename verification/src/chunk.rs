//! A chunk of data given by its first and last positions.

use vstd::prelude::*;

verus! {

/// A chunk of data sized by `T`.
#[derive(Debug, PartialEq, Eq)]
pub struct Chunk<T> {
    /// Start of the chunk.
    pub start: T,
    /// End of the chunk.
    pub end: T,
}

impl<T> Chunk<T> {
    /// Consume the chunk and return the start and the end positions.
    pub fn into_inner(self) -> (r: (T, T))
        ensures
            r == (self.start, self.end),
    {
        (self.start, self.end)
    }
}

} // verus!
