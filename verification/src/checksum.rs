//! The known per-chunk hashes of the data.

use vstd::prelude::*;

use crate::chunker::ChunkIndex;

verus! {

/// The chunk hashes, by chunk index.
#[derive(Debug, PartialEq, Eq)]
pub struct ChunkHashes<const LEN: usize>(pub Vec<ChunkHash<LEN>>);

/// The hash of a single chunk.
#[derive(Debug, PartialEq, Eq)]
pub struct ChunkHash<const LEN: usize>(pub [u8; LEN]);

impl<const LEN: usize> ChunkHashes<LEN> {
    /// Get the chunk hash from the manifest.
    pub fn get(&self, index: ChunkIndex) -> (r: Option<&[u8; LEN]>)
        requires
            index <= usize::MAX,
        ensures
            r is Some <==> index < self.0@.len(),
            r matches Some(hash) ==> *hash == self.0@[index as int].0,
    {
        let index: usize = index.try_into().unwrap();
        let val = self.0.get(index)?;
        Some(&val.0)
    }
}

} // verus!
