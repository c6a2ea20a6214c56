//! The chunk validation logic.

use std::convert::Infallible;
use vstd::prelude::*;

use crate::checksum::ChunkHashes;
use crate::chunker::ChunkIndex;

verus! {

/// The effect of the chunk validation error.
pub trait ErrorEffect {
    /// Whether the error shows the chunk to be bad (as opposed to the validation procedure
    /// itself having failed).
    spec fn spec_bad_chunk(&self) -> bool;

    /// Whether the chunk is determined to be bad, or the validation procedure itself has failed.
    fn bad_chunk(&self) -> (r: bool)
        ensures
            r == self.spec_bad_chunk(),
    ;
}

/// The chunk is unknown.
#[derive(Debug)]
pub struct UnknownChunkError {
    /// The index of the chunk that we failed to locate.
    pub index: ChunkIndex,
}

/// The checksum computed checksum did not match the expected checksum.
#[derive(Debug)]
pub struct ChecksumError<const HASH_LEN: usize> {
    /// The hash we got from the computation.
    pub computed_hash: [u8; HASH_LEN],
    /// The hash we expected to get from the computation.
    pub expected_hash: [u8; HASH_LEN],
}

impl<const HASH_LEN: usize> ErrorEffect for ChecksumError<HASH_LEN> {
    open spec fn spec_bad_chunk(&self) -> bool {
        true
    }

    fn bad_chunk(&self) -> (r: bool) {
        true
    }
}

impl ErrorEffect for Infallible {
    open spec fn spec_bad_chunk(&self) -> bool {
        false
    }

    fn bad_chunk(&self) -> (r: bool) {
        // The infallible error can never occur, so the chunk is never bad.
        false
    }
}

/// The hard-coded chunk hash size.
pub const CHUNK_HASH_SIZE: usize = 32;

/// A no-op chunk validator.
#[derive(Debug)]
pub struct Noop;

/// The start of the checksum validation of a chunk: the expected hash of the chunk with the
/// given index, or an error when the chunk hashes do not list it.
pub fn expected_hash<const LEN: usize>(chunk_hashes: &ChunkHashes<LEN>, index: ChunkIndex) -> (r:
    Result<[u8; LEN], UnknownChunkError>)
    requires
        index <= usize::MAX,
    ensures
        r is Ok <==> index < chunk_hashes.0@.len(),
        r matches Ok(hash) ==> hash == chunk_hashes.0@[index as int].0,
        r matches Err(e) ==> e.index == index,
{
    match chunk_hashes.get(index) {
        Some(hash) => Ok(*hash),
        None => Err(UnknownChunkError { index }),
    }
}

/// The end of the checksum validation of a chunk: the computed hash must match the expected one.
pub fn check_hash<const LEN: usize>(expected_hash: [u8; LEN], computed_hash: [u8; LEN]) -> (r:
    Result<(), ChecksumError<LEN>>)
    ensures
        r is Ok <==> expected_hash@ == computed_hash@,
        r matches Err(e) ==> e.computed_hash == computed_hash && e.expected_hash == expected_hash,
{
    let mut i: usize = 0;
    while i < LEN
        invariant
            0 <= i <= LEN,
            expected_hash@.len() == LEN,
            computed_hash@.len() == LEN,
            forall|j: int| 0 <= j < i ==> expected_hash@[j] == computed_hash@[j],
        decreases LEN - i,
    {
        if expected_hash[i] != computed_hash[i] {
            return Err(ChecksumError { computed_hash, expected_hash });
        }
        i = i + 1;
    }
    proof {
        assert(expected_hash@ =~= computed_hash@);
    }
    Ok(())
}


/// A checksum mismatch shows the chunk itself to be bad, so its loading is retried.
pub proof fn law_checksum_mismatch_is_bad_chunk<const LEN: usize>(
    error: ChecksumError<LEN>,
    kind: crate::loader::ProcessChunkErrorKind,
)
    requires
        kind == (crate::loader::ProcessChunkErrorKind::ValidationStateUpdate {
            bad_chunk: error.spec_bad_chunk(),
        }),
    ensures
        error.spec_bad_chunk(),
        kind.spec_is_retriable(),
{
}

} // verus!
