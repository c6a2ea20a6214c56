//! Utility traits.

use vstd::prelude::*;
use vstd::std_specs::cmp::{PartialOrdIs, PartialOrdSpec};

use super::utils::UsizeInterop;

verus! {

/// Check that the value is bound by a certain bound.
/// `Bound` can be a different type than `Self`.
pub trait BoundedBy<Bound>: Sized + PartialOrd<Bound> {
    /// Is the `self` value within the `bound`?
    fn is_within_bound(&self, bound: &Bound) -> (r: bool)
        ensures
            Self::obeys_partial_cmp_spec() ==> r == self.is_le(bound),
    ;

    /// Return the `self` if within the `bound`, or `None` if outside.
    fn bounded(self, bound: &Bound) -> (r: Option<Self>)
        ensures
            r matches Some(v) ==> v == self,
            Self::obeys_partial_cmp_spec() ==> (r is Some <==> self.is_le(
                bound,
            )),
    ;
}

impl<T: PartialOrd<Bound>, Bound> BoundedBy<Bound> for T {
    fn is_within_bound(&self, bound: &Bound) -> (r: bool) {
        self <= bound
    }

    fn bounded(self, bound: &Bound) -> (r: Option<Self>) {
        if self.is_within_bound(bound) {
            return Some(self);
        }
        None
    }
}

/// Compute the last valid offset of the data, meaning the offset to
/// the very last byte of the data.
/// Assumed to be implemented for a type representing the data total size.
pub trait LastValidOffset<Offset: UsizeInterop>: UsizeInterop {
    /// The offset to the last byte in the data of the `self` size.
    fn last_valid_offset(&self) -> (r: Option<Offset>)
        ensures
            r is None <==> self.as_int() == 0,
            r matches Some(offset) ==> offset.as_int() == self.as_int() - 1,
    ;
}

impl LastValidOffset<u64> for u64 {
    fn last_valid_offset(&self) -> (r: Option<u64>) {
        let one: u64 = 1;
        let total_size_minus_one = self.checked_sub(one)?;
        Some(total_size_minus_one)
    }
}

impl LastValidOffset<usize> for usize {
    fn last_valid_offset(&self) -> (r: Option<usize>) {
        let one: usize = 1;
        let total_size_minus_one = self.checked_sub(one)?;
        Some(total_size_minus_one)
    }
}

/// Compute an offset in the data from the chunk index value (`self`) and a (non-zero) chunk size.
/// Assumed to be implemented on the type representing a chunk index.
pub trait OffsetFromChunkSize<ChunkSize: UsizeInterop, Offset: UsizeInterop>: UsizeInterop {
    /// Compute the offset of this chunk index with a given chunk size.
    fn offset_from_chunk_size(self, chunk_size: ChunkSize) -> (r: Offset)
        requires
            chunk_size.as_int() > 0,
            self.as_int() * chunk_size.as_int() <= Offset::max_int(),
        ensures
            r.as_int() == self.as_int() * chunk_size.as_int(),
    ;
}

impl OffsetFromChunkSize<u64, u64> for u64 {
    fn offset_from_chunk_size(self, chunk_size: u64) -> (r: u64) {
        self * chunk_size
    }
}

impl OffsetFromChunkSize<usize, usize> for usize {
    fn offset_from_chunk_size(self, chunk_size: usize) -> (r: usize) {
        self * chunk_size
    }
}

/// Given the offet to the first byte of the chunk and the (non-zero) chunk size,
/// compute the offset to the last byte in the chunk.
/// Assumed to be implemented on the type represeting an offset in the data.
pub trait FirstToLastByteOfChunk<ChunkSize: UsizeInterop>: UsizeInterop {
    /// Given an offset to the first byte of the chunk (`self`) and a chunk size,
    /// compute an offset to the last byte of the chunk.
    fn first_to_last_byte_of_chunk(self, chunk_size: ChunkSize) -> (r: Self)
        requires
            chunk_size.as_int() > 0,
            self.as_int() + chunk_size.as_int() - 1 <= Self::max_int(),
        ensures
            r.as_int() == self.as_int() + chunk_size.as_int() - 1,
    ;
}

impl FirstToLastByteOfChunk<u64> for u64 {
    fn first_to_last_byte_of_chunk(self, chunk_size: u64) -> (r: u64) {
        let one: u64 = 1;
        self + (chunk_size - one)
    }
}

impl FirstToLastByteOfChunk<usize> for usize {
    fn first_to_last_byte_of_chunk(self, chunk_size: usize) -> (r: usize) {
        let one: usize = 1;
        self + (chunk_size - one)
    }
}

} // verus!
