//! A notion of chunks: splitting a linear byte space into equally-sized chunks.

pub mod traits;
pub mod utils;

use std::fmt::Debug;
use vstd::prelude::*;

use self::utils::{from_usize, UsizeInterop};

verus! {

/// An offset in the byte space.
pub type Offset = u64;

/// A size in the byte space.
pub type Size = u64;

/// The total size of the byte space.
pub type TotalSize = u64;

/// The index of a chunk.
pub type ChunkIndex = u64;

/// A chunker config.
pub trait Config {
    /// The type used as a metric in the chunks space.
    /// Used for chunk indexes and lengthes.
    type ChunkSpaceUnit: Debug + Copy + UsizeInterop;
    /// The type used as a metric in the byte space.
    /// Used for sizes and offsets.
    type ByteSpaceUnit: Debug + Copy + UsizeInterop;
}

/// The configuration with `u64` chunk indexes, offsets and sizes.
#[derive(Debug)]
pub struct U64Config;

impl Config for U64Config {
    type ChunkSpaceUnit = ChunkIndex;
    type ByteSpaceUnit = Offset;
}

/// The chunker can split an abstract linear bytes space into equally-sized
/// (except for the last one) chunks.
#[derive(Debug)]
pub struct Chunker<C: Config> {
    /// The total size of the bytes space.
    pub total_size: C::ByteSpaceUnit,
    /// The size of a chunk.
    pub chunk_size: C::ByteSpaceUnit,
}

/// An error when calculating the chunk offset.
#[derive(Debug)]
pub enum ChunkOffsetError<C: Config> {
    /// The data is empty, so no valid offsets exist.
    EmptyData,
    /// The offset has overflowed its type bound.
    OffsetOverflow,
    /// The offset is greater than the last valid offset of the data.
    OutOfDataBounds(C::ByteSpaceUnit),
}

/// The captured chunk information.
///
/// Useful for when you need to compute the offsets just once and cache them.
#[derive(Debug)]
pub struct CapturedChunk<C: Config> {
    /// The index of the chunk.
    pub index: C::ChunkSpaceUnit,
    /// The first byte offset of this chunk.
    pub first_byte_offset: C::ByteSpaceUnit,
    /// The last byte offset of this chunk.
    pub last_byte_offset: C::ByteSpaceUnit,
}

impl<C: Config> Clone for CapturedChunk<C> {
    fn clone(&self) -> (r: Self)
        ensures
            r == *self,
    {
        *self
    }
}

impl<C: Config> Copy for CapturedChunk<C> {
}

impl<C: Config> Chunker<C> {
    /// The offset of the last byte of the data.
    pub open spec fn last_valid(self) -> int {
        self.total_size.as_int() - 1
    }

    /// The offset of the first byte of the chunk with index `k`.
    pub open spec fn first_byte_at(self, k: int) -> int {
        k * self.chunk_size.as_int()
    }

    /// The offset of the last byte of the chunk with index `k`: the last byte of a full
    /// chunk, cut at the end of the data.
    pub open spec fn last_byte_at(self, k: int) -> int {
        let last_of_full_chunk = self.first_byte_at(k) + self.chunk_size.as_int() - 1;
        if last_of_full_chunk <= self.last_valid() {
            last_of_full_chunk
        } else {
            self.last_valid()
        }
    }

    /// The chunk with index `k` starts within the data.
    pub open spec fn chunk_exists_at(self, k: int) -> bool {
        self.total_size.as_int() > 0 && self.first_byte_at(k) <= self.last_valid()
    }

    /// The offset of the first byte of the chunk with the given index.
    pub open spec fn first_byte(self, chunk_index: C::ChunkSpaceUnit) -> int {
        self.first_byte_at(chunk_index.as_int())
    }

    /// The offset of the last byte of the chunk with the given index.
    pub open spec fn last_byte(self, chunk_index: C::ChunkSpaceUnit) -> int {
        self.last_byte_at(chunk_index.as_int())
    }

    /// The chunk with the given index starts within the data.
    pub open spec fn chunk_exists(self, chunk_index: C::ChunkSpaceUnit) -> bool {
        self.chunk_exists_at(chunk_index.as_int())
    }

    /// Each chunk is as large as the chunk size, except the last one, which may be smaller.
    pub proof fn law_chunks_equally_sized(self, k: int)
        requires
            self.chunk_size.as_int() > 0,
            0 <= k,
            self.chunk_exists_at(k),
        ensures
            self.first_byte_at(k) <= self.last_byte_at(k),
            self.last_byte_at(k) - self.first_byte_at(k) + 1 <= self.chunk_size.as_int(),
            self.last_byte_at(k) - self.first_byte_at(k) + 1 == self.chunk_size.as_int()
                || self.last_byte_at(k) == self.last_valid(),
            self.last_byte_at(k) - self.first_byte_at(k) + 1 < self.chunk_size.as_int() ==> !self.chunk_exists_at(k + 1),
    {
        assert(self.first_byte_at(k + 1) == self.first_byte_at(k) + self.chunk_size.as_int()) by (nonlinear_arith);
    }

    /// The chunks that exist are those with the indexes below some bound: a chunk exists when a
    /// later one does.
    pub proof fn law_chunks_exist_from_start(self, k1: int, k2: int)
        requires
            self.chunk_size.as_int() > 0,
            0 <= k1 <= k2,
            self.chunk_exists_at(k2),
        ensures
            self.chunk_exists_at(k1),
    {
        let cs = self.chunk_size.as_int();
        assert(k1 * cs <= k2 * cs) by (nonlinear_arith)
            requires
                0 <= k1 <= k2,
                cs > 0,
        ;
    }

    /// Consecutive chunks are adjacent: the next chunk starts right after the previous one ends.
    pub proof fn law_chunks_adjacent(self, k: int)
        requires
            self.chunk_size.as_int() > 0,
            0 <= k,
            self.chunk_exists_at(k + 1),
        ensures
            self.last_byte_at(k) + 1 == self.first_byte_at(k + 1),
    {
        assert(self.first_byte_at(k + 1) == self.first_byte_at(k) + self.chunk_size.as_int()) by (nonlinear_arith);
    }

    /// Chunks with different indexes do not overlap.
    pub proof fn law_chunks_disjoint(self, k1: int, k2: int)
        requires
            self.chunk_size.as_int() > 0,
            0 <= k1 < k2,
        ensures
            self.last_byte_at(k1) < self.first_byte_at(k2),
    {
        let cs = self.chunk_size.as_int();
        assert((k1 + 1) * cs <= k2 * cs) by (nonlinear_arith)
            requires
                0 <= k1 < k2,
                cs > 0,
        ;
        assert((k1 + 1) * cs == k1 * cs + cs) by (nonlinear_arith);
    }

    /// Every byte of the data lies in the chunk whose index is the byte's offset divided by the
    /// chunk size.
    pub proof fn law_chunks_cover(self, x: int)
        requires
            self.chunk_size.as_int() > 0,
            0 <= x < self.total_size.as_int(),
        ensures
            self.chunk_exists_at(x / self.chunk_size.as_int()),
            self.first_byte_at(x / self.chunk_size.as_int()) <= x <= self.last_byte_at(
                x / self.chunk_size.as_int(),
            ),
    {
        let cs = self.chunk_size.as_int();
        let k = x / cs;
        assert(k * cs <= x < k * cs + cs) by (nonlinear_arith)
            requires
                cs > 0,
                k == x / cs,
                0 <= x,
        ;
    }

    /// The offset arithmetic for the chunk with the given index overflows: a value does not fit
    /// `usize`, the chunk is empty (its last byte would lie before its first), or the offset
    /// reported as out of bounds does not fit the byte space unit.
    pub open spec fn offset_overflows(self, chunk_index: C::ChunkSpaceUnit) -> bool {
        let first = self.first_byte(chunk_index);
        ||| self.total_size.as_int() > usize::MAX
        ||| self.total_size.as_int() > 0 && {
            ||| chunk_index.as_int() > usize::MAX
            ||| self.chunk_size.as_int() > usize::MAX
            ||| first > usize::MAX
            ||| first <= self.last_valid() && self.chunk_size.as_int() == 0
            ||| first > self.last_valid() && first > C::ByteSpaceUnit::max_int()
        }
    }

    /// `r` is the outcome of computing the offsets of the chunk with the given index.
    pub open spec fn offsets_outcome(
        self,
        chunk_index: C::ChunkSpaceUnit,
        r: Result<(C::ByteSpaceUnit, C::ByteSpaceUnit), ChunkOffsetError<C>>,
    ) -> bool {
        match r {
            Ok((first, last)) => {
                &&& !self.offset_overflows(chunk_index)
                &&& self.chunk_exists(chunk_index)
                &&& first.as_int() == self.first_byte(chunk_index)
                &&& last.as_int() == self.last_byte(chunk_index)
            },
            Err(ChunkOffsetError::EmptyData) => {
                &&& !self.offset_overflows(chunk_index)
                &&& self.total_size.as_int() == 0
            },
            Err(ChunkOffsetError::OutOfDataBounds(offset)) => {
                &&& !self.offset_overflows(chunk_index)
                &&& self.total_size.as_int() > 0
                &&& !self.chunk_exists(chunk_index)
                &&& offset.as_int() == self.first_byte(chunk_index)
            },
            Err(ChunkOffsetError::OffsetOverflow) => self.offset_overflows(chunk_index),
        }
    }

    /// Capture and return the chunk with a given index.
    pub fn capture_chunk(&self, chunk_index: C::ChunkSpaceUnit) -> (r: Result<
        CapturedChunk<C>,
        ChunkOffsetError<C>,
    >)
        ensures
            match r {
                Ok(chunk) => chunk.index == chunk_index && self.offsets_outcome(
                    chunk_index,
                    Ok((chunk.first_byte_offset, chunk.last_byte_offset)),
                ),
                Err(e) => self.offsets_outcome(chunk_index, Err(e)),
            },
    {
        let (first_byte_offset, last_byte_offset) = self.chunk_offsets(chunk_index)?;
        Ok(CapturedChunk { index: chunk_index, first_byte_offset, last_byte_offset })
    }

    /// The pair of the first and last byte offsets of the chunk with a given
    /// index.
    pub fn chunk_offsets(&self, chunk_index: C::ChunkSpaceUnit) -> (r: Result<
        (C::ByteSpaceUnit, C::ByteSpaceUnit),
        ChunkOffsetError<C>,
    >)
        ensures
            self.offsets_outcome(chunk_index, r),
    {
        let total_size = self.total_size.try_into_usize().ok_or(ChunkOffsetError::OffsetOverflow)?;
        let last_valid_offset = utils::last_valid_offset(total_size).ok_or(
            ChunkOffsetError::EmptyData,
        )?;

        let index = chunk_index.try_into_usize().ok_or(ChunkOffsetError::OffsetOverflow)?;
        let chunk_size = self.chunk_size.try_into_usize().ok_or(ChunkOffsetError::OffsetOverflow)?;
        let first_byte_offset = index.checked_mul(chunk_size).ok_or(
            ChunkOffsetError::OffsetOverflow,
        )?;
        if !utils::is_within_bound(first_byte_offset, last_valid_offset) {
            let offset = C::ByteSpaceUnit::try_from_usize(first_byte_offset).ok_or(
                ChunkOffsetError::OffsetOverflow,
            )?;
            return Err(ChunkOffsetError::OutOfDataBounds(offset));
        }
        if chunk_size == 0 {
            return Err(ChunkOffsetError::OffsetOverflow);
        }
        // The chunk ends at its last full byte, or at the end of the data; the difference is
        // compared first, so that no offset past the data is ever formed.
        let last_byte_offset = if last_valid_offset - first_byte_offset < chunk_size - 1 {
            last_valid_offset
        } else {
            utils::first_to_last_byte_of_chunk(first_byte_offset, chunk_size)
        };

        proof {
            self.total_size.lemma_as_int(self.total_size);
        }
        Ok((from_usize(first_byte_offset), from_usize(last_byte_offset)))
    }
}


impl<C: Config> Chunker<C> {
    /// A chunk that starts within the data does not overflow when the sizes and the index fit
    /// `usize` and the chunk size is non-zero: its offsets are then computed, and they are the
    /// chunk's first byte, `index * chunk_size`, and its last byte, the end of a full chunk cut at
    /// the end of the data; an index whose chunk does not start within the data gives no offsets.
    pub proof fn law_existing_chunks_have_offsets(
        self,
        chunk_index: C::ChunkSpaceUnit,
        r: Result<(C::ByteSpaceUnit, C::ByteSpaceUnit), ChunkOffsetError<C>>,
    )
        requires
            0 < self.chunk_size.as_int() <= usize::MAX,
            self.total_size.as_int() <= usize::MAX,
            chunk_index.as_int() <= usize::MAX,
            self.offsets_outcome(chunk_index, r),
        ensures
            self.chunk_exists(chunk_index) ==> !self.offset_overflows(chunk_index),
            r is Ok <==> (self.total_size.as_int() > 0 && chunk_index.as_int()
                * self.chunk_size.as_int() < self.total_size.as_int()),
            r matches Ok((first, last)) ==> {
                &&& first.as_int() == chunk_index.as_int() * self.chunk_size.as_int()
                &&& last.as_int() == if chunk_index.as_int() * self.chunk_size.as_int()
                    + self.chunk_size.as_int() <= self.total_size.as_int() {
                    chunk_index.as_int() * self.chunk_size.as_int() + self.chunk_size.as_int() - 1
                } else {
                    self.total_size.as_int() - 1
                }
            },
    {
        chunk_index.lemma_as_int(chunk_index);
        let k = chunk_index.as_int();
        let cs = self.chunk_size.as_int();
        assert(k <= k * cs) by (nonlinear_arith)
            requires
                cs >= 1,
                k >= 0,
        ;
    }
}

} // verus!
