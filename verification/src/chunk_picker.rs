//! Linear picker over a `u64` byte space.

use vstd::prelude::*;

use crate::chunk::Chunk;
use crate::chunker::utils::UsizeInterop;
use crate::chunker::{Chunker, U64Config};

verus! {

/// The chunk size that the loader picks chunks with: 512 KiB.
pub const DEFAULT_CHUNK_SIZE: u64 = 512 * 1024;

/// The linear chunk picker strategy.
///
/// Selects the chunks one by one from the beginning of the range to the end.
pub struct Linear {
    total_size: u64,
    chunk_size: u64,
    position: u64,
}

impl Linear {
    #[verifier::type_invariant]
    closed spec fn inv(self) -> bool {
        &&& self.chunk_size > 0
        &&& self.position <= self.total_size
    }

    /// The total size of the byte space.
    pub closed spec fn spec_total_size(&self) -> u64 {
        self.total_size
    }

    /// The size of a chunk.
    pub closed spec fn spec_chunk_size(&self) -> u64 {
        self.chunk_size
    }

    /// The position of the next chunk's first byte.
    pub closed spec fn spec_position(&self) -> u64 {
        self.position
    }

    /// The position after the chunk that starts at the current position.
    pub open spec fn spec_next_position(&self) -> int {
        if self.spec_position() + self.spec_chunk_size() <= self.spec_total_size() {
            self.spec_position() + self.spec_chunk_size()
        } else {
            self.spec_total_size() as int
        }
    }

    /// Create a new [`Linear`]; the chunk size is non-zero.
    pub fn new(total_size: u64, chunk_size: u64) -> (r: Self)
        requires
            chunk_size > 0,
        ensures
            r.spec_total_size() == total_size,
            r.spec_chunk_size() == chunk_size,
            r.spec_position() == 0,
    {
        Self { total_size, chunk_size, position: 0 }
    }

    /// The next chunk: from the current position to the end of a full chunk, cut at the end of
    /// the byte space; `None` once the whole space has been handed out.
    pub fn next(&mut self) -> (r: Option<Chunk<u64>>)
        ensures
            picked(*old(self), *final(self), r),
    {
        proof {
            use_type_invariant(&*self);
        }
        if self.position >= self.total_size {
            return None;
        }

        // The data left is compared with the chunk size first, so that no position past the
        // data is ever formed.
        let next_position = if self.total_size - self.position <= self.chunk_size {
            self.total_size
        } else {
            self.position + self.chunk_size
        };

        let start = self.position;
        let end = next_position - 1;

        self.position = next_position;

        Some(Chunk { start, end })
    }
}


/// The picker hands out the chunker's chunks: standing at the first byte of the chunker's chunk
/// `k` (over the same total and chunk sizes), the picker has a next chunk exactly when the
/// chunker has chunk `k`, that next chunk ends where chunk `k` ends, and the picker then stands at
/// the first byte of chunk `k + 1`, or at the end of the data when there is no such chunk.
pub proof fn law_agrees_with_chunker(picker: Linear, chunker: Chunker<U64Config>, k: int)
    requires
        picker.spec_chunk_size() > 0,
        chunker.total_size == picker.spec_total_size(),
        chunker.chunk_size == picker.spec_chunk_size(),
        0 <= k,
        picker.spec_position() == chunker.first_byte_at(k),
    ensures
        picker.spec_position() < picker.spec_total_size() <==> chunker.chunk_exists_at(k),
        chunker.chunk_exists_at(k) ==> picker.spec_next_position() - 1 == chunker.last_byte_at(k),
        chunker.chunk_exists_at(k + 1) ==> picker.spec_next_position() == chunker.first_byte_at(
            k + 1,
        ),
        chunker.chunk_exists_at(k) && !chunker.chunk_exists_at(k + 1)
            ==> picker.spec_next_position() == picker.spec_total_size(),
{
    assert(chunker.first_byte_at(k + 1) == chunker.first_byte_at(k) + chunker.chunk_size.as_int())
        by (nonlinear_arith);
}


/// `after` and `r` are the picker and the result after one call of [`Linear::next`] on `before`:
/// the next chunk runs from the current position to the end of a full chunk, cut at the end of
/// the byte space, and there is none once the whole space has been handed out.
pub open spec fn picked(before: Linear, after: Linear, r: Option<Chunk<u64>>) -> bool {
    &&& after.spec_total_size() == before.spec_total_size()
    &&& after.spec_chunk_size() == before.spec_chunk_size()
    &&& match r {
        None => {
            &&& before.spec_position() >= before.spec_total_size()
            &&& after.spec_position() == before.spec_position()
        },
        Some(chunk) => {
            &&& before.spec_position() < before.spec_total_size()
            &&& chunk.start == before.spec_position()
            &&& chunk.end == before.spec_next_position() - 1
            &&& after.spec_position() == before.spec_next_position()
        },
    }
}

proof fn lemma_positions(
    pickers: Seq<Linear>,
    chunks: Seq<Option<Chunk<u64>>>,
    chunker: Chunker<U64Config>,
    n: int,
)
    requires
        pickers.len() == chunks.len() + 1,
        pickers[0].spec_position() == 0,
        pickers[0].spec_chunk_size() > 0,
        chunker.total_size == pickers[0].spec_total_size(),
        chunker.chunk_size == pickers[0].spec_chunk_size(),
        forall|i: int|
            #![trigger chunks[i]]
            0 <= i < chunks.len() ==> picked(pickers[i], pickers[i + 1], chunks[i]),
        0 <= n < pickers.len(),
    ensures
        pickers[n].spec_total_size() == chunker.total_size,
        pickers[n].spec_chunk_size() == chunker.chunk_size,
        pickers[n].spec_position() == if chunker.first_byte_at(n) <= chunker.total_size {
            chunker.first_byte_at(n)
        } else {
            chunker.total_size as int
        },
    decreases n,
{
    if n > 0 {
        lemma_positions(pickers, chunks, chunker, n - 1);
        let c = chunks[n - 1];
        assert(chunker.first_byte_at(n) == chunker.first_byte_at(n - 1) + chunker.chunk_size)
            by (nonlinear_arith);
    }
}

/// A picker made by [`Linear::new`] hands out the chunker's chunks in order: along a run of
/// calls of [`Linear::next`], call number `i` (from zero) gives chunk `i` of the chunker over
/// the same sizes while the chunker has one, and nothing once the data is covered.
pub proof fn law_picks_chunks_in_order(
    pickers: Seq<Linear>,
    chunks: Seq<Option<Chunk<u64>>>,
    chunker: Chunker<U64Config>,
)
    requires
        pickers.len() == chunks.len() + 1,
        pickers[0].spec_position() == 0,
        pickers[0].spec_chunk_size() > 0,
        chunker.total_size == pickers[0].spec_total_size(),
        chunker.chunk_size == pickers[0].spec_chunk_size(),
        forall|i: int|
            #![trigger chunks[i]]
            0 <= i < chunks.len() ==> picked(pickers[i], pickers[i + 1], chunks[i]),
    ensures
        forall|i: int|
            0 <= i < chunks.len() ==> (#[trigger] chunks[i] is None <==> !chunker.chunk_exists_at(i)),
        forall|i: int|
            0 <= i < chunks.len() && #[trigger] chunks[i] is Some ==> {
                &&& chunks[i]->0.start == chunker.first_byte_at(i)
                &&& chunks[i]->0.end == chunker.last_byte_at(i)
            },
{
    assert forall|i: int| 0 <= i < chunks.len() implies {
        &&& (#[trigger] chunks[i] is None <==> !chunker.chunk_exists_at(i))
        &&& chunks[i] is Some ==> {
            &&& chunks[i]->0.start == chunker.first_byte_at(i)
            &&& chunks[i]->0.end == chunker.last_byte_at(i)
        }
    } by {
        lemma_positions(pickers, chunks, chunker, i);
        lemma_positions(pickers, chunks, chunker, i + 1);
        assert(chunker.first_byte_at(i + 1) == chunker.first_byte_at(i) + chunker.chunk_size)
            by (nonlinear_arith);
        assert(chunker.first_byte_at(i) >= 0) by (nonlinear_arith)
            requires
                i >= 0,
                chunker.chunk_size >= 0,
        ;
    }
}

} // verus!
