//! Linear chunk picker over a [`Chunker`].

use vstd::prelude::*;

use crate::chunker::utils::{from_usize, UsizeInterop};
use crate::chunker::{CapturedChunk, Chunker, Config};

verus! {

/// Adds the ability to an increment that checks for overflow.
pub trait CheckedIncrement: UsizeInterop {
    /// Increment value and return it, or return `None` on overflow.
    fn checked_inc(&self) -> (r: Option<Self>)
        ensures
            r is Some <==> self.as_int() + 1 <= Self::max_int(),
            r matches Some(v) ==> v.as_int() == self.as_int() + 1,
    ;
}

impl CheckedIncrement for u8 {
    fn checked_inc(&self) -> (r: Option<Self>) {
        let one: u8 = 1;
        one.checked_add(*self)
    }
}

impl CheckedIncrement for u16 {
    fn checked_inc(&self) -> (r: Option<Self>) {
        let one: u16 = 1;
        one.checked_add(*self)
    }
}

impl CheckedIncrement for u32 {
    fn checked_inc(&self) -> (r: Option<Self>) {
        let one: u32 = 1;
        one.checked_add(*self)
    }
}

impl CheckedIncrement for u64 {
    fn checked_inc(&self) -> (r: Option<Self>) {
        let one: u64 = 1;
        one.checked_add(*self)
    }
}

impl CheckedIncrement for usize {
    fn checked_inc(&self) -> (r: Option<Self>) {
        let one: usize = 1;
        one.checked_add(*self)
    }
}

/// The linear chunk picker strategy.
///
/// Selects the chunks one by one from the beginning of the range to the end.
#[derive(Debug)]
pub struct Linear<'a, C: Config> {
    /// The chunker to use for generating chunks.
    chunker: &'a Chunker<C>,
    /// The index of the next chunk.
    index: C::ChunkSpaceUnit,
}

impl<'a, C: Config> Linear<'a, C> {
    /// The chunker the chunks come from.
    pub closed spec fn spec_chunker(&self) -> Chunker<C> {
        *self.chunker
    }

    /// The index of the next chunk.
    pub closed spec fn spec_index(&self) -> C::ChunkSpaceUnit {
        self.index
    }

    /// Create a new [`Linear`].
    pub fn new(chunker: &'a Chunker<C>) -> (r: Self)
        ensures
            r.spec_chunker() == *chunker,
            r.spec_index().as_int() == 0,
    {
        proof {
            C::ChunkSpaceUnit::lemma_max_int();
        }
        Self { chunker, index: from_usize(0) }
    }
}

impl<'a, C: Config> Linear<'a, C> where C::ChunkSpaceUnit: CheckedIncrement {
    /// Advancing the index past the next chunk, when there is one, fits the chunk space unit.
    pub open spec fn spec_can_pick_next(&self) -> bool {
        let chunker = self.spec_chunker();
        let index = self.spec_index();
        !chunker.offset_overflows(index) && chunker.chunk_exists(index) ==> index.as_int() + 1
            <= C::ChunkSpaceUnit::max_int()
    }

    /// Whether picking the next chunk stays within the chunk space unit (the requirement of
    /// [`Linear::next`]).
    pub fn can_pick_next(&self) -> (r: bool)
        ensures
            r == self.spec_can_pick_next(),
    {
        match self.chunker.chunk_offsets(self.index) {
            Ok(_) => self.index.checked_inc().is_some(),
            Err(_) => true,
        }
    }

    /// The next chunk, if the chunker has a chunk with the next index; the index then advances.
    pub fn next(&mut self) -> (r: Option<CapturedChunk<C>>)
        requires
            old(self).spec_can_pick_next(),
        ensures
            advanced(*old(self), *final(self), r),
    {
        let chunk = self.chunker.capture_chunk(self.index).ok()?;
        self.index = self.index.checked_inc().unwrap();
        Some(chunk)
    }
}


/// `after` and `r` are the picker and the result after one call of [`Linear::next`] on `before`:
/// the chunk with the current index, when the chunker gives it, and the index then advances.
pub open spec fn advanced<'a, C: Config>(
    before: Linear<'a, C>,
    after: Linear<'a, C>,
    r: Option<CapturedChunk<C>>,
) -> bool {
    &&& after.spec_chunker() == before.spec_chunker()
    &&& match r {
        None => {
            &&& (before.spec_chunker().offset_overflows(before.spec_index())
                || !before.spec_chunker().chunk_exists(before.spec_index()))
            &&& after.spec_index() == before.spec_index()
        },
        Some(chunk) => {
            &&& chunk.index == before.spec_index()
            &&& before.spec_chunker().offsets_outcome(
                before.spec_index(),
                Ok((chunk.first_byte_offset, chunk.last_byte_offset)),
            )
            &&& after.spec_index().as_int() == before.spec_index().as_int() + 1
        },
    }
}

proof fn lemma_indexes<'a, C: Config>(
    pickers: Seq<Linear<'a, C>>,
    chunks: Seq<Option<CapturedChunk<C>>>,
    n: int,
)
    requires
        pickers.len() == chunks.len() + 1,
        pickers[0].spec_index().as_int() == 0,
        forall|i: int|
            #![trigger chunks[i]]
            0 <= i < chunks.len() ==> advanced(pickers[i], pickers[i + 1], chunks[i]),
        forall|i: int| #![trigger chunks[i]] 0 <= i < chunks.len() ==> chunks[i] is Some,
        0 <= n < pickers.len(),
    ensures
        pickers[n].spec_index().as_int() == n,
        pickers[n].spec_chunker() == pickers[0].spec_chunker(),
    decreases n,
{
    if n > 0 {
        lemma_indexes(pickers, chunks, n - 1);
        let c = chunks[n - 1];
    }
}

/// A picker made by [`Linear::new`] hands out the chunks in index order: along a run of calls
/// of [`Linear::next`] that give chunks, call number `i` (from zero) gives the chunk with index
/// `i`, with the chunker's offsets of that chunk.
pub proof fn law_picks_indexes_in_order<'a, C: Config>(
    pickers: Seq<Linear<'a, C>>,
    chunks: Seq<Option<CapturedChunk<C>>>,
)
    requires
        pickers.len() == chunks.len() + 1,
        pickers[0].spec_index().as_int() == 0,
        forall|i: int|
            #![trigger chunks[i]]
            0 <= i < chunks.len() ==> advanced(pickers[i], pickers[i + 1], chunks[i]),
        forall|i: int| #![trigger chunks[i]] 0 <= i < chunks.len() ==> chunks[i] is Some,
    ensures
        forall|i: int|
            #![trigger chunks[i]]
            0 <= i < chunks.len() ==> {
                &&& chunks[i]->0.index.as_int() == i
                &&& pickers[0].spec_chunker().offsets_outcome(
                    chunks[i]->0.index,
                    Ok((chunks[i]->0.first_byte_offset, chunks[i]->0.last_byte_offset)),
                )
            },
{
    assert forall|i: int| #![trigger chunks[i]] 0 <= i < chunks.len() implies {
        &&& chunks[i]->0.index.as_int() == i
        &&& pickers[0].spec_chunker().offsets_outcome(
            chunks[i]->0.index,
            Ok((chunks[i]->0.first_byte_offset, chunks[i]->0.last_byte_offset)),
        )
    } by {
        lemma_indexes(pickers, chunks, i);
    }
}

} // verus!
