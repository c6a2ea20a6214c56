//! The loader: the decisions of loading the chunks and writing them to disk.

pub mod chunk_validator;
pub mod http_partial_loader;
pub mod progress;
pub mod resume;
pub mod utils;

use vstd::prelude::*;

use crate::chunker::{Offset, Size};
use self::http_partial_loader::HandshakeFailure;

verus! {

/// Whether the error is retriable or not.
#[derive(Debug)]
pub enum ErrorBehavior<T> {
    /// The processing should be retried.
    Retriable(T),
    /// The processing should not be retried.
    NonRetriable(T),
}

/// The kind of a chunk processing error, with what its retry policy depends on.
#[derive(Debug, PartialEq, Eq, Structural)]
pub enum ProcessChunkErrorKind {
    /// The write queue was closed.
    WriteQueueClosed,
    /// Error while conducting the initial handshake.
    LoaderHandshake(HandshakeFailure),
    /// Error while initializing the chunk validation state.
    ValidationStateInit,
    /// Error while loading the data.
    LoaderData,
    /// Error while updating the chunk validation state; tells whether the validator found the
    /// chunk bad.
    ValidationStateUpdate { bad_chunk: bool },
    /// Error while finalizing the chunk validation state.
    ValidationStateFinalize,
    /// The downloaded data does not match the chunk size.
    SizeMismatch,
    /// The write completion channel was closed before we got the confirmation.
    WriteCompletionChannelClosed,
}

impl ProcessChunkErrorKind {
    /// The retry policy: errors of the transfer itself, a bad chunk, a chunk that fails its final
    /// validation and a chunk of the wrong size are retried; the rest are not.
    pub open spec fn spec_is_retriable(&self) -> bool {
        match *self {
            ProcessChunkErrorKind::WriteQueueClosed => false,
            ProcessChunkErrorKind::LoaderHandshake(failure) => failure.spec_is_retriable(),
            ProcessChunkErrorKind::ValidationStateInit => false,
            ProcessChunkErrorKind::LoaderData => true,
            ProcessChunkErrorKind::ValidationStateUpdate { bad_chunk } => bad_chunk,
            ProcessChunkErrorKind::ValidationStateFinalize => true,
            ProcessChunkErrorKind::SizeMismatch => true,
            ProcessChunkErrorKind::WriteCompletionChannelClosed => false,
        }
    }

    /// Whether the processing of the chunk should be retried after an error of this kind.
    pub fn is_retriable(&self) -> (r: bool)
        ensures
            r == self.spec_is_retriable(),
    {
        match self {
            ProcessChunkErrorKind::WriteQueueClosed => false,
            ProcessChunkErrorKind::LoaderHandshake(failure) => failure.is_retriable(),
            ProcessChunkErrorKind::ValidationStateInit => false,
            ProcessChunkErrorKind::LoaderData => true,
            ProcessChunkErrorKind::ValidationStateUpdate { bad_chunk } => *bad_chunk,
            ProcessChunkErrorKind::ValidationStateFinalize => true,
            ProcessChunkErrorKind::SizeMismatch => true,
            ProcessChunkErrorKind::WriteCompletionChannelClosed => false,
        }
    }

    /// Wrap the `error` of this kind with its retry behavior.
    pub fn behavior<T>(&self, error: T) -> (r: ErrorBehavior<T>)
        ensures
            r == (if self.spec_is_retriable() {
                ErrorBehavior::Retriable(error)
            } else {
                ErrorBehavior::NonRetriable(error)
            }),
    {
        if self.is_retriable() {
            ErrorBehavior::Retriable(error)
        } else {
            ErrorBehavior::NonRetriable(error)
        }
    }
}

/// What to do after an attempt to process a chunk.
#[derive(Debug)]
pub enum Attempt<T> {
    /// Process the chunk again, with this many retries left afterwards, after this error.
    Retry { retries_left: usize, error: T },
    /// Stop with this result.
    Done(Result<(), T>),
}

/// What follows an attempt with `retries_left` retries left: a retriable error is retried while
/// retries are left; anything else ends the processing.
pub open spec fn spec_next_attempt<T>(retries_left: usize, result: Result<(), ErrorBehavior<T>>) -> Attempt<T> {
    match result {
        Ok(()) => Attempt::Done(Ok(())),
        Err(ErrorBehavior::Retriable(error)) => if retries_left > 0 {
            Attempt::Retry { retries_left: (retries_left - 1) as usize, error }
        } else {
            Attempt::Done(Err(error))
        },
        Err(ErrorBehavior::NonRetriable(error)) => Attempt::Done(Err(error)),
    }
}

impl<T> Attempt<T> {
    /// The attempt is a retry with `retries_left` retries left afterwards.
    pub open spec fn retries_with(self, retries_left: usize) -> bool {
        self matches Attempt::Retry { retries_left: left, .. } && left == retries_left
    }
}

/// Decide, after an attempt with `retries_left` retries left, whether to retry: a retriable
/// error is retried while retries are left; anything else ends the processing.
pub fn next_attempt<T>(retries_left: usize, result: Result<(), ErrorBehavior<T>>) -> (r: Attempt<T>)
    ensures
        r == spec_next_attempt(retries_left, result),
{
    match result {
        Ok(val) => Attempt::Done(Ok(val)),
        Err(ErrorBehavior::Retriable(err)) => {
            if retries_left > 0 {
                Attempt::Retry { retries_left: retries_left - 1, error: err }
            } else {
                Attempt::Done(Err(err))
            }
        },
        Err(ErrorBehavior::NonRetriable(err)) => Attempt::Done(Err(err)),
    }
}

proof fn lemma_retries_count_down<T>(
    max_retries: usize,
    retries: Seq<usize>,
    results: Seq<Result<(), ErrorBehavior<T>>>,
    n: int,
)
    requires
        retries.len() == results.len(),
        retries.len() >= 1,
        retries[0] == max_retries,
        forall|i: int|
            #![trigger results[i]]
            0 <= i < results.len() - 1 ==> spec_next_attempt(retries[i], results[i]).retries_with(
                retries[i + 1],
            ),
        0 <= n < retries.len(),
    ensures
        retries[n] == max_retries - n,
    decreases n,
{
    if n > 0 {
        lemma_retries_count_down(max_retries, retries, results, n - 1);
        let r = results[n - 1];
    }
}

/// Processing a chunk stops after at most `max_retries + 1` attempts: when each attempt but the
/// last one is followed by a retry, the attempt number `i` (from zero) has `max_retries - i`
/// retries left, so there are at most `max_retries` retries.
pub proof fn law_retries_bounded<T>(
    max_retries: usize,
    retries: Seq<usize>,
    results: Seq<Result<(), ErrorBehavior<T>>>,
)
    requires
        retries.len() == results.len(),
        retries.len() >= 1,
        retries[0] == max_retries,
        forall|i: int|
            #![trigger results[i]]
            0 <= i < results.len() - 1 ==> spec_next_attempt(retries[i], results[i]).retries_with(
                retries[i + 1],
            ),
    ensures
        retries.len() <= max_retries + 1,
        forall|i: int| 0 <= i < retries.len() ==> #[trigger] retries[i] == max_retries - i,
{
    assert forall|i: int| 0 <= i < retries.len() implies #[trigger] retries[i] == max_retries - i by {
        lemma_retries_count_down(max_retries, retries, results, i);
    }
    assert(retries[retries.len() - 1] == max_retries - (retries.len() - 1));
}

/// The downloaded data does not match the chunk size.
#[derive(Debug, PartialEq, Eq, Structural)]
pub struct SizeMismatch {
    /// The last data offset that was affected by the write requests that we sent.
    pub last_written_offset: Offset,
    /// The expected last data offset to be affected by the loading of this chunk.
    pub expected_last_written_offset: Offset,
}

/// The progress of loading one chunk: the data received so far is written from the chunk's
/// first byte up to `pos`.
#[derive(Debug)]
pub struct ChunkLoad {
    /// The first byte offset of the chunk.
    pub first_byte_offset: Offset,
    /// The last byte offset of the chunk.
    pub last_byte_offset: Offset,
    /// The offset where the next data goes.
    pub pos: Offset,
}

impl ChunkLoad {
    /// Start loading the chunk with the given offsets.
    pub fn new(first_byte_offset: Offset, last_byte_offset: Offset) -> (r: Self)
        ensures
            r.first_byte_offset == first_byte_offset,
            r.last_byte_offset == last_byte_offset,
            r.pos == first_byte_offset,
    {
        ChunkLoad { first_byte_offset, last_byte_offset, pos: first_byte_offset }
    }

    /// Record `len` more bytes of data; returns the offset they are written at.
    pub fn advance(&mut self, len: Size) -> (r: Offset)
        requires
            old(self).pos + len <= u64::MAX,
        ensures
            r == old(self).pos,
            final(self).pos == old(self).pos + len,
            final(self).first_byte_offset == old(self).first_byte_offset,
            final(self).last_byte_offset == old(self).last_byte_offset,
    {
        let pos = self.pos;
        self.pos = self.pos + len;
        pos
    }

    /// The data has ended: the last byte written must be the last byte of the chunk. With no
    /// data at offset zero there is no last byte written: the offset before zero wraps around to
    /// `u64::MAX`, and the size does not match.
    pub fn finish(&self) -> (r: Result<(), SizeMismatch>)
        ensures
            r is Ok <==> self.pos > 0 && self.pos == self.last_byte_offset + 1,
            r matches Err(e) ==> e == (SizeMismatch {
                last_written_offset: if self.pos == 0 {
                    u64::MAX
                } else {
                    (self.pos - 1) as u64
                },
                expected_last_written_offset: self.last_byte_offset,
            }),
    {
        let last_written_offset = self.pos.wrapping_sub(1);
        if self.pos == 0 || self.last_byte_offset != last_written_offset {
            return Err(
                SizeMismatch {
                    last_written_offset,
                    expected_last_written_offset: self.last_byte_offset,
                },
            );
        }
        Ok(())
    }
}

/// The capacity of the write queue for the given networking concurrency.
pub fn write_queue_capacity(net_concurrency: usize) -> (r: usize)
    requires
        net_concurrency * 2 <= usize::MAX,
    ensures
        r == net_concurrency * 2,
{
    net_concurrency * 2
}

/// What the disk write loop waits for has happened.
#[derive(Debug, PartialEq, Eq, Structural)]
pub enum WriteLoopEvent {
    /// Cancellation that drops the pending write requests.
    FlushOnlyCancelled,
    /// Cancellation that completes the queued write requests first.
    GracefullyCancelled,
    /// A write request arrived.
    Received,
    /// The write queue is closed and empty.
    QueueEnded,
}

/// What the disk write loop does next.
#[derive(Debug, PartialEq, Eq, Structural)]
pub enum WriteLoopAction {
    /// Drop the queue, stop serving it and flush.
    DropQueueAndFlush,
    /// Close the queue and keep serving the requests left in it.
    CloseQueue,
    /// Write the received data, notify its requester and report the progress.
    WriteAndReport,
    /// Stop serving the queue and flush.
    Flush,
}

/// The state of the disk write loop.
#[derive(Debug)]
pub struct WriteLoop {
    /// The graceful cancellation has happened (and need not be waited for any more).
    pub is_cancelling_gracefully: bool,
}

impl WriteLoop {
    /// The write loop before any event.
    pub fn new() -> (r: Self)
        ensures
            !r.is_cancelling_gracefully,
    {
        WriteLoop { is_cancelling_gracefully: false }
    }

    /// Whether to wait for the graceful cancellation.
    pub fn watches_graceful_cancellation(&self) -> (r: bool)
        ensures
            r == !self.is_cancelling_gracefully,
    {
        !self.is_cancelling_gracefully
    }

    /// Decide what to do on an event.
    pub fn step(&mut self, event: WriteLoopEvent) -> (r: WriteLoopAction)
        requires
            event == WriteLoopEvent::GracefullyCancelled ==> !old(self).is_cancelling_gracefully,
        ensures
            match event {
                WriteLoopEvent::FlushOnlyCancelled => r == WriteLoopAction::DropQueueAndFlush
                    && final(self).is_cancelling_gracefully == old(self).is_cancelling_gracefully,
                WriteLoopEvent::GracefullyCancelled => r == WriteLoopAction::CloseQueue
                    && final(self).is_cancelling_gracefully,
                WriteLoopEvent::Received => r == WriteLoopAction::WriteAndReport
                    && final(self).is_cancelling_gracefully == old(self).is_cancelling_gracefully,
                WriteLoopEvent::QueueEnded => r == WriteLoopAction::Flush
                    && final(self).is_cancelling_gracefully == old(self).is_cancelling_gracefully,
            },
    {
        match event {
            WriteLoopEvent::FlushOnlyCancelled => WriteLoopAction::DropQueueAndFlush,
            WriteLoopEvent::GracefullyCancelled => {
                self.is_cancelling_gracefully = true;
                WriteLoopAction::CloseQueue
            },
            WriteLoopEvent::Received => WriteLoopAction::WriteAndReport,
            WriteLoopEvent::QueueEnded => WriteLoopAction::Flush,
        }
    }
}


/// The retry policy of the chunk processing errors: the transfer failing midway (an incomplete
/// message or a timeout of the handshake request, or an error while loading the data), a chunk
/// found bad, a chunk that fails its final validation and a chunk of the wrong size are retried;
/// a closed write queue or completion channel, a failed validation start, a handshake that
/// failed otherwise and an update error that does not find the chunk bad are not.
pub proof fn law_chunk_retry_policy(incomplete_message: bool, timeout: bool, status: u16, bad_chunk: bool)
    ensures
        (ProcessChunkErrorKind::LoaderHandshake(
            HandshakeFailure::Request { incomplete_message, timeout },
        ).spec_is_retriable() == (incomplete_message || timeout)),
        !ProcessChunkErrorKind::LoaderHandshake(HandshakeFailure::RequestBuild).spec_is_retriable(),
        !ProcessChunkErrorKind::LoaderHandshake(HandshakeFailure::BadStatus(status)).spec_is_retriable(),
        !ProcessChunkErrorKind::LoaderHandshake(HandshakeFailure::NoContentRange).spec_is_retriable(),
        (ProcessChunkErrorKind::ValidationStateUpdate { bad_chunk }.spec_is_retriable() == bad_chunk),
        ProcessChunkErrorKind::LoaderData.spec_is_retriable(),
        ProcessChunkErrorKind::ValidationStateFinalize.spec_is_retriable(),
        ProcessChunkErrorKind::SizeMismatch.spec_is_retriable(),
        !ProcessChunkErrorKind::WriteQueueClosed.spec_is_retriable(),
        !ProcessChunkErrorKind::ValidationStateInit.spec_is_retriable(),
        !ProcessChunkErrorKind::WriteCompletionChannelClosed.spec_is_retriable(),
{
}

/// After an attempt, a success or a non-retriable error ends the processing with that result,
/// whatever retries are left; a retriable error is retried, with one retry less, exactly when
/// retries are left, and otherwise ends the processing with that error.
pub proof fn law_next_attempt<T>(retries_left: usize, error: T)
    ensures
        (spec_next_attempt::<T>(retries_left, Ok(())) == Attempt::<T>::Done(Ok(()))),
        (spec_next_attempt(retries_left, Err(ErrorBehavior::NonRetriable(error))) == Attempt::<
            T,
        >::Done(Err(error))),
        retries_left > 0 ==> (spec_next_attempt(retries_left, Err(ErrorBehavior::Retriable(error)))
            == Attempt::<T>::Retry { retries_left: (retries_left - 1) as usize, error }),
        retries_left == 0 ==> (spec_next_attempt(retries_left, Err(ErrorBehavior::Retriable(error)))
            == Attempt::<T>::Done(Err(error))),
{
}

/// Only a retriable error with retries left leads to a retry.
pub proof fn law_retry_only_after_retriable<T>(
    retries_left: usize,
    result: Result<(), ErrorBehavior<T>>,
)
    ensures
        (spec_next_attempt(retries_left, result) is Retry) ==> (retries_left > 0
            && (result matches Err(ErrorBehavior::Retriable(_)))),
{
}

} // verus!
