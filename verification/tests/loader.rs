use quickload::checksum::{ChunkHash, ChunkHashes};
use quickload::disk_space_allocation::prepare_privileges;
use quickload::loader::chunk_validator::{
    check_hash, expected_hash, ChecksumError, ErrorEffect, CHUNK_HASH_SIZE,
};
use quickload::loader::http_partial_loader::{check_response, range_header_value, HandshakeFailure};
use quickload::loader::progress::TracingReporter;
use quickload::loader::utils::{parse_u64, size_from_headers, DetectSizeError};
use quickload::loader::{
    next_attempt, write_queue_capacity, Attempt, ChunkLoad, ErrorBehavior, ProcessChunkErrorKind,
    SizeMismatch, WriteLoop, WriteLoopAction, WriteLoopEvent,
};

#[test]
fn chunk_hashes_lookup() {
    let hashes = ChunkHashes(vec![ChunkHash([0u8, 17u8]), ChunkHash([1u8, 2u8])]);
    assert_eq!(hashes.get(1), Some(&[1u8, 2u8]));
    assert_eq!(hashes.get(2), None);
    assert_eq!(expected_hash(&hashes, 0).unwrap(), [0u8, 17u8]);
    assert_eq!(expected_hash(&hashes, 5).unwrap_err().index, 5);
}

#[test]
fn hash_check() {
    assert!(check_hash([1u8; CHUNK_HASH_SIZE], [1u8; CHUNK_HASH_SIZE]).is_ok());
    let mut computed = [1u8; CHUNK_HASH_SIZE];
    computed[31] = 2;
    let error: ChecksumError<CHUNK_HASH_SIZE> =
        check_hash([1u8; CHUNK_HASH_SIZE], computed).unwrap_err();
    assert_eq!(error.computed_hash, computed);
    assert_eq!(error.expected_hash, [1u8; CHUNK_HASH_SIZE]);
    assert!(error.bad_chunk());
}

#[test]
fn range_header() {
    assert_eq!(range_header_value(0, 524287), b"bytes=0-524287".to_vec());
    assert_eq!(range_header_value(10, 9), b"bytes=10-9".to_vec());
    assert_eq!(
        range_header_value(u64::MAX, u64::MAX),
        b"bytes=18446744073709551615-18446744073709551615".to_vec()
    );
}

#[test]
fn response_checks() {
    assert_eq!(check_response(206, true), Ok(()));
    assert_eq!(check_response(200, true), Err(HandshakeFailure::BadStatus(200)));
    assert_eq!(check_response(206, false), Err(HandshakeFailure::NoContentRange));
}

#[test]
fn retry_policy() {
    let timeout = HandshakeFailure::Request {
        incomplete_message: false,
        timeout: true,
    };
    let other = HandshakeFailure::Request {
        incomplete_message: false,
        timeout: false,
    };
    assert!(ProcessChunkErrorKind::LoaderHandshake(timeout).is_retriable());
    assert!(!ProcessChunkErrorKind::LoaderHandshake(other).is_retriable());
    assert!(!ProcessChunkErrorKind::LoaderHandshake(HandshakeFailure::NoContentRange).is_retriable());
    assert!(ProcessChunkErrorKind::LoaderData.is_retriable());
    assert!(ProcessChunkErrorKind::SizeMismatch.is_retriable());
    assert!(ProcessChunkErrorKind::ValidationStateFinalize.is_retriable());
    assert!(ProcessChunkErrorKind::ValidationStateUpdate { bad_chunk: true }.is_retriable());
    assert!(!ProcessChunkErrorKind::ValidationStateUpdate { bad_chunk: false }.is_retriable());
    assert!(!ProcessChunkErrorKind::ValidationStateInit.is_retriable());
    assert!(!ProcessChunkErrorKind::WriteQueueClosed.is_retriable());
    assert!(!ProcessChunkErrorKind::WriteCompletionChannelClosed.is_retriable());
    assert!(matches!(
        ProcessChunkErrorKind::LoaderData.behavior("e"),
        ErrorBehavior::Retriable("e")
    ));
    assert!(matches!(
        ProcessChunkErrorKind::WriteQueueClosed.behavior("e"),
        ErrorBehavior::NonRetriable("e")
    ));
}

#[test]
fn attempts() {
    assert!(matches!(
        next_attempt::<&str>(3, Ok(())),
        Attempt::Done(Ok(()))
    ));
    assert!(matches!(
        next_attempt(3, Err(ErrorBehavior::Retriable("e"))),
        Attempt::Retry { retries_left: 2, error: "e" }
    ));
    assert!(matches!(
        next_attempt(0, Err(ErrorBehavior::Retriable("e"))),
        Attempt::Done(Err("e"))
    ));
    assert!(matches!(
        next_attempt(3, Err(ErrorBehavior::NonRetriable("e"))),
        Attempt::Done(Err("e"))
    ));
}

#[test]
fn chunk_load_size_check() {
    let mut load = ChunkLoad::new(10, 19);
    assert_eq!(load.advance(4), 10);
    assert_eq!(load.advance(6), 14);
    assert_eq!(load.finish(), Ok(()));
    let mut short = ChunkLoad::new(10, 19);
    short.advance(3);
    assert_eq!(
        short.finish(),
        Err(SizeMismatch {
            last_written_offset: 12,
            expected_last_written_offset: 19
        })
    );
}

#[test]
fn chunk_load_without_data_at_zero() {
    let empty = ChunkLoad::new(0, 9);
    assert_eq!(
        empty.finish(),
        Err(SizeMismatch {
            last_written_offset: u64::MAX,
            expected_last_written_offset: 9
        })
    );
}

#[test]
fn write_loop_decisions() {
    let mut state = WriteLoop::new();
    assert!(state.watches_graceful_cancellation());
    assert_eq!(state.step(WriteLoopEvent::Received), WriteLoopAction::WriteAndReport);
    assert_eq!(state.step(WriteLoopEvent::GracefullyCancelled), WriteLoopAction::CloseQueue);
    assert!(!state.watches_graceful_cancellation());
    assert_eq!(state.step(WriteLoopEvent::QueueEnded), WriteLoopAction::Flush);
    assert_eq!(
        state.step(WriteLoopEvent::FlushOnlyCancelled),
        WriteLoopAction::DropQueueAndFlush
    );
    assert_eq!(write_queue_capacity(8), 16);
}

#[test]
fn content_length_parsing() {
    assert_eq!(parse_u64(b"0"), Some(0));
    assert_eq!(parse_u64(b"+42"), Some(42));
    assert_eq!(parse_u64(b"18446744073709551615"), Some(u64::MAX));
    assert_eq!(parse_u64(b"18446744073709551616"), None);
    assert_eq!(parse_u64(b""), None);
    assert_eq!(parse_u64(b"+"), None);
    assert_eq!(parse_u64(b"-1"), None);
    assert_eq!(parse_u64(b"12a"), None);
    for text in ["0", "+7", "123456", "18446744073709551615", "", "+", "1 2", "99999999999999999999"] {
        assert_eq!(parse_u64(text.as_bytes()), text.parse::<u64>().ok(), "{text}");
    }
}

#[test]
fn size_detection() {
    let bytes = vec![b"bytes".to_vec()];
    let none = vec![b"none".to_vec()];
    assert_eq!(size_from_headers(Some(b"1024"), &bytes), Ok(1024));
    assert_eq!(
        size_from_headers(None, &bytes),
        Err(DetectSizeError::NoContentLength)
    );
    assert_eq!(
        size_from_headers(Some(b"10\x01"), &bytes),
        Err(DetectSizeError::ContentLengthNotText)
    );
    assert_eq!(
        size_from_headers(Some(b"ten"), &bytes),
        Err(DetectSizeError::InvalidContentLength)
    );
    assert_eq!(
        size_from_headers(Some(b"10"), &none),
        Err(DetectSizeError::RangesNotSupported)
    );
    assert_eq!(
        size_from_headers(Some(b"10"), &vec![]),
        Err(DetectSizeError::RangesNotSupported)
    );
    assert_eq!(
        size_from_headers(Some(b"10"), &vec![b"none".to_vec(), b"bytes".to_vec()]),
        Ok(10)
    );
}

#[test]
fn tracing_reporter_name() {
    assert_eq!(TracingReporter::from_static("net").name, "net");
}

#[test]
fn privileges() {
    assert!(prepare_privileges().is_ok());
}

#[test]
fn retries_end_within_the_bound() {
    for max_retries in [0usize, 1, 2, 5] {
        let mut retries = max_retries;
        let mut attempts = 0usize;
        loop {
            attempts += 1;
            match next_attempt(retries, Err(ErrorBehavior::Retriable("e"))) {
                Attempt::Retry { retries_left, .. } => retries = retries_left,
                Attempt::Done(result) => {
                    assert_eq!(result, Err("e"));
                    break;
                }
            }
        }
        assert_eq!(attempts, max_retries + 1);
    }
}
