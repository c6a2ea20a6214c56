use quickload::chunker::traits::{
    BoundedBy, FirstToLastByteOfChunk, LastValidOffset, OffsetFromChunkSize,
};
use quickload::chunker::utils::{
    bounded, first_to_last_byte_of_chunk, from_usize, is_within_bound, last_valid_offset,
    to_usize, UsizeInterop,
};
use quickload::chunker::{ChunkOffsetError, Chunker, Config, U64Config};
use quickload::linear_chunk_picker::CheckedIncrement;

#[derive(Debug)]
struct SmallConfig;

impl Config for SmallConfig {
    type ChunkSpaceUnit = u8;
    type ByteSpaceUnit = u16;
}

#[test]
fn chunk_offsets_of_full_and_last_chunks() {
    let chunker: Chunker<U64Config> = Chunker {
        total_size: 10,
        chunk_size: 4,
    };
    assert!(matches!(chunker.chunk_offsets(0), Ok((0, 3))));
    assert!(matches!(chunker.chunk_offsets(1), Ok((4, 7))));
    assert!(matches!(chunker.chunk_offsets(2), Ok((8, 9))));
    assert!(matches!(
        chunker.chunk_offsets(3),
        Err(ChunkOffsetError::OutOfDataBounds(12))
    ));
}

#[test]
fn chunk_offsets_of_empty_data() {
    let chunker: Chunker<U64Config> = Chunker {
        total_size: 0,
        chunk_size: 4,
    };
    assert!(matches!(
        chunker.chunk_offsets(0),
        Err(ChunkOffsetError::EmptyData)
    ));
}

#[test]
fn capture_chunk_keeps_the_index() {
    let chunker: Chunker<SmallConfig> = Chunker {
        total_size: 1000,
        chunk_size: 300,
    };
    let chunk = chunker.capture_chunk(3).unwrap();
    assert_eq!(chunk.index, 3);
    assert_eq!(chunk.first_byte_offset, 900);
    assert_eq!(chunk.last_byte_offset, 999);
    let copy = chunk;
    assert_eq!(copy.index, chunk.index);
    assert!(matches!(
        chunker.capture_chunk(4),
        Err(ChunkOffsetError::OutOfDataBounds(1200))
    ));
}

#[test]
fn usize_conversions() {
    assert_eq!(to_usize(7u64), 7usize);
    assert_eq!(from_usize::<u16>(300), 300u16);
    assert_eq!(u8::try_from_usize(256), None);
    assert_eq!(u8::try_from_usize(255), Some(255u8));
    assert_eq!(300u16.try_into_usize(), Some(300usize));
}

#[test]
fn bounds() {
    assert!(is_within_bound(3usize, 3usize));
    assert!(!is_within_bound(4usize, 3usize));
    assert_eq!(bounded(2u64, 3u64), Some(2));
    assert_eq!(bounded(5u64, 3u64), None);
    assert!(3u64.is_within_bound(&3u64));
    assert_eq!(5u64.bounded(&4u64), None);
    assert_eq!(4u64.bounded(&4u64), Some(4));
}

#[test]
fn offsets() {
    assert_eq!(last_valid_offset(0), None);
    assert_eq!(last_valid_offset(10), Some(9));
    assert_eq!(first_to_last_byte_of_chunk(8, 4), 11);
    assert_eq!(LastValidOffset::<u64>::last_valid_offset(&0u64), None);
    assert_eq!(LastValidOffset::<u64>::last_valid_offset(&5u64), Some(4u64));
    assert_eq!(OffsetFromChunkSize::<u64, u64>::offset_from_chunk_size(3u64, 4u64), 12u64);
    assert_eq!(FirstToLastByteOfChunk::<u64>::first_to_last_byte_of_chunk(12u64, 4u64), 15u64);
}

#[test]
fn checked_increment() {
    assert_eq!(254u8.checked_inc(), Some(255));
    assert_eq!(255u8.checked_inc(), None);
    assert_eq!(u64::MAX.checked_inc(), None);
    assert_eq!(41u64.checked_inc(), Some(42));
}

#[derive(Debug)]
struct ByteConfig;

impl Config for ByteConfig {
    type ChunkSpaceUnit = u8;
    type ByteSpaceUnit = u8;
}

#[test]
fn chunk_offsets_overflow() {
    let chunker: Chunker<ByteConfig> = Chunker {
        total_size: 10,
        chunk_size: 100,
    };
    assert!(matches!(chunker.chunk_offsets(0), Ok((0, 9))));
    assert!(matches!(
        chunker.chunk_offsets(3),
        Err(ChunkOffsetError::OffsetOverflow)
    ));
    assert!(matches!(
        chunker.capture_chunk(3),
        Err(ChunkOffsetError::OffsetOverflow)
    ));
    assert!(matches!(
        chunker.chunk_offsets(2),
        Err(ChunkOffsetError::OutOfDataBounds(200))
    ));
    let big: Chunker<U64Config> = Chunker {
        total_size: 10,
        chunk_size: 4,
    };
    assert!(matches!(
        big.chunk_offsets(u64::MAX),
        Err(ChunkOffsetError::OffsetOverflow)
    ));
    let zero: Chunker<U64Config> = Chunker {
        total_size: 10,
        chunk_size: 0,
    };
    assert!(matches!(
        zero.chunk_offsets(0),
        Err(ChunkOffsetError::OffsetOverflow)
    ));
}

#[test]
fn last_chunk_at_the_top_of_the_byte_space() {
    let chunker: Chunker<U64Config> = Chunker {
        total_size: u64::MAX,
        chunk_size: 2,
    };
    let last_index = (u64::MAX - 1) / 2;
    assert!(matches!(
        chunker.chunk_offsets(last_index),
        Ok((first, last)) if first == u64::MAX - 1 && last == u64::MAX - 1
    ));
    assert!(matches!(
        chunker.chunk_offsets(last_index - 1),
        Ok((first, last)) if first == u64::MAX - 3 && last == u64::MAX - 2
    ));
    // The next offset, 2^64, does not fit.
    assert!(matches!(
        chunker.chunk_offsets(last_index + 1),
        Err(ChunkOffsetError::OffsetOverflow)
    ));
}

#[test]
fn last_byte_of_chunk_up_to_the_limit() {
    assert_eq!(first_to_last_byte_of_chunk(524288, 524288), 1048575);
    assert_eq!(first_to_last_byte_of_chunk(0, 1), 0);
    assert_eq!(first_to_last_byte_of_chunk(usize::MAX - 1, 2), usize::MAX);
    assert_eq!(
        FirstToLastByteOfChunk::<u64>::first_to_last_byte_of_chunk(u64::MAX - 3, 4u64),
        u64::MAX
    );
}
