use quickload::chunker::{Chunker, U64Config};
use quickload::linear_chunk_picker::Linear;

const CHUNK_SIZE: u64 = 512 * 1024;

fn test(chunker: Chunker<U64Config>, expected: &[(u64, u64)]) {
    let mut picker = Linear::new(&chunker);
    let mut actual: Vec<(u64, u64)> = Vec::new();
    while let Some(chunk) = picker.next() {
        actual.push((chunk.first_byte_offset, chunk.last_byte_offset));
    }

    assert_eq!(actual, expected, "results don't match, expected is right");
}

fn make_chunker(total_size: u64) -> Chunker<U64Config> {
    Chunker {
        total_size,
        chunk_size: CHUNK_SIZE,
    }
}

#[test]
fn lib_empty() {
    test(make_chunker(0), &[]);
}

#[test]
fn lib_one_byte() {
    test(make_chunker(1), &[(0, 0)]);
}

#[test]
fn lib_two_bytes() {
    test(make_chunker(2), &[(0, 1)]);
}

#[test]
fn lib_three_bytes() {
    test(make_chunker(3), &[(0, 2)]);
}

#[test]
fn lib_four_bytes() {
    test(make_chunker(4), &[(0, 3)]);
}

#[test]
fn lib_full() {
    test(make_chunker(CHUNK_SIZE), &[(0, CHUNK_SIZE - 1)]);
}

#[test]
fn lib_double() {
    test(
        make_chunker(CHUNK_SIZE * 2),
        &[(0, CHUNK_SIZE - 1), (CHUNK_SIZE, CHUNK_SIZE * 2 - 1)],
    );
}

#[test]
#[allow(clippy::erasing_op, clippy::identity_op)]
fn lib_triple() {
    test(
        make_chunker(CHUNK_SIZE * 3),
        &[
            (CHUNK_SIZE * 0, CHUNK_SIZE * 1 - 1),
            (CHUNK_SIZE * 1, CHUNK_SIZE * 2 - 1),
            (CHUNK_SIZE * 2, CHUNK_SIZE * 3 - 1),
        ],
    );
}

#[test]
fn lib_indexes_count_up() {
    let chunker: Chunker<U64Config> = Chunker {
        total_size: 5,
        chunk_size: 2,
    };
    let mut picker = Linear::new(&chunker);
    let mut indexes = Vec::new();
    while let Some(chunk) = picker.next() {
        indexes.push(chunk.index);
    }
    assert_eq!(indexes, vec![0, 1, 2]);
}
