use quickload::chunk::Chunk;
use quickload::chunk_picker::{Linear, DEFAULT_CHUNK_SIZE};
use quickload::chunker::{Chunker, U64Config};

const CHUNK_SIZE: u64 = 512 * 1024;

fn collect(mut picker: Linear) -> Vec<Chunk<u64>> {
    let mut out = Vec::new();
    while let Some(chunk) = picker.next() {
        out.push(chunk);
    }
    out
}

fn test(picker: Linear, expected: &[(u64, u64)]) {
    assert_eq!(
        collect(picker),
        expected
            .iter()
            .map(|(start, end)| Chunk {
                start: *start,
                end: *end
            })
            .collect::<Vec<_>>(),
        "results don't match"
    );
}

fn make_linear(size: u64) -> Linear {
    Linear::new(size, std::num::NonZeroU64::new(CHUNK_SIZE).unwrap().get())
}

#[test]
fn linear_empty() {
    test(make_linear(0), &[]);
}

#[test]
fn linear_one_byte() {
    test(make_linear(1), &[(0, 0)]);
}

#[test]
fn linear_two_bytes() {
    test(make_linear(2), &[(0, 1)]);
}

#[test]
fn linear_three_bytes() {
    test(make_linear(3), &[(0, 2)]);
}

#[test]
fn linear_four_bytes() {
    test(make_linear(4), &[(0, 3)]);
}

#[test]
fn linear_full() {
    test(make_linear(CHUNK_SIZE), &[(0, CHUNK_SIZE - 1)]);
}

#[test]
fn linear_double() {
    test(
        make_linear(CHUNK_SIZE * 2),
        &[(0, CHUNK_SIZE - 1), (CHUNK_SIZE, CHUNK_SIZE * 2 - 1)],
    );
}

#[test]
#[allow(clippy::erasing_op, clippy::identity_op)]
fn linear_triple() {
    test(
        make_linear(CHUNK_SIZE * 3),
        &[
            (CHUNK_SIZE * 0, CHUNK_SIZE * 1 - 1),
            (CHUNK_SIZE * 1, CHUNK_SIZE * 2 - 1),
            (CHUNK_SIZE * 2, CHUNK_SIZE * 3 - 1),
        ],
    );
}

#[test]
fn linear_last_chunk_is_shorter() {
    test(Linear::new(10, 4), &[(0, 3), (4, 7), (8, 9)]);
}

#[test]
fn linear_stays_done() {
    let mut picker = Linear::new(3, 2);
    assert_eq!(picker.next(), Some(Chunk { start: 0, end: 1 }));
    assert_eq!(picker.next(), Some(Chunk { start: 2, end: 2 }));
    assert_eq!(picker.next(), None);
    assert_eq!(picker.next(), None);
}

#[test]
fn linear_chunk_size_one() {
    test(Linear::new(3, 1), &[(0, 0), (1, 1), (2, 2)]);
}

#[test]
fn default_chunk_size_is_half_a_mebibyte() {
    assert_eq!(DEFAULT_CHUNK_SIZE, 524288);
}

#[test]
fn chunk_into_inner() {
    assert_eq!(Chunk { start: 3u64, end: 9u64 }.into_inner(), (3, 9));
}

#[test]
fn linear_agrees_with_chunker() {
    for (total_size, chunk_size) in [(0u64, 3u64), (1, 3), (9, 3), (10, 3), (11, 3), (7, 100)] {
        let chunker: Chunker<U64Config> = Chunker {
            total_size,
            chunk_size,
        };
        let mut by_chunker = Vec::new();
        let mut chunker_picker = quickload::linear_chunk_picker::Linear::new(&chunker);
        while let Some(chunk) = chunker_picker.next() {
            by_chunker.push((chunk.first_byte_offset, chunk.last_byte_offset));
        }
        let by_position: Vec<(u64, u64)> = collect(Linear::new(total_size, chunk_size))
            .into_iter()
            .map(Chunk::into_inner)
            .collect();
        assert_eq!(by_position, by_chunker, "total {total_size}, chunk {chunk_size}");
    }
}

#[test]
fn linear_near_the_top_of_the_byte_space() {
    let half = (1u64 << 63) + 1;
    let mut picker = Linear::new(u64::MAX, half);
    assert_eq!(picker.next(), Some(Chunk { start: 0, end: 1u64 << 63 }));
    assert_eq!(picker.next(), Some(Chunk { start: half, end: u64::MAX - 1 }));
    assert_eq!(picker.next(), None);
    let mut whole = Linear::new(u64::MAX, u64::MAX);
    assert_eq!(whole.next(), Some(Chunk { start: 0, end: u64::MAX - 1 }));
    assert_eq!(whole.next(), None);
}
