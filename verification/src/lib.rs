//! Chunked loading of a linear byte space: chunking, chunk picking, progress tracking.

pub mod chunker;
pub mod progress_state;
pub mod chunk;
pub mod chunk_picker;
pub mod linear_chunk_picker;
pub mod checksum;
pub mod loader;
pub mod disk_space_allocation;
pub mod progress_state_reporter;
