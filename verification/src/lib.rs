//! A verified model of PNG chunk streams: chunk type codes, checksummed chunk
//! frames, and the file-level container that sequences them.

pub mod args;
pub mod buffer;
pub mod chunk;
pub mod chunk_type;
pub mod cli;
pub mod crc;
pub mod endian;
pub mod error;
pub mod png;
pub mod text;
