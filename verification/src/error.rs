//! The closed set of failures that the chunk model reports.

use vstd::prelude::*;

verus! {

/// Why an operation on a chunk type, a chunk or a container failed.
#[derive(Debug, Clone, Copy, PartialEq, Eq, Structural)]
pub enum PngError {
    /// The buffer does not start with the eight signature bytes.
    InvalidSignature,
    /// Fewer bytes remain than a frame, or its declared payload, needs.
    TruncatedFrame,
    /// The checksum stored in a frame is not the one computed over its
    /// type and payload bytes.
    CrcMismatch { stored: u32, computed: u32 },
    /// A chunk type was given as text that is not four ASCII letters.
    InvalidChunkTypeChars,
    /// The four bytes of a chunk type are not UTF-8 text.
    NotTextRepresentable,
    /// The payload of a chunk is not UTF-8 text.
    Utf8DecodeError,
    /// No chunk of the container has the requested type.
    ChunkNotFound,
}

impl PngError {
    /// A short description of the failure, fit for showing to a person.
    pub fn message(&self) -> (text: String)
        ensures
            text@ == self.spec_message()@,
    {
        match self {
            PngError::InvalidSignature => "the buffer does not start with the PNG signature".to_owned(),
            PngError::TruncatedFrame => "the buffer ends before the chunk frame does".to_owned(),
            PngError::CrcMismatch { .. } => "the stored checksum does not match the chunk".to_owned(),
            PngError::InvalidChunkTypeChars => "a chunk type is four ASCII letters".to_owned(),
            PngError::NotTextRepresentable => "the chunk type is not text".to_owned(),
            PngError::Utf8DecodeError => "the chunk data is not UTF-8 text".to_owned(),
            PngError::ChunkNotFound => "could not find a chunk with a matching chunk type".to_owned(),
        }
    }

    /// The description that [`PngError::message`] returns.
    pub open spec fn spec_message(&self) -> &'static str {
        match self {
            PngError::InvalidSignature => "the buffer does not start with the PNG signature",
            PngError::TruncatedFrame => "the buffer ends before the chunk frame does",
            PngError::CrcMismatch { .. } => "the stored checksum does not match the chunk",
            PngError::InvalidChunkTypeChars => "a chunk type is four ASCII letters",
            PngError::NotTextRepresentable => "the chunk type is not text",
            PngError::Utf8DecodeError => "the chunk data is not UTF-8 text",
            PngError::ChunkNotFound => "could not find a chunk with a matching chunk type",
        }
    }
}

} // verus!
