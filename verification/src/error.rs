use vstd::prelude::*;

verus! {

/// The failures the codec can report. Every failure is terminal for the
/// operation that raised it: nothing is retried, repaired or partially kept.
#[derive(Debug, Clone, Copy, PartialEq, Eq)]
pub enum PngError {
    /// A chunk-type signature held a byte that is not an ASCII letter, or a
    /// textual signature was not exactly four characters long.
    InvalidChunkType,
    /// A chunk's stored checksum did not match the checksum computed over its
    /// type and payload bytes.
    CrcMismatch,
    /// A file did not begin with the fixed eight magic bytes.
    InvalidSignature,
    /// A buffer ended before a declared field was complete.
    TruncatedInput,
    /// A removal asked for a chunk type that no chunk in the sequence has.
    ChunkNotFound,
    /// A payload requested as text is not valid UTF-8.
    InvalidUtf8,
}

} // verus!
