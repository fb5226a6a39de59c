//! The typed failures of an extraction.

use vstd::prelude::*;

verus! {

/// Why a container could not be read as the structure it claims to be.
#[derive(Clone, Copy, Debug, PartialEq, Eq, Structural)]
pub enum ReadFailure {
    /// The input ends before the structure being read is complete.
    UnexpectedEof,
    /// The bytes are all there but do not form the expected structure.
    InvalidData,
}

/// A fatal condition. Each one ends the extraction without output.
#[derive(Clone, Copy, Debug, PartialEq, Eq, Structural)]
pub enum ExtractError {
    /// The start sector lies after the end sector, or more than one format
    /// was forced at once.
    ArgumentConflict,
    /// Neither an explicit choice nor the file name tells the format.
    UnknownFormat,
    /// The track with this declared index failed to decode or to verify,
    /// and the extraction was asked to be strict about it.
    CorruptTrack(u16),
    /// The requested sector range reaches past the last sector of the image.
    RangeOutOfBounds,
    /// The container itself could not be read.
    IOError(ReadFailure),
}

} // verus!
