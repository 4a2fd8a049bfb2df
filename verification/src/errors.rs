//! The error taxonomy of the transcoder.

use vstd::prelude::*;

verus! {

/// Everything that can go wrong while transcoding.  Each failure is fatal to
/// the operation in progress: no partial result is ever handed back.
#[derive(Debug, PartialEq, Eq, Structural, Clone, Copy)]
pub enum MorseError {
    /// Encoding met a character outside the active language's domain.
    UnsupportedCharacter,
    /// Decoding met a symbol sequence that matches no table entry.
    UnrecognizedSequence,
    /// A bitstream token matches neither a dot nor a line pattern.
    MalformedBitstream,
}

} // verus!
