//! The three-valued symbol alphabet of Morse code.

use vstd::prelude::*;

verus! {

/// One atomic Morse symbol: a short mark, a long mark, or the gap that
/// stands between two words.
#[derive(Debug, PartialEq, Eq, Structural, Clone, Copy)]
pub enum MorseUnit {
    Dot,
    Line,
    /// End of word.
    Whitespace,
}

} // verus!
