//! The character codec capability: what a "language" must provide so that
//! the transcoder can run on it.
//!
//! A language is a pair of pure functions — encode a character to symbols,
//! decode symbols back to a character — that form a lossless mapping over
//! the language's own alphabet.  The transcoder accepts any conforming
//! codec at construction; International Morse is the built-in default.

use crate::errors::MorseError;
use crate::morse_processors::from_int_char;
use crate::morse_processors::int_code;
use crate::morse_processors::int_decode;
use crate::morse_processors::int_lower;
use crate::morse_processors::int_supported;
use crate::morse_processors::into_int_char;
use crate::morse_processors::lemma_int_code_shape;
use crate::morse_processors::lemma_int_roundtrip;
use crate::morse_unit::MorseUnit;
use vstd::prelude::*;

verus! {

/// A conforming encode/decode pair for one language.
///
/// The contract places no constraint on a codec's internal logic beyond
/// what is stated here: encoding succeeds exactly on the supported
/// characters, decoding succeeds exactly on the sequences the language
/// recognizes, and every code a supported character encodes to decodes
/// back to that character's canonical form.
pub trait CharacterCodec: Sized {
    /// The characters this language encodes.
    spec fn spec_supported(&self, c: char) -> bool;

    /// The canonical form in which a supported character decodes back
    /// (International folds letters to lower case).
    spec fn spec_canon(&self, c: char) -> char;

    /// The symbol sequence of a supported character.
    spec fn spec_code(&self, c: char) -> Seq<MorseUnit>;

    /// The character a symbol sequence decodes to, if the language
    /// recognizes the sequence.
    spec fn spec_decode(&self, units: Seq<MorseUnit>) -> Option<char>;

    /// The mapping is lossless and never empty: every supported character
    /// has a non-empty code, and that code decodes back to the character's
    /// canonical form.
    proof fn lemma_roundtrip(&self, c: char)
        requires
            self.spec_supported(c),
        ensures
            self.spec_code(c).len() > 0,
            self.spec_decode(self.spec_code(c)) == Some(self.spec_canon(c)),
    ;

    /// Encodes one character, or rejects it as unsupported.
    fn encode(&self, c: char) -> (r: Result<Vec<MorseUnit>, MorseError>)
        ensures
            match r {
                Ok(units) => self.spec_supported(c) && units@ == self.spec_code(c),
                Err(e) => !self.spec_supported(c) && e == MorseError::UnsupportedCharacter,
            },
    ;

    /// Decodes one symbol sequence, or rejects it as unrecognized.
    fn decode(&self, units: &Vec<MorseUnit>) -> (r: Result<char, MorseError>)
        ensures
            match r {
                Ok(c) => self.spec_decode(units@) == Some(c),
                Err(e) => self.spec_decode(units@) is None && e
                    == MorseError::UnrecognizedSequence,
            },
    ;
}

/// The built-in International Morse language.
#[derive(Debug, PartialEq, Eq, Structural, Clone, Copy)]
pub struct International;

impl CharacterCodec for International {
    open spec fn spec_supported(&self, c: char) -> bool {
        int_supported(c)
    }

    open spec fn spec_canon(&self, c: char) -> char {
        int_lower(c)
    }

    open spec fn spec_code(&self, c: char) -> Seq<MorseUnit> {
        int_code(c)
    }

    open spec fn spec_decode(&self, units: Seq<MorseUnit>) -> Option<char> {
        int_decode(units)
    }

    proof fn lemma_roundtrip(&self, c: char) {
        lemma_int_roundtrip(c);
        lemma_int_code_shape(c);
    }

    fn encode(&self, c: char) -> (r: Result<Vec<MorseUnit>, MorseError>) {
        from_int_char(c)
    }

    fn decode(&self, units: &Vec<MorseUnit>) -> (r: Result<char, MorseError>) {
        let mut copy: Vec<MorseUnit> = Vec::new();
        let mut i: usize = 0;
        while i < units.len()
            invariant
                0 <= i <= units@.len(),
                copy@ == units@.subrange(0, i as int),
            decreases units@.len() - i,
        {
            let u = units[i];
            copy.push(u);
            proof {
                assert(units@.subrange(0, i as int).push(units@[i as int]) =~= units@.subrange(
                    0,
                    i + 1,
                ));
            }
            i = i + 1;
        }
        proof {
            assert(units@.subrange(0, units@.len() as int) =~= units@);
        }
        into_int_char(copy)
    }
}

} // verus!
