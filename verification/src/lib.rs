//! Bidirectional transcoder between text and Morse code.
//!
//! A document is an ordered sequence of character units, each pairing one
//! character with its sequence of Morse symbols.  The same document can be
//! read out of, and written into, three representations: plain text, a
//! binary digit string built from fixed timing rules, and a human-readable
//! rendering whose dot, line and word-gap glyphs can be aliased freely.
//! Playback reduces to a sequence of timed tone and silence commands.

use vstd::prelude::*;
use vstd::string::StringExecFns;

pub mod bits;
pub mod codec;
pub mod display_chars;
pub mod errors;
pub mod laws;
pub mod morse_char;
pub mod morse_processors;
pub mod morse_unit;
pub mod sound;
pub mod text;

use crate::bits::char_bits;
use crate::bits::join_with;
use crate::bits::split_on;
use crate::bits::split_zeros_from;
use crate::bits::units_of_bits;
use crate::bits::views_of;
use crate::bits::zeros;
use crate::codec::CharacterCodec;
use crate::codec::International;
use crate::display_chars::default_display;
use crate::display_chars::DisplayChars;
use crate::display_chars::DisplayView;
use crate::errors::MorseError;
use crate::morse_char::render_units;
use crate::morse_char::MorseChar;
use crate::morse_char::MorseCharView;
use crate::morse_unit::MorseUnit;
use crate::sound::char_commands;
use crate::sound::AudioCommand;
use crate::text::chars_of;
use crate::text::push_char;

verus! {

/// The characters of a document, in order.
pub open spec fn letters_of(chars: Seq<MorseCharView>) -> Seq<char> {
    chars.map_values(|c: MorseCharView| c.letter)
}

/// The binary digits of a whole document: each unit's digits, joined by
/// the three-zero inter-character separator.  The seven-zero inter-word
/// separator arises where a word gap's own `"0"` sits between two of them.
pub open spec fn doc_bits(chars: Seq<MorseCharView>) -> Seq<char> {
    join_with(chars.map_values(|c: MorseCharView| char_bits(c.units)), zeros(3))
}

/// The rendering of a whole document: each unit's rendering, joined by
/// exactly three literal spaces, whatever the aliases hold.
pub open spec fn render_doc(chars: Seq<MorseCharView>, d: DisplayView) -> Seq<char> {
    join_with(
        chars.map_values(|c: MorseCharView| render_units(c.units, d)),
        seq![' ', ' ', ' '],
    )
}

/// The playback of a whole document: each unit's commands, with three
/// units of silence between consecutive character units.
pub open spec fn doc_commands(chars: Seq<MorseCharView>) -> Seq<AudioCommand> {
    join_with(
        chars.map_values(|c: MorseCharView| char_commands(c.units)),
        seq![AudioCommand::Silence(3)],
    )
}

/// Encoding a text, character by character, left to right.  `None` exactly
/// when some character is unsupported; the whole text fails then — no
/// partial document.
pub open spec fn spec_from_text<C: CharacterCodec>(codec: C, t: Seq<char>) -> Option<
    Seq<MorseCharView>,
>
    decreases t.len(),
{
    if t.len() == 0 {
        Some(Seq::empty())
    } else if codec.spec_supported(t.first()) {
        match spec_from_text(codec, t.drop_first()) {
            None => None,
            Some(rest) => Some(
                seq![
                    MorseCharView {
                        letter: codec.spec_canon(t.first()),
                        units: codec.spec_code(t.first()),
                    },
                ] + rest,
            ),
        }
    } else {
        None
    }
}

/// Decoding one character token of a bitstream.  An empty token stands for
/// the empty symbol sequence, which no language entry matches.
pub open spec fn parse_letter_tok<C: CharacterCodec>(codec: C, tok: Seq<char>) -> Result<
    MorseCharView,
    MorseError,
> {
    if tok.len() == 0 {
        Err(MorseError::UnrecognizedSequence)
    } else {
        match units_of_bits(tok) {
            None => Err(MorseError::MalformedBitstream),
            Some(units) => match codec.spec_decode(units) {
                None => Err(MorseError::UnrecognizedSequence),
                Some(c) => Ok(MorseCharView { letter: c, units }),
            },
        }
    }
}

/// Decoding a list of character tokens, stopping at the first failure.
pub open spec fn parse_letters<C: CharacterCodec>(codec: C, toks: Seq<Seq<char>>) -> Result<
    Seq<MorseCharView>,
    MorseError,
>
    decreases toks.len(),
{
    if toks.len() == 0 {
        Ok(Seq::empty())
    } else {
        match parse_letter_tok(codec, toks.first()) {
            Err(e) => Err(e),
            Ok(c) => match parse_letters(codec, toks.drop_first()) {
                Err(e) => Err(e),
                Ok(rest) => Ok(seq![c] + rest),
            },
        }
    }
}

/// An empty token at the document's leading boundary is a zero-length run
/// before the first separator: skipped, not decoded.
pub open spec fn trim_lead(toks: Seq<Seq<char>>) -> Seq<Seq<char>> {
    if toks.len() > 0 && toks.first().len() == 0 {
        toks.drop_first()
    } else {
        toks
    }
}

/// Likewise at the document's trailing boundary.
pub open spec fn trim_trail(toks: Seq<Seq<char>>) -> Seq<Seq<char>> {
    if toks.len() > 0 && toks.last().len() == 0 {
        toks.drop_last()
    } else {
        toks
    }
}

/// Decoding one word of a bitstream: split on the three-zero separator,
/// skip boundary empties where the word touches a document boundary, then
/// decode each token.
pub open spec fn parse_word<C: CharacterCodec>(
    codec: C,
    w: Seq<char>,
    first: bool,
    last: bool,
) -> Result<Seq<MorseCharView>, MorseError> {
    let toks0 = split_on(w, zeros(3));
    let toks1 = if first {
        trim_lead(toks0)
    } else {
        toks0
    };
    let toks2 = if last {
        trim_trail(toks1)
    } else {
        toks1
    };
    parse_letters(codec, toks2)
}

/// The character unit standing for a recovered word boundary: a lone word
/// gap, decoded through the codec.
pub open spec fn gap_char_view<C: CharacterCodec>(codec: C) -> Option<MorseCharView> {
    match codec.spec_decode(seq![MorseUnit::Whitespace]) {
        None => None,
        Some(c) => Some(MorseCharView { letter: c, units: seq![MorseUnit::Whitespace] }),
    }
}

/// Decoding a list of words: each word's units, with one word-gap unit
/// between consecutive words.
pub open spec fn parse_words<C: CharacterCodec>(codec: C, ws: Seq<Seq<char>>, first: bool) -> Result<
    Seq<MorseCharView>,
    MorseError,
>
    decreases ws.len(),
{
    if ws.len() == 0 {
        Ok(Seq::empty())
    } else {
        match parse_word(codec, ws.first(), first, ws.len() == 1) {
            Err(e) => Err(e),
            Ok(cs) => if ws.len() == 1 {
                Ok(cs)
            } else {
                match gap_char_view(codec) {
                    None => Err(MorseError::UnrecognizedSequence),
                    Some(g) => match parse_words(codec, ws.drop_first(), false) {
                        Err(e) => Err(e),
                        Ok(rest) => Ok(cs + seq![g] + rest),
                    },
                }
            },
        }
    }
}

/// Decoding a whole bitstream: split on the seven-zero separator to
/// recover word boundaries, then decode each word.
pub open spec fn spec_parse_bits<C: CharacterCodec>(codec: C, bits: Seq<char>) -> Result<
    Seq<MorseCharView>,
    MorseError,
> {
    parse_words(codec, split_on(bits, zeros(7)), true)
}

/// The views of a sequence of character units.
pub open spec fn char_views(s: Seq<MorseChar>) -> Seq<MorseCharView> {
    s.map_values(|m: MorseChar| m@)
}

/// Mathematical image of a transcoder: its document, language label and
/// display aliases.
pub struct MorseView {
    pub chars: Seq<MorseCharView>,
    pub language: Seq<char>,
    pub display: DisplayView,
}

/// The transcoder root: an ordered document of character units, the active
/// language, display aliases, and the codec bound at construction.
///
/// The codec and language label are fixed at construction and never
/// change; aliases may change afterwards and affect rendering only.
#[derive(Debug)]
pub struct Morse<C: CharacterCodec> {
    morse: Vec<MorseChar>,
    language: String,
    display_as: DisplayChars,
    codec: C,
}

impl<C: CharacterCodec> View for Morse<C> {
    type V = MorseView;

    closed spec fn view(&self) -> MorseView {
        MorseView {
            chars: char_views(self.morse@),
            language: self.language@,
            display: self.display_as@,
        }
    }
}

impl<C: CharacterCodec> Morse<C> {
    /// The codec this transcoder was constructed with.
    pub closed spec fn spec_codec(&self) -> C {
        self.codec
    }

    /// All stored character units carry this transcoder's language label
    /// and their per-unit aliases as constructed.
    pub closed spec fn units_labelled(&self) -> bool {
        forall|j: int|
            0 <= j < self.morse@.len() ==> (#[trigger] self.morse@[j]).spec_language()
                == self.language@ && self.morse@[j].spec_display() == default_display()
    }

    /// Creates an unpopulated transcoder for any conforming codec.
    pub fn new(language: String, codec: C) -> (r: Morse<C>)
        ensures
            r@.chars == Seq::<MorseCharView>::empty(),
            r@.language == language@,
            r@.display == default_display(),
            r.spec_codec() == codec,
            r.units_labelled(),
    {
        let r = Morse {
            morse: Vec::new(),
            language,
            display_as: DisplayChars::default(),
            codec,
        };
        proof {
            assert(char_views(r.morse@) =~= Seq::<MorseCharView>::empty());
        }
        r
    }

    /// The stored language label.
    pub fn get_language(&self) -> (r: String)
        ensures
            r@ == self@.language,
    {
        self.language.clone()
    }

    /// Replaces the dot alias in rendered output.
    pub fn dot_as(&mut self, alias: &str)
        ensures
            final(self)@.chars == old(self)@.chars,
            final(self)@.language == old(self)@.language,
            final(self)@.display == (DisplayView { dot: alias@, ..old(self)@.display }),
            final(self).spec_codec() == old(self).spec_codec(),
            old(self).units_labelled() ==> final(self).units_labelled(),
    {
        self.display_as.dot = alias.to_owned();
    }

    /// Replaces the line alias in rendered output.
    pub fn line_as(&mut self, alias: &str)
        ensures
            final(self)@.chars == old(self)@.chars,
            final(self)@.language == old(self)@.language,
            final(self)@.display == (DisplayView { line: alias@, ..old(self)@.display }),
            final(self).spec_codec() == old(self).spec_codec(),
            old(self).units_labelled() ==> final(self).units_labelled(),
    {
        self.display_as.line = alias.to_owned();
    }

    /// Replaces the word-gap alias in rendered output.
    pub fn whitespace_as(&mut self, alias: &str)
        ensures
            final(self)@.chars == old(self)@.chars,
            final(self)@.language == old(self)@.language,
            final(self)@.display == (DisplayView { whitespace: alias@, ..old(self)@.display }),
            final(self).spec_codec() == old(self).spec_codec(),
            old(self).units_labelled() ==> final(self).units_labelled(),
    {
        self.display_as.whitespace = alias.to_owned();
    }

    /// The document's text: the decoded characters of all units in order.
    /// Its length equals the unit count.
    pub fn to_text(&self) -> (r: String)
        ensures
            r@ == letters_of(self@.chars),
            r@.len() == self@.chars.len(),
    {
        let ghost letters = letters_of(self@.chars);
        let mut s = String::new();
        let mut i: usize = 0;
        while i < self.morse.len()
            invariant
                0 <= i <= self.morse@.len(),
                letters == letters_of(self@.chars),
                self@.chars == char_views(self.morse@),
                letters.len() == self.morse@.len(),
                s@ == letters.take(i as int),
            decreases self.morse@.len() - i,
        {
            let c = self.morse[i].get_letter();
            push_char(&mut s, c);
            proof {
                assert(self@.chars[i as int] == self.morse@[i as int]@);
                assert(letters[i as int] == self@.chars[i as int].letter);
                assert(letters.take(i as int).push(letters[i as int]) =~= letters.take(i + 1));
            }
            i = i + 1;
        }
        proof {
            assert(letters.take(letters.len() as int) =~= letters);
        }
        s
    }

    /// The document's binary digits: each unit's digits joined by the
    /// three-zero inter-character separator.
    pub fn to_bin_str(&self) -> (r: String)
        ensures
            r@ == doc_bits(self@.chars),
    {
        let ghost parts = self@.chars.map_values(|c: MorseCharView| char_bits(c.units));
        let mut s = String::new();
        let mut i: usize = 0;
        while i < self.morse.len()
            invariant
                0 <= i <= self.morse@.len(),
                parts == self@.chars.map_values(|c: MorseCharView| char_bits(c.units)),
                self@.chars == char_views(self.morse@),
                parts.len() == self.morse@.len(),
                s@ == join_with(parts.take(i as int), zeros(3)),
            decreases self.morse@.len() - i,
        {
            let ghost sold = s@;
            if i > 0 {
                push_char(&mut s, '0');
                push_char(&mut s, '0');
                push_char(&mut s, '0');
            }
            let part = self.morse[i].to_bin_str();
            s.append(part.as_str());
            proof {
                let g = parts[i as int];
                assert(self@.chars[i as int] == self.morse@[i as int]@);
                assert(g == char_bits(self@.chars[i as int].units));
                assert(part@ == g);
                if i == 0 {
                    assert(parts.take(1) =~= seq![parts[0]]);
                    assert(join_with(seq![parts[0]], zeros(3)) == parts[0]);
                    assert(sold + g =~= g);
                } else {
                    crate::bits::lemma_join_snoc(parts.take(i as int), g, zeros(3));
                    assert(parts.take(i as int).push(g) =~= parts.take(i + 1));
                    assert(sold.push('0').push('0').push('0') =~= sold + zeros(3));
                    assert(sold.push('0').push('0').push('0') + g =~= (sold + zeros(3)) + g);
                }
            }
            i = i + 1;
        }
        proof {
            assert(parts.take(parts.len() as int) =~= parts);
        }
        s
    }

    /// The document's rendering under the current aliases: glyphs joined
    /// by one space inside a unit and three spaces between units — exactly
    /// those separators, whatever the aliases hold.
    pub fn to_string(&self) -> (r: String)
        ensures
            r@ == render_doc(self@.chars, self@.display),
    {
        let ghost d = self@.display;
        let ghost parts = self@.chars.map_values(|c: MorseCharView| render_units(c.units, d));
        let mut s = String::new();
        let mut i: usize = 0;
        while i < self.morse.len()
            invariant
                0 <= i <= self.morse@.len(),
                d == self@.display,
                self@.display == self.display_as@,
                parts == self@.chars.map_values(|c: MorseCharView| render_units(c.units, d)),
                self@.chars == char_views(self.morse@),
                parts.len() == self.morse@.len(),
                s@ == join_with(parts.take(i as int), seq![' ', ' ', ' ']),
            decreases self.morse@.len() - i,
        {
            let ghost sold = s@;
            if i > 0 {
                push_char(&mut s, ' ');
                push_char(&mut s, ' ');
                push_char(&mut s, ' ');
            }
            let part = self.morse[i].render_with(&self.display_as);
            s.append(part.as_str());
            proof {
                let g = parts[i as int];
                assert(self@.chars[i as int] == self.morse@[i as int]@);
                assert(g == render_units(self@.chars[i as int].units, d));
                assert(part@ == g);
                if i == 0 {
                    assert(parts.take(1) =~= seq![parts[0]]);
                    assert(join_with(seq![parts[0]], seq![' ', ' ', ' ']) == parts[0]);
                    assert(sold + g =~= g);
                } else {
                    crate::bits::lemma_join_snoc(parts.take(i as int), g, seq![' ', ' ', ' ']);
                    assert(parts.take(i as int).push(g) =~= parts.take(i + 1));
                    assert(sold.push(' ').push(' ').push(' ') =~= sold + seq![' ', ' ', ' ']);
                    assert(sold.push(' ').push(' ').push(' ') + g =~= (sold + seq![' ', ' ', ' '])
                        + g);
                }
            }
            i = i + 1;
        }
        proof {
            assert(parts.take(parts.len() as int) =~= parts);
        }
        s
    }

    /// The document's playback commands: each unit's commands with three
    /// units of silence between consecutive units.
    pub fn audio_commands(&self) -> (r: Vec<AudioCommand>)
        ensures
            r@ == doc_commands(self@.chars),
    {
        let ghost parts = self@.chars.map_values(|c: MorseCharView| char_commands(c.units));
        let mut cmds: Vec<AudioCommand> = Vec::new();
        let mut i: usize = 0;
        while i < self.morse.len()
            invariant
                0 <= i <= self.morse@.len(),
                parts == self@.chars.map_values(|c: MorseCharView| char_commands(c.units)),
                self@.chars == char_views(self.morse@),
                parts.len() == self.morse@.len(),
                cmds@ == join_with(parts.take(i as int), seq![AudioCommand::Silence(3)]),
            decreases self.morse@.len() - i,
        {
            let ghost cold = cmds@;
            if i > 0 {
                cmds.push(AudioCommand::Silence(3));
            }
            let mut part = self.morse[i].audio_commands();
            let ghost partv = part@;
            cmds.append(&mut part);
            proof {
                let g = parts[i as int];
                assert(self@.chars[i as int] == self.morse@[i as int]@);
                assert(g == char_commands(self@.chars[i as int].units));
                assert(partv == g);
                if i == 0 {
                    assert(parts.take(1) =~= seq![parts[0]]);
                    assert(join_with(seq![parts[0]], seq![AudioCommand::Silence(3)]) == parts[0]);
                    assert(cold + g =~= g);
                } else {
                    crate::bits::lemma_join_snoc(
                        parts.take(i as int),
                        g,
                        seq![AudioCommand::Silence(3)],
                    );
                    assert(parts.take(i as int).push(g) =~= parts.take(i + 1));
                    assert(cold.push(AudioCommand::Silence(3)) + g =~= (cold + seq![
                        AudioCommand::Silence(3),
                    ]) + g);
                }
            }
            i = i + 1;
        }
        proof {
            assert(parts.take(parts.len() as int) =~= parts);
        }
        cmds
    }
}

/// Encodes a whole text under the given codec, left to right, stopping at
/// the first unsupported character.  Each created unit carries the given
/// language label and default aliases.
fn encode_text<C: CharacterCodec>(codec: &C, language: &str, textv: &Vec<char>) -> (r: Result<
    Vec<MorseChar>,
    MorseError,
>)
    ensures
        match r {
            Ok(v) => spec_from_text(*codec, textv@) == Some(char_views(v@)) && (forall|j: int|
                0 <= j < v@.len() ==> (#[trigger] v@[j]).spec_language() == language@
                    && v@[j].spec_display() == default_display()),
            Err(e) => spec_from_text(*codec, textv@) is None && e
                == MorseError::UnsupportedCharacter,
        },
{
    let mut out: Vec<MorseChar> = Vec::new();
    let mut i: usize = 0;
    proof {
        assert(textv@.skip(0) =~= textv@);
        match spec_from_text(*codec, textv@) {
            None => {},
            Some(rest) => {
                assert(char_views(out@) + rest =~= rest);
            },
        }
    }
    while i < textv.len()
        invariant
            0 <= i <= textv@.len(),
            spec_from_text(*codec, textv@) == (match spec_from_text(
                *codec,
                textv@.skip(i as int),
            ) {
                None => None::<Seq<MorseCharView>>,
                Some(rest) => Some(char_views(out@) + rest),
            }),
            forall|j: int|
                0 <= j < out@.len() ==> (#[trigger] out@[j]).spec_language() == language@
                    && out@[j].spec_display() == default_display(),
        decreases textv@.len() - i,
    {
        let c = textv[i];
        proof {
            assert(textv@.skip(i as int).first() == textv@[i as int]);
        }
        match MorseChar::from_char(c, language, codec) {
            Err(e) => {
                proof {
                    assert(spec_from_text(*codec, textv@.skip(i as int)) is None);
                }
                return Err(e);
            },
            Ok(mc) => {
                let ghost oldv = out@;
                out.push(mc);
                proof {
                    assert(textv@.skip(i as int).drop_first() =~= textv@.skip(i + 1));
                    assert(char_views(out@) =~= char_views(oldv).push(mc@));
                    let head = MorseCharView {
                        letter: codec.spec_canon(textv@[i as int]),
                        units: codec.spec_code(textv@[i as int]),
                    };
                    assert(mc@ == head);
                    match spec_from_text(*codec, textv@.skip(i + 1)) {
                        None => {},
                        Some(rest) => {
                            assert(spec_from_text(*codec, textv@.skip(i as int)) == Some(
                                seq![head] + rest,
                            ));
                            assert(char_views(oldv) + (seq![head] + rest) =~= char_views(
                                oldv,
                            ).push(mc@) + rest);
                        },
                    }
                }
                i = i + 1;
            },
        }
    }
    proof {
        assert(textv@.skip(textv@.len() as int).len() == 0);
        assert(char_views(out@) + Seq::<MorseCharView>::empty() =~= char_views(out@));
    }
    Ok(out)
}

impl<C: CharacterCodec> Morse<C> {
    /// Appends the encoding of `text` to the document, atomically: on an
    /// unsupported character nothing is appended and the error names it.
    pub fn parse_text(&mut self, text: &str) -> (r: Result<(), MorseError>)
        ensures
            final(self)@.language == old(self)@.language,
            final(self)@.display == old(self)@.display,
            final(self).spec_codec() == old(self).spec_codec(),
            old(self).units_labelled() ==> final(self).units_labelled(),
            match spec_from_text(old(self).spec_codec(), text@) {
                Some(cs) => r is Ok && final(self)@.chars == old(self)@.chars + cs,
                None => r == Err::<(), MorseError>(MorseError::UnsupportedCharacter)
                    && final(self)@.chars == old(self)@.chars,
            },
    {
        let cs = chars_of(text);
        let mut fresh = match encode_text(&self.codec, self.language.as_str(), &cs) {
            Ok(v) => v,
            Err(e) => { return Err(e); },
        };
        let ghost freshv = fresh@;
        let ghost oldm = self.morse@;
        self.morse.append(&mut fresh);
        proof {
            assert(char_views(self.morse@) =~= char_views(oldm) + char_views(freshv));
        }
        Ok(())
    }
}

/// Builds the character unit that stands for a recovered word boundary.
fn word_gap_char<C: CharacterCodec>(codec: &C, language: &str) -> (r: Result<MorseChar, MorseError>)
    ensures
        match r {
            Ok(mc) => gap_char_view(*codec) == Some(mc@) && mc.spec_language() == language@
                && mc.spec_display() == default_display(),
            Err(e) => gap_char_view(*codec) is None && e == MorseError::UnrecognizedSequence,
        },
{
    let mut units: Vec<MorseUnit> = Vec::new();
    units.push(MorseUnit::Whitespace);
    proof {
        assert(units@ =~= seq![MorseUnit::Whitespace]);
    }
    let decoded = match codec.decode(&units) {
        Ok(c) => c,
        Err(e) => { return Err(e); },
    };
    Ok(MorseChar::from_parts(units, decoded, language))
}

/// Decodes one word of a bitstream: character tokens split on three
/// zeros, boundary empties skipped where the word touches a document
/// boundary, each token parsed and decoded.  Stops at the first failure.
#[verifier::rlimit(100)]
#[verifier::loop_isolation(false)]
fn decode_word<C: CharacterCodec>(
    codec: &C,
    language: &str,
    word: &Vec<char>,
    first: bool,
    last: bool,
) -> (r: Result<Vec<MorseChar>, MorseError>)
    ensures
        match r {
            Ok(v) => parse_word(*codec, word@, first, last) == Ok::<Seq<MorseCharView>, MorseError>(
                char_views(v@),
            ) && (forall|j: int|
                0 <= j < v@.len() ==> (#[trigger] v@[j]).spec_language() == language@
                    && v@[j].spec_display() == default_display()),
            Err(e) => parse_word(*codec, word@, first, last) == Err::<
                Seq<MorseCharView>,
                MorseError,
            >(e),
        },
{
    let letters = split_zeros_from(word, 0, 3);
    let ghost ltv = views_of(letters@);
    proof {
        assert(word@.skip(0) =~= word@);
        assert(ltv == split_on(word@, zeros(3)));
    }
    let n = letters.len();
    let mut lo: usize = 0;
    if first && letters[0].len() == 0 {
        lo = 1;
    }
    let mut hi: usize = n;
    if last && hi > lo && letters[hi - 1].len() == 0 {
        hi = hi - 1;
    }
    let ghost toks2 = ltv.subrange(lo as int, hi as int);
    proof {
        let toks1s = if first {
            trim_lead(ltv)
        } else {
            ltv
        };
        let toks2s = if last {
            trim_trail(toks1s)
        } else {
            toks1s
        };
        assert(toks1s =~= ltv.subrange(lo as int, n as int));
        assert(toks2s =~= toks2);
        assert(parse_word(*codec, word@, first, last) == parse_letters(*codec, toks2));
    }
    let mut wout: Vec<MorseChar> = Vec::new();
    let mut l: usize = lo;
    proof {
        assert(toks2.skip(0) =~= toks2);
        match parse_letters(*codec, toks2) {
            Err(e) => {},
            Ok(rest) => {
                assert(char_views(wout@) + rest =~= rest);
            },
        }
    }
    while l < hi
        invariant
            lo <= l <= hi,
            forall|j: int|
                0 <= j < wout@.len() ==> (#[trigger] wout@[j]).spec_language() == language@
                    && wout@[j].spec_display() == default_display(),
            parse_letters(*codec, toks2) == (match parse_letters(*codec, toks2.skip(l - lo)) {
                Err(e) => Err::<Seq<MorseCharView>, MorseError>(e),
                Ok(rest) => Ok(char_views(wout@) + rest),
            }),
        decreases hi - l,
    {
        let tok = &letters[l];
        proof {
            assert(toks2.skip((l - lo) as int).first() == toks2[(l - lo) as int]);
            assert(toks2[(l - lo) as int] == ltv[l as int]);
            assert(ltv[l as int] == letters@[l as int]@);
        }
        if tok.len() == 0 {
            proof {
                assert(parse_letter_tok(*codec, tok@) == Err::<MorseCharView, MorseError>(
                    MorseError::UnrecognizedSequence,
                ));
                assert(parse_letters(*codec, toks2.skip((l - lo) as int)) == Err::<
                    Seq<MorseCharView>,
                    MorseError,
                >(MorseError::UnrecognizedSequence));
            }
            return Err(MorseError::UnrecognizedSequence);
        }
        let units = match morse_processors::units_of_token(tok) {
            Ok(u) => u,
            Err(e) => {
                proof {
                    assert(parse_letter_tok(*codec, tok@) == Err::<MorseCharView, MorseError>(e));
                    assert(parse_letters(*codec, toks2.skip((l - lo) as int)) == Err::<
                        Seq<MorseCharView>,
                        MorseError,
                    >(e));
                }
                return Err(e);
            },
        };
        let decoded = match codec.decode(&units) {
            Ok(c) => c,
            Err(e) => {
                proof {
                    assert(parse_letter_tok(*codec, tok@) == Err::<MorseCharView, MorseError>(e));
                    assert(parse_letters(*codec, toks2.skip((l - lo) as int)) == Err::<
                        Seq<MorseCharView>,
                        MorseError,
                    >(e));
                }
                return Err(e);
            },
        };
        let mc = MorseChar::from_parts(units, decoded, language);
        let ghost woldv = wout@;
        wout.push(mc);
        proof {
            assert(parse_letter_tok(*codec, tok@) == Ok::<MorseCharView, MorseError>(mc@));
            assert(toks2.skip((l - lo) as int).drop_first() =~= toks2.skip(l + 1 - lo));
            assert(char_views(wout@) =~= char_views(woldv).push(mc@));
            match parse_letters(*codec, toks2.skip(l + 1 - lo)) {
                Err(e) => {},
                Ok(rest) => {
                    assert(parse_letters(*codec, toks2.skip((l - lo) as int)) == Ok::<
                        Seq<MorseCharView>,
                        MorseError,
                    >(seq![mc@] + rest));
                    assert(char_views(woldv) + (seq![mc@] + rest) =~= char_views(woldv).push(mc@)
                        + rest);
                },
            }
        }
        l = l + 1;
    }
    proof {
        assert(toks2.skip((hi - lo) as int).len() == 0);
        assert(char_views(wout@) + Seq::<MorseCharView>::empty() =~= char_views(wout@));
    }
    Ok(wout)
}

/// Decodes a whole bitstream under the given codec: words split on seven
/// zeros, one word-gap unit between recovered words.  Stops at the first
/// failure.
#[verifier::rlimit(100)]
#[verifier::loop_isolation(false)]
fn decode_bits<C: CharacterCodec>(codec: &C, language: &str, bin: &str) -> (r: Result<
    Vec<MorseChar>,
    MorseError,
>)
    ensures
        match r {
            Ok(v) => spec_parse_bits(*codec, bin@) == Ok::<Seq<MorseCharView>, MorseError>(
                char_views(v@),
            ) && (forall|j: int|
                0 <= j < v@.len() ==> (#[trigger] v@[j]).spec_language() == language@
                    && v@[j].spec_display() == default_display()),
            Err(e) => spec_parse_bits(*codec, bin@) == Err::<Seq<MorseCharView>, MorseError>(e),
        },
{
    let cs = chars_of(bin);
    let words = split_zeros_from(&cs, 0, 7);
    let ghost wsv = views_of(words@);
    proof {
        assert(cs@.skip(0) =~= cs@);
        assert(wsv == split_on(bin@, zeros(7)));
    }
    let mut out: Vec<MorseChar> = Vec::new();
    let nw = words.len();
    let mut w: usize = 0;
    proof {
        assert(wsv.skip(0) =~= wsv);
        match parse_words(*codec, wsv, true) {
            Err(e) => {},
            Ok(rest) => {
                assert(char_views(out@) + rest =~= rest);
            },
        }
    }
    while w < nw
        invariant
            0 <= w <= nw,
            forall|j: int|
                0 <= j < out@.len() ==> (#[trigger] out@[j]).spec_language() == language@
                    && out@[j].spec_display() == default_display(),
            parse_words(*codec, wsv, true) == (match parse_words(
                *codec,
                wsv.skip(w as int),
                w == 0,
            ) {
                Err(e) => Err::<Seq<MorseCharView>, MorseError>(e),
                Ok(rest) => Ok(char_views(out@) + rest),
            }),
        decreases nw - w,
    {
        let first = w == 0;
        let last = w + 1 == nw;
        proof {
            assert(wsv.skip(w as int).first() == wsv[w as int]);
            assert(wsv[w as int] == words@[w as int]@);
            assert((wsv.skip(w as int).len() == 1) == last);
        }
        let mut wout = match decode_word(codec, language, &words[w], first, last) {
            Ok(v) => v,
            Err(e) => {
                proof {
                    assert(parse_words(*codec, wsv.skip(w as int), w == 0) == Err::<
                        Seq<MorseCharView>,
                        MorseError,
                    >(e));
                }
                return Err(e);
            },
        };
        let ghost woutv = wout@;
        let ghost outv_old = out@;
        out.append(&mut wout);
        proof {
            assert(char_views(out@) =~= char_views(outv_old) + char_views(woutv));
        }
        if !last {
            let g = match word_gap_char(codec, language) {
                Ok(g) => g,
                Err(e) => {
                    proof {
                        assert(parse_words(*codec, wsv.skip(w as int), w == 0) == Err::<
                            Seq<MorseCharView>,
                            MorseError,
                        >(e));
                    }
                    return Err(e);
                },
            };
            let ghost outv_mid = out@;
            out.push(g);
            proof {
                assert(char_views(out@) =~= char_views(outv_mid).push(g@));
                assert(wsv.skip(w as int).drop_first() =~= wsv.skip(w + 1));
                match parse_words(*codec, wsv.skip(w + 1), false) {
                    Err(e) => {},
                    Ok(rest) => {
                        assert(parse_words(*codec, wsv.skip(w as int), w == 0) == Ok::<
                            Seq<MorseCharView>,
                            MorseError,
                        >(char_views(woutv) + seq![g@] + rest));
                        assert(char_views(outv_old) + (char_views(woutv) + seq![g@] + rest)
                            =~= char_views(outv_mid).push(g@) + rest);
                    },
                }
            }
        } else {
            proof {
                assert(parse_words(*codec, wsv.skip(w as int), w == 0) == Ok::<
                    Seq<MorseCharView>,
                    MorseError,
                >(char_views(woutv)));
                assert(wsv.skip(w + 1).len() == 0);
                assert(char_views(outv_old) + char_views(woutv) =~= char_views(out@));
                assert(char_views(out@) + Seq::<MorseCharView>::empty() =~= char_views(out@));
            }
        }
        w = w + 1;
    }
    proof {
        assert(wsv.skip(nw as int).len() == 0);
        assert(char_views(out@) + Seq::<MorseCharView>::empty() =~= char_views(out@));
    }
    Ok(out)
}

impl<C: CharacterCodec> Morse<C> {
    /// Appends the decoding of `bin` to the document, atomically: on a
    /// malformed or unrecognized bitstream nothing is appended.
    pub fn parse_bin(&mut self, bin: &str) -> (r: Result<(), MorseError>)
        ensures
            final(self)@.language == old(self)@.language,
            final(self)@.display == old(self)@.display,
            final(self).spec_codec() == old(self).spec_codec(),
            old(self).units_labelled() ==> final(self).units_labelled(),
            match spec_parse_bits(old(self).spec_codec(), bin@) {
                Ok(cs) => r is Ok && final(self)@.chars == old(self)@.chars + cs,
                Err(e) => r == Err::<(), MorseError>(e) && final(self)@.chars == old(self)@.chars,
            },
    {
        let mut fresh = match decode_bits(&self.codec, self.language.as_str(), bin) {
            Ok(v) => v,
            Err(e) => { return Err(e); },
        };
        let ghost freshv = fresh@;
        let ghost oldm = self.morse@;
        self.morse.append(&mut fresh);
        proof {
            assert(char_views(self.morse@) =~= char_views(oldm) + char_views(freshv));
        }
        Ok(())
    }
}

impl Morse<International> {
    /// Creates an International transcoder from text.  Fails atomically at
    /// the first unsupported character: no transcoder is produced then.
    pub fn from_int_text(text: &str) -> (r: Result<Morse<International>, MorseError>)
        ensures
            match r {
                Ok(m) => spec_from_text(International, text@) == Some(m@.chars) && m@.language
                    == "International"@ && m@.display == default_display() && m.spec_codec()
                    == International && m.units_labelled(),
                Err(e) => spec_from_text(International, text@) is None && e
                    == MorseError::UnsupportedCharacter,
            },
    {
        let mut m: Morse<International> = Default::default();
        match m.parse_text(text) {
            Ok(u) => {
                proof {
                    match spec_from_text(International, text@) {
                        None => {},
                        Some(cs) => {
                            assert(Seq::<MorseCharView>::empty() + cs =~= cs);
                        },
                    }
                }
                Ok(m)
            },
            Err(e) => Err(e),
        }
    }

    /// Creates an International transcoder from a bitstream.  Fails
    /// atomically at the first malformed token or unrecognized sequence.
    pub fn from_int_bin(bin: &str) -> (r: Result<Morse<International>, MorseError>)
        ensures
            match r {
                Ok(m) => spec_parse_bits(International, bin@) == Ok::<
                    Seq<MorseCharView>,
                    MorseError,
                >(m@.chars) && m@.language == "International"@ && m@.display == default_display()
                    && m.spec_codec() == International && m.units_labelled(),
                Err(e) => spec_parse_bits(International, bin@) == Err::<
                    Seq<MorseCharView>,
                    MorseError,
                >(e),
            },
    {
        let mut m: Morse<International> = Default::default();
        match m.parse_bin(bin) {
            Ok(u) => {
                proof {
                    match spec_parse_bits(International, bin@) {
                        Err(e) => {},
                        Ok(cs) => {
                            assert(Seq::<MorseCharView>::empty() + cs =~= cs);
                        },
                    }
                }
                Ok(m)
            },
            Err(e) => Err(e),
        }
    }
}

impl Default for Morse<International> {
    /// An unpopulated International transcoder with default aliases.
    fn default() -> (r: Morse<International>)
        ensures
            r@.chars == Seq::<MorseCharView>::empty(),
            r@.language == "International"@,
            r@.display == default_display(),
            r.spec_codec() == International,
            r.units_labelled(),
    {
        Morse::new("International".to_owned(), International)
    }
}

} // verus!
