//! A character unit: one transcoded character paired with its symbol
//! sequence, the language label it was made under, and its own display
//! aliases.

use crate::bits::char_bits;
use crate::bits::join_with;
use crate::bits::unit_bits;
use crate::bits::units_of_bits;
use crate::bits::zeros;
use crate::codec::CharacterCodec;
use crate::display_chars::default_display;
use crate::display_chars::DisplayChars;
use crate::display_chars::DisplayView;
use crate::errors::MorseError;
use crate::morse_processors::units_of_token;
use crate::morse_unit::MorseUnit;
use crate::sound::char_commands;
use crate::sound::unit_command;
use crate::sound::AudioCommand;
use crate::text::chars_of;
use crate::text::push_char;
use vstd::prelude::*;
use vstd::string::StringExecFns;

verus! {

/// Mathematical image of a character unit: the decoded character and its
/// symbols.  Order within the symbol sequence is significant.
pub struct MorseCharView {
    pub letter: char,
    pub units: Seq<MorseUnit>,
}

/// The glyph one symbol renders as under the given aliases.
pub open spec fn unit_glyph(d: DisplayView, u: MorseUnit) -> Seq<char> {
    match u {
        MorseUnit::Dot => d.dot,
        MorseUnit::Line => d.line,
        MorseUnit::Whitespace => d.whitespace,
    }
}

/// The rendering of one character unit: its symbols' glyphs joined by
/// exactly one literal space, whatever the aliases hold.
pub open spec fn render_units(units: Seq<MorseUnit>, d: DisplayView) -> Seq<char> {
    join_with(units.map_values(|u: MorseUnit| unit_glyph(d, u)), seq![' '])
}

/// One character of a document together with its Morse symbol sequence.
/// The symbols and the character are fixed at construction; only display
/// aliases may change afterwards, and they never touch the symbols.
#[derive(Debug, Clone)]
pub struct MorseChar {
    m_char: Vec<MorseUnit>,
    letter: char,
    language: String,
    display_as: DisplayChars,
}

impl View for MorseChar {
    type V = MorseCharView;

    closed spec fn view(&self) -> MorseCharView {
        MorseCharView { letter: self.letter, units: self.m_char@ }
    }
}

impl MorseChar {
    /// The language label this unit was made under.
    pub closed spec fn spec_language(&self) -> Seq<char> {
        self.language@
    }

    /// The unit's own display aliases.
    pub closed spec fn spec_display(&self) -> DisplayView {
        self.display_as@
    }

    /// Builds a unit from already-decoded parts, with default aliases.
    pub(crate) fn from_parts(units: Vec<MorseUnit>, letter: char, language: &str) -> (r: MorseChar)
        ensures
            r@.units == units@,
            r@.letter == letter,
            r.spec_language() == language@,
            r.spec_display() == default_display(),
    {
        MorseChar {
            m_char: units,
            letter,
            language: language.to_owned(),
            display_as: DisplayChars::default(),
        }
    }

    /// Encodes one character under the given codec.  The decoded character
    /// stored in the unit is the codec's canonical form of the input.
    pub fn from_char<C: CharacterCodec>(letter: char, language: &str, codec: &C) -> (r: Result<
        MorseChar,
        MorseError,
    >)
        ensures
            match r {
                Ok(mc) => codec.spec_supported(letter) && mc@.units == codec.spec_code(letter)
                    && mc@.letter == codec.spec_canon(letter) && mc.spec_language() == language@
                    && mc.spec_display() == default_display(),
                Err(e) => !codec.spec_supported(letter) && e == MorseError::UnsupportedCharacter,
            },
    {
        let units = match codec.encode(letter) {
            Ok(units) => units,
            Err(e) => { return Err(e); },
        };
        proof {
            codec.lemma_roundtrip(letter);
        }
        let decoded = match codec.decode(&units) {
            Ok(c) => c,
            Err(e) => { return Err(e); },
        };
        Ok(
            MorseChar {
                m_char: units,
                letter: decoded,
                language: language.to_owned(),
                display_as: DisplayChars::default(),
            },
        )
    }

    /// Parses the digit string of one character unit, then decodes the
    /// symbols under the given codec.
    pub fn from_bin<C: CharacterCodec>(letter: &str, language: &str, codec: &C) -> (r: Result<
        MorseChar,
        MorseError,
    >)
        ensures
            match r {
                Ok(mc) => units_of_bits(letter@) == Some(mc@.units) && codec.spec_decode(mc@.units)
                    == Some(mc@.letter) && mc.spec_language() == language@ && mc.spec_display()
                    == default_display(),
                Err(e) => match units_of_bits(letter@) {
                    None => e == MorseError::MalformedBitstream,
                    Some(units) => codec.spec_decode(units) is None && e
                        == MorseError::UnrecognizedSequence,
                },
            },
    {
        let cs = chars_of(letter);
        let units = match units_of_token(&cs) {
            Ok(units) => units,
            Err(e) => { return Err(e); },
        };
        let decoded = match codec.decode(&units) {
            Ok(c) => c,
            Err(e) => { return Err(e); },
        };
        Ok(
            MorseChar {
                m_char: units,
                letter: decoded,
                language: language.to_owned(),
                display_as: DisplayChars::default(),
            },
        )
    }

    /// The unit's binary digits: `"1"` per dot, `"111"` per line, `"0"`
    /// per word gap, with one `'0'` between consecutive symbols.
    pub fn to_bin_str(&self) -> (r: String)
        ensures
            r@ == char_bits(self@.units),
    {
        let ghost toks = self@.units.map_values(|u: MorseUnit| unit_bits(u));
        let mut s = String::new();
        let mut i: usize = 0;
        while i < self.m_char.len()
            invariant
                0 <= i <= self.m_char@.len(),
                toks == self@.units.map_values(|u: MorseUnit| unit_bits(u)),
                self@.units == self.m_char@,
                s@ == join_with(toks.take(i as int), zeros(1)),
            decreases self.m_char@.len() - i,
        {
            let ghost sold = s@;
            if i > 0 {
                push_char(&mut s, '0');
            }
            let u = self.m_char[i];
            push_unit_bits(&mut s, u);
            proof {
                assert(toks[i as int] == unit_bits(u));
                if i == 0 {
                    assert(toks.take(1) =~= seq![toks[0]]);
                    assert(join_with(seq![toks[0]], zeros(1)) == toks[0]);
                    assert(sold + unit_bits(u) =~= unit_bits(u));
                } else {
                    crate::bits::lemma_join_snoc(toks.take(i as int), toks[i as int], zeros(1));
                    assert(toks.take(i as int).push(toks[i as int]) =~= toks.take(i + 1));
                    assert(sold.push('0') =~= sold + zeros(1));
                    assert(sold.push('0') + unit_bits(u) =~= (sold + zeros(1)) + unit_bits(u));
                }
            }
            i = i + 1;
        }
        proof {
            assert(toks.take(toks.len() as int) =~= toks);
        }
        s
    }

    /// The unit's rendering under the given aliases: one glyph per symbol,
    /// one literal space between consecutive glyphs.
    pub(crate) fn render_with(&self, d: &DisplayChars) -> (r: String)
        ensures
            r@ == render_units(self@.units, d@),
    {
        let ghost glyphs = self@.units.map_values(|u: MorseUnit| unit_glyph(d@, u));
        let mut s = String::new();
        let mut i: usize = 0;
        while i < self.m_char.len()
            invariant
                0 <= i <= self.m_char@.len(),
                glyphs == self@.units.map_values(|u: MorseUnit| unit_glyph(d@, u)),
                self@.units == self.m_char@,
                s@ == join_with(glyphs.take(i as int), seq![' ']),
            decreases self.m_char@.len() - i,
        {
            let ghost sold = s@;
            if i > 0 {
                push_char(&mut s, ' ');
            }
            match self.m_char[i] {
                MorseUnit::Dot => s.append(d.dot.as_str()),
                MorseUnit::Line => s.append(d.line.as_str()),
                MorseUnit::Whitespace => s.append(d.whitespace.as_str()),
            }
            proof {
                let g = glyphs[i as int];
                assert(g == unit_glyph(d@, self@.units[i as int]));
                if i == 0 {
                    assert(glyphs.take(1) =~= seq![glyphs[0]]);
                    assert(join_with(seq![glyphs[0]], seq![' ']) == glyphs[0]);
                    assert(sold + g =~= g);
                } else {
                    crate::bits::lemma_join_snoc(glyphs.take(i as int), g, seq![' ']);
                    assert(glyphs.take(i as int).push(g) =~= glyphs.take(i + 1));
                    assert(sold.push(' ') =~= sold + seq![' ']);
                    assert(sold.push(' ') + g =~= (sold + seq![' ']) + g);
                }
            }
            i = i + 1;
        }
        proof {
            assert(glyphs.take(glyphs.len() as int) =~= glyphs);
        }
        s
    }

    /// The unit's rendering under its own aliases.
    pub fn to_string(&self) -> (r: String)
        ensures
            r@ == render_units(self@.units, self.spec_display()),
    {
        self.render_with(&self.display_as)
    }

    /// The unit's playback: one command per symbol, one unit of silence
    /// between consecutive symbols.
    pub fn audio_commands(&self) -> (r: Vec<AudioCommand>)
        ensures
            r@ == char_commands(self@.units),
    {
        let ghost parts = self@.units.map_values(|u: MorseUnit| seq![unit_command(u)]);
        let mut cmds: Vec<AudioCommand> = Vec::new();
        let mut i: usize = 0;
        while i < self.m_char.len()
            invariant
                0 <= i <= self.m_char@.len(),
                parts == self@.units.map_values(|u: MorseUnit| seq![unit_command(u)]),
                self@.units == self.m_char@,
                cmds@ == join_with(parts.take(i as int), seq![AudioCommand::Silence(1)]),
            decreases self.m_char@.len() - i,
        {
            let ghost cold = cmds@;
            if i > 0 {
                cmds.push(AudioCommand::Silence(1));
            }
            let u = self.m_char[i];
            match u {
                MorseUnit::Dot => cmds.push(AudioCommand::Tone(1)),
                MorseUnit::Line => cmds.push(AudioCommand::Tone(3)),
                MorseUnit::Whitespace => cmds.push(AudioCommand::Silence(1)),
            }
            proof {
                let g = parts[i as int];
                assert(g == seq![unit_command(u)]);
                if i == 0 {
                    assert(parts.take(1) =~= seq![parts[0]]);
                    assert(join_with(seq![parts[0]], seq![AudioCommand::Silence(1)]) == parts[0]);
                    assert(cold.push(unit_command(u)) =~= g);
                } else {
                    crate::bits::lemma_join_snoc(
                        parts.take(i as int),
                        g,
                        seq![AudioCommand::Silence(1)],
                    );
                    assert(parts.take(i as int).push(g) =~= parts.take(i + 1));
                    assert(cold.push(AudioCommand::Silence(1)).push(unit_command(u)) =~= (cold
                        + seq![AudioCommand::Silence(1)]) + g);
                }
            }
            i = i + 1;
        }
        proof {
            assert(parts.take(parts.len() as int) =~= parts);
        }
        cmds
    }

    /// Replaces the dot alias.  Symbols, letter and language stay as they
    /// are.
    pub fn dot_as(&mut self, alias: &str)
        ensures
            final(self)@ == old(self)@,
            final(self).spec_language() == old(self).spec_language(),
            final(self).spec_display() == (DisplayView {
                dot: alias@,
                ..old(self).spec_display()
            }),
    {
        self.display_as.dot = alias.to_owned();
    }

    /// Replaces the line alias.
    pub fn line_as(&mut self, alias: &str)
        ensures
            final(self)@ == old(self)@,
            final(self).spec_language() == old(self).spec_language(),
            final(self).spec_display() == (DisplayView {
                line: alias@,
                ..old(self).spec_display()
            }),
    {
        self.display_as.line = alias.to_owned();
    }

    /// Replaces the word-gap alias.
    pub fn whitespace_as(&mut self, alias: &str)
        ensures
            final(self)@ == old(self)@,
            final(self).spec_language() == old(self).spec_language(),
            final(self).spec_display() == (DisplayView {
                whitespace: alias@,
                ..old(self).spec_display()
            }),
    {
        self.display_as.whitespace = alias.to_owned();
    }

    /// The decoded character this unit stands for.
    pub fn get_letter(&self) -> (r: char)
        ensures
            r == self@.letter,
    {
        self.letter
    }
}

/// Appends the binary digits of one symbol.
fn push_unit_bits(s: &mut String, u: MorseUnit)
    ensures
        final(s)@ == old(s)@ + unit_bits(u),
{
    match u {
        MorseUnit::Dot => {
            push_char(s, '1');
            proof {
                assert(old(s)@.push('1') =~= old(s)@ + unit_bits(u));
            }
        },
        MorseUnit::Line => {
            push_char(s, '1');
            push_char(s, '1');
            push_char(s, '1');
            proof {
                assert(old(s)@.push('1').push('1').push('1') =~= old(s)@ + unit_bits(u));
            }
        },
        MorseUnit::Whitespace => {
            push_char(s, '0');
            proof {
                assert(old(s)@.push('0') =~= old(s)@ + unit_bits(u));
            }
        },
    }
}

} // verus!
