//! The built-in International Morse character codec: a closed, hand-written
//! bijection between the characters `a`–`z`, `0`–`9` and the space, and
//! their symbol sequences.

use crate::bits::all_marks;
use crate::bits::mark_of_tok;
use crate::bits::marks_of_toks;
use crate::bits::split_on;
use crate::bits::split_zeros_from;
use crate::bits::units_of_bits;
use crate::bits::views_of;
use crate::bits::zeros;
use crate::errors::MorseError;
use crate::morse_unit::MorseUnit;
use crate::morse_unit::MorseUnit::Dot;
use crate::morse_unit::MorseUnit::Line;
use crate::morse_unit::MorseUnit::Whitespace;
use crate::text::chars_of;
use vstd::prelude::*;

verus! {

/// Case folding over the International input alphabet: the letters `A`–`Z`
/// fold to `a`–`z`, every other character stands for itself.
pub open spec fn int_lower(c: char) -> char {
    match c {
        'A' => 'a',
        'B' => 'b',
        'C' => 'c',
        'D' => 'd',
        'E' => 'e',
        'F' => 'f',
        'G' => 'g',
        'H' => 'h',
        'I' => 'i',
        'J' => 'j',
        'K' => 'k',
        'L' => 'l',
        'M' => 'm',
        'N' => 'n',
        'O' => 'o',
        'P' => 'p',
        'Q' => 'q',
        'R' => 'r',
        'S' => 's',
        'T' => 't',
        'U' => 'u',
        'V' => 'v',
        'W' => 'w',
        'X' => 'x',
        'Y' => 'y',
        'Z' => 'z',
        _ => c,
    }
}

/// The International code table on canonical (lower-case) characters.
pub open spec fn int_table(c: char) -> Option<Seq<MorseUnit>> {
    match c {
        'a' => Some(seq![Dot, Line]),
        'b' => Some(seq![Line, Dot, Dot, Dot]),
        'c' => Some(seq![Line, Dot, Line, Dot]),
        'd' => Some(seq![Line, Dot, Dot]),
        'e' => Some(seq![Dot]),
        'f' => Some(seq![Dot, Dot, Line, Dot]),
        'g' => Some(seq![Line, Line, Dot]),
        'h' => Some(seq![Dot, Dot, Dot, Dot]),
        'i' => Some(seq![Dot, Dot]),
        'j' => Some(seq![Dot, Line, Line, Line]),
        'k' => Some(seq![Line, Dot, Line]),
        'l' => Some(seq![Dot, Line, Dot, Dot]),
        'm' => Some(seq![Line, Line]),
        'n' => Some(seq![Line, Dot]),
        'o' => Some(seq![Line, Line, Line]),
        'p' => Some(seq![Dot, Line, Line, Dot]),
        'q' => Some(seq![Line, Line, Dot, Line]),
        'r' => Some(seq![Dot, Line, Dot]),
        's' => Some(seq![Dot, Dot, Dot]),
        't' => Some(seq![Line]),
        'u' => Some(seq![Dot, Dot, Line]),
        'v' => Some(seq![Dot, Dot, Dot, Line]),
        'w' => Some(seq![Dot, Line, Line]),
        'x' => Some(seq![Line, Dot, Dot, Line]),
        'y' => Some(seq![Line, Dot, Line, Line]),
        'z' => Some(seq![Line, Line, Dot, Dot]),
        '1' => Some(seq![Dot, Line, Line, Line, Line]),
        '2' => Some(seq![Dot, Dot, Line, Line, Line]),
        '3' => Some(seq![Dot, Dot, Dot, Line, Line]),
        '4' => Some(seq![Dot, Dot, Dot, Dot, Line]),
        '5' => Some(seq![Dot, Dot, Dot, Dot, Dot]),
        '6' => Some(seq![Line, Dot, Dot, Dot, Dot]),
        '7' => Some(seq![Line, Line, Dot, Dot, Dot]),
        '8' => Some(seq![Line, Line, Line, Dot, Dot]),
        '9' => Some(seq![Line, Line, Line, Line, Dot]),
        '0' => Some(seq![Line, Line, Line, Line, Line]),
        ' ' => Some(seq![Whitespace]),
        _ => None,
    }
}

/// The International encoding domain: letters of either case, digits, and
/// the space.
pub open spec fn int_supported(c: char) -> bool {
    int_table(int_lower(c)) is Some
}

/// The symbol sequence of a supported character.
pub open spec fn int_code(c: char) -> Seq<MorseUnit> {
    int_table(int_lower(c)).unwrap()
}

/// The character a symbol sequence decodes to under the International
/// table, or `None` when no table entry matches.
pub open spec fn int_decode(u: Seq<MorseUnit>) -> Option<char> {
    if u.len() == 1 {
        if u[0] is Dot {
            Some('e')
        } else if u[0] is Line {
            Some('t')
        } else {
            Some(' ')
        }
    } else if u.len() == 2 {
        if u[0] is Dot && u[1] is Line {
            Some('a')
        } else if u[0] is Line && u[1] is Dot {
            Some('n')
        } else if u[0] is Dot && u[1] is Dot {
            Some('i')
        } else if u[0] is Line && u[1] is Line {
            Some('m')
        } else {
            None
        }
    } else if u.len() == 3 {
        if u[0] is Line && u[1] is Line && u[2] is Dot {
            Some('g')
        } else if u[0] is Line && u[1] is Dot && u[2] is Dot {
            Some('d')
        } else if u[0] is Line && u[1] is Dot && u[2] is Line {
            Some('k')
        } else if u[0] is Dot && u[1] is Line && u[2] is Dot {
            Some('r')
        } else if u[0] is Dot && u[1] is Dot && u[2] is Dot {
            Some('s')
        } else if u[0] is Dot && u[1] is Line && u[2] is Line {
            Some('w')
        } else if u[0] is Dot && u[1] is Dot && u[2] is Line {
            Some('u')
        } else if u[0] is Line && u[1] is Line && u[2] is Line {
            Some('o')
        } else {
            None
        }
    } else if u.len() == 4 {
        if u[0] is Line && u[1] is Dot && u[2] is Dot && u[3] is Dot {
            Some('b')
        } else if u[0] is Line && u[1] is Dot && u[2] is Line && u[3] is Dot {
            Some('c')
        } else if u[0] is Dot && u[1] is Dot && u[2] is Line && u[3] is Dot {
            Some('f')
        } else if u[0] is Dot && u[1] is Dot && u[2] is Dot && u[3] is Dot {
            Some('h')
        } else if u[0] is Dot && u[1] is Line && u[2] is Line && u[3] is Line {
            Some('j')
        } else if u[0] is Dot && u[1] is Line && u[2] is Dot && u[3] is Dot {
            Some('l')
        } else if u[0] is Dot && u[1] is Line && u[2] is Line && u[3] is Dot {
            Some('p')
        } else if u[0] is Line && u[1] is Line && u[2] is Dot && u[3] is Line {
            Some('q')
        } else if u[0] is Dot && u[1] is Dot && u[2] is Dot && u[3] is Line {
            Some('v')
        } else if u[0] is Line && u[1] is Dot && u[2] is Dot && u[3] is Line {
            Some('x')
        } else if u[0] is Line && u[1] is Dot && u[2] is Line && u[3] is Line {
            Some('y')
        } else if u[0] is Line && u[1] is Line && u[2] is Dot && u[3] is Dot {
            Some('z')
        } else {
            None
        }
    } else if u.len() == 5 {
        if u[0] is Dot && u[1] is Line && u[2] is Line && u[3] is Line && u[4] is Line {
            Some('1')
        } else if u[0] is Dot && u[1] is Dot && u[2] is Line && u[3] is Line && u[4] is Line {
            Some('2')
        } else if u[0] is Dot && u[1] is Dot && u[2] is Dot && u[3] is Line && u[4] is Line {
            Some('3')
        } else if u[0] is Dot && u[1] is Dot && u[2] is Dot && u[3] is Dot && u[4] is Line {
            Some('4')
        } else if u[0] is Dot && u[1] is Dot && u[2] is Dot && u[3] is Dot && u[4] is Dot {
            Some('5')
        } else if u[0] is Line && u[1] is Dot && u[2] is Dot && u[3] is Dot && u[4] is Dot {
            Some('6')
        } else if u[0] is Line && u[1] is Line && u[2] is Dot && u[3] is Dot && u[4] is Dot {
            Some('7')
        } else if u[0] is Line && u[1] is Line && u[2] is Line && u[3] is Dot && u[4] is Dot {
            Some('8')
        } else if u[0] is Line && u[1] is Line && u[2] is Line && u[3] is Line && u[4] is Dot {
            Some('9')
        } else if u[0] is Line && u[1] is Line && u[2] is Line && u[3] is Line && u[4] is Line {
            Some('0')
        } else {
            None
        }
    } else {
        None
    }
}

/// Encodes one character under the International table, folding case.
/// Characters outside the table are rejected, never substituted.
pub fn from_int_char(letter: char) -> (r: Result<Vec<MorseUnit>, MorseError>)
    ensures
        match r {
            Ok(units) => int_supported(letter) && units@ == int_code(letter),
            Err(e) => !int_supported(letter) && e == MorseError::UnsupportedCharacter,
        },
{
    match letter {
        'a' | 'A' => Ok(vec![Dot, Line]),
        'b' | 'B' => Ok(vec![Line, Dot, Dot, Dot]),
        'c' | 'C' => Ok(vec![Line, Dot, Line, Dot]),
        'd' | 'D' => Ok(vec![Line, Dot, Dot]),
        'e' | 'E' => Ok(vec![Dot]),
        'f' | 'F' => Ok(vec![Dot, Dot, Line, Dot]),
        'g' | 'G' => Ok(vec![Line, Line, Dot]),
        'h' | 'H' => Ok(vec![Dot, Dot, Dot, Dot]),
        'i' | 'I' => Ok(vec![Dot, Dot]),
        'j' | 'J' => Ok(vec![Dot, Line, Line, Line]),
        'k' | 'K' => Ok(vec![Line, Dot, Line]),
        'l' | 'L' => Ok(vec![Dot, Line, Dot, Dot]),
        'm' | 'M' => Ok(vec![Line, Line]),
        'n' | 'N' => Ok(vec![Line, Dot]),
        'o' | 'O' => Ok(vec![Line, Line, Line]),
        'p' | 'P' => Ok(vec![Dot, Line, Line, Dot]),
        'q' | 'Q' => Ok(vec![Line, Line, Dot, Line]),
        'r' | 'R' => Ok(vec![Dot, Line, Dot]),
        's' | 'S' => Ok(vec![Dot, Dot, Dot]),
        't' | 'T' => Ok(vec![Line]),
        'u' | 'U' => Ok(vec![Dot, Dot, Line]),
        'v' | 'V' => Ok(vec![Dot, Dot, Dot, Line]),
        'w' | 'W' => Ok(vec![Dot, Line, Line]),
        'x' | 'X' => Ok(vec![Line, Dot, Dot, Line]),
        'y' | 'Y' => Ok(vec![Line, Dot, Line, Line]),
        'z' | 'Z' => Ok(vec![Line, Line, Dot, Dot]),
        '1' => Ok(vec![Dot, Line, Line, Line, Line]),
        '2' => Ok(vec![Dot, Dot, Line, Line, Line]),
        '3' => Ok(vec![Dot, Dot, Dot, Line, Line]),
        '4' => Ok(vec![Dot, Dot, Dot, Dot, Line]),
        '5' => Ok(vec![Dot, Dot, Dot, Dot, Dot]),
        '6' => Ok(vec![Line, Dot, Dot, Dot, Dot]),
        '7' => Ok(vec![Line, Line, Dot, Dot, Dot]),
        '8' => Ok(vec![Line, Line, Line, Dot, Dot]),
        '9' => Ok(vec![Line, Line, Line, Line, Dot]),
        '0' => Ok(vec![Line, Line, Line, Line, Line]),
        ' ' => Ok(vec![Whitespace]),
        _ => Err(MorseError::UnsupportedCharacter),
    }
}

/// Decodes a two-symbol sequence.
fn int_char_of_two(letter: &Vec<MorseUnit>) -> (r: Result<char, MorseError>)
    requires
        letter@.len() == 2,
    ensures
        match r {
            Ok(c) => int_decode(letter@) == Some(c),
            Err(e) => int_decode(letter@) is None && e == MorseError::UnrecognizedSequence,
        },
{
    if letter[0] == Dot && letter[1] == Line {
        Ok('a')
    } else if letter[0] == Line && letter[1] == Dot {
        Ok('n')
    } else if letter[0] == Dot && letter[1] == Dot {
        Ok('i')
    } else if letter[0] == Line && letter[1] == Line {
        Ok('m')
    } else {
        Err(MorseError::UnrecognizedSequence)
    }
}

/// Decodes a three-symbol sequence.
fn int_char_of_three(letter: &Vec<MorseUnit>) -> (r: Result<char, MorseError>)
    requires
        letter@.len() == 3,
    ensures
        match r {
            Ok(c) => int_decode(letter@) == Some(c),
            Err(e) => int_decode(letter@) is None && e == MorseError::UnrecognizedSequence,
        },
{
    if letter[0] == Line && letter[1] == Line && letter[2] == Dot {
        Ok('g')
    } else if letter[0] == Line && letter[1] == Dot && letter[2] == Dot {
        Ok('d')
    } else if letter[0] == Line && letter[1] == Dot && letter[2] == Line {
        Ok('k')
    } else if letter[0] == Dot && letter[1] == Line && letter[2] == Dot {
        Ok('r')
    } else if letter[0] == Dot && letter[1] == Dot && letter[2] == Dot {
        Ok('s')
    } else if letter[0] == Dot && letter[1] == Line && letter[2] == Line {
        Ok('w')
    } else if letter[0] == Dot && letter[1] == Dot && letter[2] == Line {
        Ok('u')
    } else if letter[0] == Line && letter[1] == Line && letter[2] == Line {
        Ok('o')
    } else {
        Err(MorseError::UnrecognizedSequence)
    }
}

/// Decodes a four-symbol sequence.
fn int_char_of_four(letter: &Vec<MorseUnit>) -> (r: Result<char, MorseError>)
    requires
        letter@.len() == 4,
    ensures
        match r {
            Ok(c) => int_decode(letter@) == Some(c),
            Err(e) => int_decode(letter@) is None && e == MorseError::UnrecognizedSequence,
        },
{
    if letter[0] == Line && letter[1] == Dot && letter[2] == Dot && letter[3] == Dot {
        Ok('b')
    } else if letter[0] == Line && letter[1] == Dot && letter[2] == Line && letter[3] == Dot {
        Ok('c')
    } else if letter[0] == Dot && letter[1] == Dot && letter[2] == Line && letter[3] == Dot {
        Ok('f')
    } else if letter[0] == Dot && letter[1] == Dot && letter[2] == Dot && letter[3] == Dot {
        Ok('h')
    } else if letter[0] == Dot && letter[1] == Line && letter[2] == Line && letter[3] == Line {
        Ok('j')
    } else if letter[0] == Dot && letter[1] == Line && letter[2] == Dot && letter[3] == Dot {
        Ok('l')
    } else if letter[0] == Dot && letter[1] == Line && letter[2] == Line && letter[3] == Dot {
        Ok('p')
    } else if letter[0] == Line && letter[1] == Line && letter[2] == Dot && letter[3] == Line {
        Ok('q')
    } else if letter[0] == Dot && letter[1] == Dot && letter[2] == Dot && letter[3] == Line {
        Ok('v')
    } else if letter[0] == Line && letter[1] == Dot && letter[2] == Dot && letter[3] == Line {
        Ok('x')
    } else if letter[0] == Line && letter[1] == Dot && letter[2] == Line && letter[3] == Line {
        Ok('y')
    } else if letter[0] == Line && letter[1] == Line && letter[2] == Dot && letter[3] == Dot {
        Ok('z')
    } else {
        Err(MorseError::UnrecognizedSequence)
    }
}

/// Decodes a five-symbol sequence.
fn int_char_of_five(letter: &Vec<MorseUnit>) -> (r: Result<char, MorseError>)
    requires
        letter@.len() == 5,
    ensures
        match r {
            Ok(c) => int_decode(letter@) == Some(c),
            Err(e) => int_decode(letter@) is None && e == MorseError::UnrecognizedSequence,
        },
{
    if letter[0] == Dot && letter[1] == Line && letter[2] == Line && letter[3] == Line
        && letter[4] == Line {
        Ok('1')
    } else if letter[0] == Dot && letter[1] == Dot && letter[2] == Line && letter[3] == Line
        && letter[4] == Line {
        Ok('2')
    } else if letter[0] == Dot && letter[1] == Dot && letter[2] == Dot && letter[3] == Line
        && letter[4] == Line {
        Ok('3')
    } else if letter[0] == Dot && letter[1] == Dot && letter[2] == Dot && letter[3] == Dot
        && letter[4] == Line {
        Ok('4')
    } else if letter[0] == Dot && letter[1] == Dot && letter[2] == Dot && letter[3] == Dot
        && letter[4] == Dot {
        Ok('5')
    } else if letter[0] == Line && letter[1] == Dot && letter[2] == Dot && letter[3] == Dot
        && letter[4] == Dot {
        Ok('6')
    } else if letter[0] == Line && letter[1] == Line && letter[2] == Dot && letter[3] == Dot
        && letter[4] == Dot {
        Ok('7')
    } else if letter[0] == Line && letter[1] == Line && letter[2] == Line && letter[3] == Dot
        && letter[4] == Dot {
        Ok('8')
    } else if letter[0] == Line && letter[1] == Line && letter[2] == Line && letter[3] == Line
        && letter[4] == Dot {
        Ok('9')
    } else if letter[0] == Line && letter[1] == Line && letter[2] == Line && letter[3] == Line
        && letter[4] == Line {
        Ok('0')
    } else {
        Err(MorseError::UnrecognizedSequence)
    }
}

/// Decodes one symbol sequence under the International table.  A sequence
/// outside the table — wrong length, or a word gap mixed with marks — is
/// rejected as unrecognized.
pub fn into_int_char(letter: Vec<MorseUnit>) -> (r: Result<char, MorseError>)
    ensures
        match r {
            Ok(c) => int_decode(letter@) == Some(c),
            Err(e) => int_decode(letter@) is None && e == MorseError::UnrecognizedSequence,
        },
{
    if letter.len() == 1 {
        match letter[0] {
            Dot => Ok('e'),
            Line => Ok('t'),
            Whitespace => Ok(' '),
        }
    } else if letter.len() == 2 {
        int_char_of_two(&letter)
    } else if letter.len() == 3 {
        int_char_of_three(&letter)
    } else if letter.len() == 4 {
        int_char_of_four(&letter)
    } else if letter.len() == 5 {
        int_char_of_five(&letter)
    } else {
        Err(MorseError::UnrecognizedSequence)
    }
}

/// Classifies one symbol token of a digit string.
fn mark_of_token(tok: &Vec<char>) -> (r: Option<MorseUnit>)
    ensures
        r == mark_of_tok(tok@),
{
    if tok.len() == 1 && tok[0] == '1' {
        proof {
            assert(tok@ =~= seq!['1']);
        }
        Some(Dot)
    } else if tok.len() == 3 && tok[0] == '1' && tok[1] == '1' && tok[2] == '1' {
        proof {
            assert(tok@ =~= seq!['1', '1', '1']);
        }
        Some(Line)
    } else {
        proof {
            if tok@ == seq!['1'] {
                assert(tok@.len() == 1 && tok@[0] == '1');
            }
            if tok@ == seq!['1', '1', '1'] {
                assert(tok@.len() == 3 && tok@[0] == '1' && tok@[1] == '1' && tok@[2] == '1');
            }
        }
        None
    }
}

/// Decodes the symbol tokens of one character unit's digits.
pub(crate) fn units_of_token(tok: &Vec<char>) -> (r: Result<Vec<MorseUnit>, MorseError>)
    ensures
        match r {
            Ok(units) => units_of_bits(tok@) == Some(units@),
            Err(e) => units_of_bits(tok@) is None && e == MorseError::MalformedBitstream,
        },
{
    let toks = split_zeros_from(tok, 0, 1);
    proof {
        assert(tok@.skip(0) =~= tok@);
    }
    let ghost tsv = views_of(toks@);
    let mut units: Vec<MorseUnit> = Vec::new();
    let mut i: usize = 0;
    proof {
        assert(tsv.skip(0) =~= tsv);
        match marks_of_toks(tsv) {
            None => {},
            Some(rest) => {
                assert(Seq::<MorseUnit>::empty() + rest =~= rest);
            },
        }
    }
    while i < toks.len()
        invariant
            0 <= i <= toks.len(),
            tsv == views_of(toks@),
            tsv == split_on(tok@, zeros(1)),
            marks_of_toks(tsv) == (match marks_of_toks(tsv.skip(i as int)) {
                None => None::<Seq<MorseUnit>>,
                Some(rest) => Some(units@ + rest),
            }),
        decreases toks.len() - i,
    {
        let m = mark_of_token(&toks[i]);
        proof {
            assert(tsv.skip(i as int).first() == tsv[i as int]);
            assert(tsv[i as int] == toks@[i as int]@);
        }
        match m {
            None => {
                proof {
                    assert(marks_of_toks(tsv.skip(i as int)) is None);
                }
                return Err(MorseError::MalformedBitstream);
            },
            Some(u) => {
                let ghost uold = units@;
                units.push(u);
                proof {
                    assert(tsv.skip(i as int).drop_first() =~= tsv.skip(i + 1));
                    match marks_of_toks(tsv.skip(i + 1)) {
                        None => {
                            assert(marks_of_toks(tsv.skip(i as int)) is None);
                        },
                        Some(r) => {
                            assert(marks_of_toks(tsv.skip(i as int)) == Some(seq![u] + r));
                            assert(uold + (seq![u] + r) =~= units@ + r);
                        },
                    }
                }
                i = i + 1;
            },
        }
    }
    proof {
        assert(tsv.skip(i as int).len() == 0);
        assert(marks_of_toks(tsv.skip(i as int)) == Some(Seq::<MorseUnit>::empty()));
        assert(units@ + Seq::<MorseUnit>::empty() =~= units@);
    }
    Ok(units)
}

/// Parses the digit string of a single character unit: tokens separated by
/// one zero, each `"1"` (dot) or `"111"` (line).  Any other token is a
/// malformed bitstream.
pub fn convert_from_bin(letter: &str) -> (r: Result<Vec<MorseUnit>, MorseError>)
    ensures
        match r {
            Ok(units) => units_of_bits(letter@) == Some(units@),
            Err(e) => units_of_bits(letter@) is None && e == MorseError::MalformedBitstream,
        },
{
    let cs = chars_of(letter);
    units_of_token(&cs)
}

/// Decoding inverts encoding: every supported character's code decodes back
/// to the character's canonical, lower-case form.
pub proof fn lemma_int_roundtrip(c: char)
    requires
        int_supported(c),
    ensures
        int_decode(int_code(c)) == Some(int_lower(c)),
{
}

/// The shape of every table entry: codes are never empty; the space maps to
/// a lone word gap, everything else to one through five marks.
pub proof fn lemma_int_code_shape(c: char)
    requires
        int_supported(c),
    ensures
        int_code(c).len() > 0,
        int_lower(c) != ' ' ==> all_marks(int_code(c)) && 1 <= int_code(c).len() <= 5,
        int_lower(c) == ' ' ==> int_code(c) == seq![Whitespace],
{
}

} // verus!
