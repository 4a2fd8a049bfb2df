//! The laws the transcoder obeys, stated and proved over the document
//! model.

use crate::bits::all_blocks;
use crate::bits::all_marks;
use crate::bits::char_bits;
use crate::bits::is_block;
use crate::bits::lemma_char_bits_block;
use crate::bits::join_with;
use crate::bits::lemma_join_concat;
use crate::bits::lemma_join_len;
use crate::bits::lemma_join_no_run;
use crate::bits::lemma_split_block_prefix;
use crate::bits::lemma_split_join;
use crate::bits::lemma_split_no_occurrence;
use crate::bits::lemma_units_of_char_bits;
use crate::bits::parts_len;
use crate::bits::split_on;
use crate::bits::unit_bits;
use crate::bits::zeros;
use crate::codec::International;
use crate::display_chars::DisplayView;
use crate::doc_bits;
use crate::errors::MorseError;
use crate::gap_char_view;
use crate::letters_of;
use crate::morse_char::unit_glyph;
use crate::morse_char::MorseCharView;
use crate::morse_char::render_units;
use crate::morse_processors::int_code;
use crate::morse_processors::int_decode;
use crate::morse_processors::int_lower;
use crate::morse_processors::int_supported;
use crate::morse_processors::lemma_int_code_shape;
use crate::morse_processors::lemma_int_roundtrip;
use crate::morse_unit::MorseUnit;
use crate::parse_letter_tok;
use crate::render_doc;
use crate::parse_letters;
use crate::parse_word;
use crate::parse_words;
use crate::spec_from_text;
use crate::spec_parse_bits;
use crate::trim_lead;
use crate::trim_trail;
use vstd::prelude::*;

verus! {

/// Every character of `t` lies in the International domain: letters of
/// either case, digits, and the space.
pub open spec fn all_supported(t: Seq<char>) -> bool {
    forall|i: int| 0 <= i < t.len() ==> int_supported(#[trigger] t[i])
}

/// Encoding a supported text yields one unit per character, carrying the
/// folded character and its table code.
pub proof fn lemma_from_text_elems(t: Seq<char>)
    requires
        all_supported(t),
    ensures
        spec_from_text(International, t) is Some,
        spec_from_text(International, t).unwrap().len() == t.len(),
        forall|i: int|
            0 <= i < t.len() ==> spec_from_text(International, t).unwrap()[i] == (MorseCharView {
                letter: int_lower(#[trigger] t[i]),
                units: int_code(t[i]),
            }),
    decreases t.len(),
{
    if t.len() == 0 {
    } else {
        assert(int_supported(t[0]));
        assert forall|i: int| 0 <= i < t.drop_first().len() implies int_supported(
            #[trigger] t.drop_first()[i],
        ) by {
            assert(t.drop_first()[i] == t[i + 1]);
        }
        lemma_from_text_elems(t.drop_first());
        let rest = spec_from_text(International, t.drop_first()).unwrap();
        let head = MorseCharView { letter: int_lower(t.first()), units: int_code(t.first()) };
        assert(spec_from_text(International, t).unwrap() == seq![head] + rest);
        assert forall|i: int| 0 <= i < t.len() implies (seq![head] + rest)[i] == (MorseCharView {
            letter: int_lower(#[trigger] t[i]),
            units: int_code(t[i]),
        }) by {
            if i > 0 {
                assert((seq![head] + rest)[i] == rest[i - 1]);
                assert(t.drop_first()[i - 1] == t[i]);
            }
        }
    }
}

/// Text round trip: encoding any supported text and reading the document
/// back as text gives the text with letters folded to lower case — case is
/// not preserved, everything else is, character for character.
pub proof fn lemma_text_roundtrip(t: Seq<char>)
    requires
        all_supported(t),
    ensures
        spec_from_text(International, t) is Some,
        letters_of(spec_from_text(International, t).unwrap()) == t.map_values(
            |c: char| int_lower(c),
        ),
{
    lemma_from_text_elems(t);
    let d = spec_from_text(International, t).unwrap();
    assert(letters_of(d) =~= t.map_values(|c: char| int_lower(c)));
}

/// A character unit of a spelled word: non-empty, all marks, and decoding
/// back to its own letter.
pub open spec fn wf_word_char(c: MorseCharView) -> bool {
    c.units.len() > 0 && all_marks(c.units) && int_decode(c.units) == Some(c.letter)
}

pub open spec fn wf_word(d: Seq<MorseCharView>) -> bool {
    forall|i: int| 0 <= i < d.len() ==> wf_word_char(#[trigger] d[i])
}

/// Parsing the digit tokens of a spelled word gives back its units.
proof fn lemma_parse_letters_of_word(d: Seq<MorseCharView>)
    requires
        wf_word(d),
    ensures
        parse_letters(International, d.map_values(|c: MorseCharView| char_bits(c.units))) == Ok::<
            Seq<MorseCharView>,
            MorseError,
        >(d),
    decreases d.len(),
{
    let toks = d.map_values(|c: MorseCharView| char_bits(c.units));
    if d.len() == 0 {
        assert(toks.len() == 0);
        assert(d =~= Seq::<MorseCharView>::empty());
    } else {
        let c0 = d[0];
        assert(wf_word_char(c0));
        lemma_char_bits_block(c0.units, 3);
        lemma_units_of_char_bits(c0.units);
        assert(toks.first() == char_bits(c0.units));
        assert(parse_letter_tok(International, toks.first()) == Ok::<MorseCharView, MorseError>(
            c0,
        )) by {
            assert(MorseCharView { letter: c0.letter, units: c0.units } == c0);
        }
        assert(toks.drop_first() =~= d.drop_first().map_values(
            |c: MorseCharView| char_bits(c.units),
        ));
        assert forall|i: int| 0 <= i < d.drop_first().len() implies wf_word_char(
            #[trigger] d.drop_first()[i],
        ) by {
            assert(d.drop_first()[i] == d[i + 1]);
        }
        lemma_parse_letters_of_word(d.drop_first());
        assert(parse_letters(International, toks) == Ok::<Seq<MorseCharView>, MorseError>(
            seq![c0] + d.drop_first(),
        ));
        assert(seq![c0] + d.drop_first() =~= d);
    }
}

/// The digit tokens of a spelled word are blocks for any separator of two
/// zeros or more.
proof fn lemma_word_parts_blocks(d: Seq<MorseCharView>, k: nat)
    requires
        wf_word(d),
        k >= 2,
    ensures
        all_blocks(d.map_values(|c: MorseCharView| char_bits(c.units)), k),
{
    let parts = d.map_values(|c: MorseCharView| char_bits(c.units));
    assert forall|j: int| 0 <= j < parts.len() implies is_block(#[trigger] parts[j], k) by {
        assert(wf_word_char(d[j]));
        lemma_char_bits_block(d[j].units, k);
    }
}

/// Parsing one spelled word's digits recovers the word, whatever the
/// boundary flags: no boundary token is empty, so nothing is trimmed.
proof fn lemma_parse_word_of_word(d: Seq<MorseCharView>, first: bool, last: bool)
    requires
        d.len() > 0,
        wf_word(d),
    ensures
        parse_word(International, doc_bits(d), first, last) == Ok::<Seq<MorseCharView>, MorseError>(
            d,
        ),
{
    let parts = d.map_values(|c: MorseCharView| char_bits(c.units));
    lemma_word_parts_blocks(d, 3);
    lemma_split_join(parts, 3);
    let toks0 = split_on(doc_bits(d), zeros(3));
    assert(toks0 == parts);
    assert(is_block(parts[0], 3));
    assert(is_block(parts[parts.len() - 1], 3));
    assert(trim_lead(toks0) == toks0);
    assert(trim_trail(toks0) == toks0);
    lemma_parse_letters_of_word(d);
}

/// The digits of a whole spelled word form a block for the seven-zero
/// inter-word separator.
proof fn lemma_word_bits_block(d: Seq<MorseCharView>)
    requires
        d.len() > 0,
        wf_word(d),
    ensures
        is_block(doc_bits(d), 7),
{
    let parts = d.map_values(|c: MorseCharView| char_bits(c.units));
    lemma_word_parts_blocks(d, 7);
    lemma_join_no_run(parts, 3, 7);
}

/// No word gap touches another or a document boundary: every space is
/// interior and stands alone.
pub open spec fn spaces_isolated(t: Seq<char>) -> bool {
    forall|i: int|
        0 <= i < t.len() && (#[trigger] t[i]) == ' ' ==> 0 < i && i + 1 < t.len() && t[i - 1]
            != ' ' && t[i + 1] != ' '
}

pub open spec fn space_free(t: Seq<char>) -> bool {
    forall|i: int| 0 <= i < t.len() ==> (#[trigger] t[i]) != ' '
}

/// The position of the first space of `t`, or `t.len()` if it has none.
spec fn first_space(t: Seq<char>) -> int
    decreases t.len(),
{
    if t.len() == 0 {
        0
    } else if t[0] == ' ' {
        0
    } else {
        1 + first_space(t.drop_first())
    }
}

proof fn lemma_first_space(t: Seq<char>)
    ensures
        0 <= first_space(t) <= t.len(),
        first_space(t) < t.len() ==> t[first_space(t)] == ' ',
        forall|i: int| 0 <= i < first_space(t) ==> (#[trigger] t[i]) != ' ',
        first_space(t) == t.len() ==> space_free(t),
    decreases t.len(),
{
    if t.len() == 0 {
    } else if t[0] == ' ' {
    } else {
        lemma_first_space(t.drop_first());
        let p1 = first_space(t.drop_first());
        assert forall|i: int| 0 <= i < 1 + p1 implies (#[trigger] t[i]) != ' ' by {
            if i > 0 {
                assert(t.drop_first()[i - 1] == t[i]);
            }
        }
        if 1 + p1 < t.len() {
            assert(t.drop_first()[p1] == t[p1 + 1]);
        }
        if 1 + p1 == t.len() {
            assert forall|i: int| 0 <= i < t.len() implies (#[trigger] t[i]) != ' ' by {
                if i > 0 {
                    assert(t.drop_first()[i - 1] == t[i]);
                }
            }
        }
    }
}

/// The heart of the bitstream round trip, by induction over the words of
/// the text: the split of the encoded document recovers each word's
/// digits, and each word parses back to its units.  The first-word flag
/// does not matter, because no word's first token is empty.
proof fn lemma_parse_doc(t: Seq<char>)
    requires
        all_supported(t),
        spaces_isolated(t),
    ensures
        spec_from_text(International, t) is Some,
        parse_words(
            International,
            split_on(doc_bits(spec_from_text(International, t).unwrap()), zeros(7)),
            true,
        ) == Ok::<Seq<MorseCharView>, MorseError>(spec_from_text(International, t).unwrap()),
        parse_words(
            International,
            split_on(doc_bits(spec_from_text(International, t).unwrap()), zeros(7)),
            false,
        ) == Ok::<Seq<MorseCharView>, MorseError>(spec_from_text(International, t).unwrap()),
    decreases t.len(),
{
    lemma_from_text_elems(t);
    lemma_first_space(t);
    let d = spec_from_text(International, t).unwrap();
    let p = first_space(t);
    if t.len() == 0 {
        let e = Seq::<char>::empty();
        assert(d =~= Seq::<MorseCharView>::empty());
        assert(d.map_values(|c: MorseCharView| char_bits(c.units)).len() == 0);
        assert(doc_bits(d) == e);
        assert(split_on(e, zeros(7)) == seq![e]);
        assert(split_on(e, zeros(3)) == seq![e]);
        assert(trim_lead(seq![e]) =~= Seq::<Seq<char>>::empty());
        assert(trim_trail(seq![e]) =~= Seq::<Seq<char>>::empty());
        assert(parse_letters(International, Seq::<Seq<char>>::empty()) == Ok::<
            Seq<MorseCharView>,
            MorseError,
        >(Seq::<MorseCharView>::empty()));
        assert(parse_word(International, e, true, true) == Ok::<Seq<MorseCharView>, MorseError>(
            Seq::<MorseCharView>::empty(),
        ));
        assert(parse_word(International, e, false, true) == Ok::<Seq<MorseCharView>, MorseError>(
            Seq::<MorseCharView>::empty(),
        ));
    } else if p == t.len() {
        assert forall|i: int| 0 <= i < d.len() implies wf_word_char(#[trigger] d[i]) by {
            assert(t[i] != ' ');
            assert(int_supported(t[i]));
            lemma_int_code_shape(t[i]);
            lemma_int_roundtrip(t[i]);
            assert(int_lower(t[i]) != ' ');
        }
        assert(d.len() > 0);
        lemma_word_bits_block(d);
        lemma_split_no_occurrence(doc_bits(d), zeros(7));
        lemma_parse_word_of_word(d, true, true);
        lemma_parse_word_of_word(d, false, true);
        assert(split_on(doc_bits(d), zeros(7)) == seq![doc_bits(d)]);
    } else {
        assert(t[p] == ' ');
        assert(0 < p && p + 1 < t.len() && t[p - 1] != ' ' && t[p + 1] != ' ');
        let w0 = t.take(p);
        let t2 = t.skip(p + 1);
        assert forall|i: int| 0 <= i < w0.len() implies int_supported(#[trigger] w0[i]) by {
            assert(w0[i] == t[i]);
        }
        assert forall|i: int| 0 <= i < t2.len() implies int_supported(#[trigger] t2[i]) by {
            assert(t2[i] == t[p + 1 + i]);
        }
        assert(t2[0] == t[p + 1]);
        assert(spaces_isolated(t2)) by {
            assert forall|i: int|
                0 <= i < t2.len() && (#[trigger] t2[i]) == ' ' implies 0 < i && i + 1 < t2.len()
                && t2[i - 1] != ' ' && t2[i + 1] != ' ' by {
                assert(t2[i] == t[p + 1 + i]);
                assert(i > 0);
                assert(t2[i - 1] == t[p + i]);
                assert(t[p + i] != ' ');
                assert(t[p + i + 2] != ' ');
                assert(p + i + 2 < t.len());
                assert(t2[i + 1] == t[p + i + 2]);
            }
        }
        lemma_from_text_elems(w0);
        lemma_from_text_elems(t2);
        let d0 = spec_from_text(International, w0).unwrap();
        let d2 = spec_from_text(International, t2).unwrap();
        assert(d0 =~= d.take(p)) by {
            assert forall|i: int| 0 <= i < p implies d0[i] == d.take(p)[i] by {
                assert(w0[i] == t[i]);
            }
        }
        assert(d2 =~= d.skip(p + 1)) by {
            assert forall|i: int| 0 <= i < d2.len() implies d2[i] == d.skip(p + 1)[i] by {
                assert(t2[i] == t[p + 1 + i]);
            }
        }
        let gap = MorseCharView { letter: ' ', units: seq![MorseUnit::Whitespace] };
        assert(d[p] == gap) by {
            assert(int_lower(t[p]) == ' ');
            assert(int_code(t[p]) == seq![MorseUnit::Whitespace]);
        }
        assert forall|i: int| 0 <= i < d0.len() implies wf_word_char(#[trigger] d0[i]) by {
            assert(t[i] != ' ');
            assert(int_supported(t[i]));
            lemma_int_code_shape(t[i]);
            lemma_int_roundtrip(t[i]);
            assert(int_lower(t[i]) != ' ');
            assert(d0[i] == d[i]);
        }
        assert(d0.len() > 0);
        lemma_parse_doc(t2);
        let parts = d.map_values(|c: MorseCharView| char_bits(c.units));
        let parts0 = d0.map_values(|c: MorseCharView| char_bits(c.units));
        let parts2 = d2.map_values(|c: MorseCharView| char_bits(c.units));
        assert(char_bits(gap.units) =~= seq!['0']) by {
            assert(gap.units.map_values(|u: MorseUnit| unit_bits(u)) =~= seq![seq!['0']]);
        }
        let mid = seq![char_bits(gap.units)] + parts2;
        assert(parts =~= parts0 + mid) by {
            assert forall|i: int| 0 <= i < parts.len() implies parts[i] == (parts0 + mid)[i] by {
                if i < p {
                    assert(d0[i] == d[i]);
                } else if i == p {
                    assert((parts0 + mid)[i] == char_bits(gap.units));
                } else {
                    assert((parts0 + mid)[i] == parts2[i - p - 1]);
                    assert(d2[i - p - 1] == d[i]);
                }
            }
        }
        assert(parts2.len() > 0);
        lemma_join_concat(parts0, mid, zeros(3));
        lemma_join_concat(seq![char_bits(gap.units)], parts2, zeros(3));
        let b0 = doc_bits(d0);
        let b2 = doc_bits(d2);
        assert(join_with(mid, zeros(3)) == char_bits(gap.units) + zeros(3) + b2);
        assert(doc_bits(d) == b0 + zeros(3) + (char_bits(gap.units) + zeros(3) + b2));
        assert(b0 + zeros(3) + (char_bits(gap.units) + zeros(3) + b2) =~= b0 + (zeros(7) + b2));
        lemma_word_bits_block(d0);
        lemma_split_block_prefix(b0, b2, 7);
        assert(split_on(doc_bits(d), zeros(7)) == seq![b0] + split_on(b2, zeros(7)));
        let ws = seq![b0] + split_on(b2, zeros(7));
        crate::bits::lemma_split_len(b2, zeros(7));
        assert(ws.len() >= 2);
        lemma_parse_word_of_word(d0, true, false);
        lemma_parse_word_of_word(d0, false, false);
        assert(ws.first() == b0);
        assert(ws.drop_first() =~= split_on(b2, zeros(7)));
        assert(gap_char_view(International) == Some(gap)) by {
            assert(int_decode(seq![MorseUnit::Whitespace]) == Some(' '));
        }
        assert(parse_words(International, ws, true) == Ok::<Seq<MorseCharView>, MorseError>(
            d0 + seq![gap] + d2,
        ));
        assert(parse_words(International, ws, false) == Ok::<Seq<MorseCharView>, MorseError>(
            d0 + seq![gap] + d2,
        ));
        assert(d0 + seq![gap] + d2 =~= d);
    }
}

/// Alias substitution leaves separators alone, within a unit: whatever
/// strings the aliases hold, the rendering of a unit is its glyphs with
/// exactly one space character for each gap between consecutive symbols —
/// its length is the glyphs' lengths plus one per gap.
pub proof fn lemma_render_unit_separators(units: Seq<MorseUnit>, d: DisplayView)
    requires
        units.len() > 0,
    ensures
        render_units(units, d).len() == parts_len(
            units.map_values(|u: MorseUnit| unit_glyph(d, u)),
        ) + units.len() - 1,
{
    let glyphs = units.map_values(|u: MorseUnit| unit_glyph(d, u));
    assert(glyphs.len() == units.len());
    lemma_join_len(glyphs, seq![' ']);
    assert(seq![' '].len() == 1);
    assert(render_units(units, d) == join_with(glyphs, seq![' ']));
    assert(join_with(glyphs, seq![' ']).len() == parts_len(glyphs) + 1 * (glyphs.len() - 1));
    assert(render_units(units, d).len() == parts_len(glyphs) + units.len() - 1);
}

/// Alias substitution leaves separators alone, between units: whatever
/// strings the aliases hold, a document's rendering is its units'
/// renderings with exactly three space characters for each gap between
/// consecutive units.
pub proof fn lemma_render_doc_separators(chars: Seq<MorseCharView>, d: DisplayView)
    requires
        chars.len() > 0,
    ensures
        render_doc(chars, d).len() == parts_len(
            chars.map_values(|c: MorseCharView| render_units(c.units, d)),
        ) + 3 * (chars.len() - 1),
{
    lemma_join_len(
        chars.map_values(|c: MorseCharView| render_units(c.units, d)),
        seq![' ', ' ', ' '],
    );
}

/// Bitstream round trip: writing a document as binary digits and parsing
/// those digits back gives the document again, unit for unit — provided
/// every word gap in the text is single and interior.  A gap at a document
/// boundary, or two gaps in a row, melts into the surrounding separators
/// under exact splitting and cannot be recovered.
pub proof fn lemma_bits_roundtrip(t: Seq<char>)
    requires
        all_supported(t),
        spaces_isolated(t),
    ensures
        spec_from_text(International, t) is Some,
        spec_parse_bits(International, doc_bits(spec_from_text(International, t).unwrap()))
            == Ok::<Seq<MorseCharView>, MorseError>(spec_from_text(International, t).unwrap()),
{
    lemma_parse_doc(t);
}

} // verus!
