use morse_lib::codec::International;
use morse_lib::errors::MorseError;
use morse_lib::morse_char::MorseChar;
use morse_lib::morse_processors::convert_from_bin;
use morse_lib::morse_processors::from_int_char;
use morse_lib::morse_processors::into_int_char;
use morse_lib::morse_unit::MorseUnit;

#[test]
fn create_from_text_str() {
    assert_eq!(
        MorseChar::from_char('H', "International", &International).unwrap().to_bin_str(),
        "1010101"
    );
}

#[test]
fn create_from_binary_str() {
    let h_bin = "1010101";
    assert_eq!(
        MorseChar::from_bin(h_bin, "International", &International).unwrap().to_bin_str(),
        h_bin
    );
}

#[test]
fn to_string() {
    assert_eq!(
        MorseChar::from_char('u', "International", &International).unwrap().to_string(),
        ". . ⚊"
    );
}

#[test]
fn to_bin_str() {
    assert_eq!(
        MorseChar::from_char('u', "International", &International).unwrap().to_bin_str(),
        "1010111"
    );
}

#[test]
fn set_aliases_for_whitespace_lines_and_dots() {
    let mut morse = MorseChar::from_char('u', "International", &International).unwrap();

    morse.dot_as("🔥");
    morse.line_as("➖");

    assert_eq!(morse.to_string(), "🔥 🔥 ➖");

    let mut morse = MorseChar::from_char(' ', "International", &International).unwrap();

    morse.whitespace_as("🚧");

    assert_eq!(morse.to_string(), "🚧");
}

#[test]
fn char_letter_is_canonical() {
    let mc = MorseChar::from_char('H', "International", &International).unwrap();
    assert_eq!(mc.get_letter(), 'h');
}

#[test]
fn unsupported_char_is_rejected() {
    assert_eq!(
        MorseChar::from_char('#', "International", &International).unwrap_err(),
        MorseError::UnsupportedCharacter
    );
}

#[test]
fn encode_folds_case() {
    assert_eq!(from_int_char('A').unwrap(), from_int_char('a').unwrap());
    assert_eq!(from_int_char('a').unwrap(), vec![MorseUnit::Dot, MorseUnit::Line]);
}

#[test]
fn encode_rejects_unknown() {
    assert_eq!(from_int_char('#').unwrap_err(), MorseError::UnsupportedCharacter);
}

#[test]
fn decode_table_entries() {
    assert_eq!(
        into_int_char(vec![MorseUnit::Dot, MorseUnit::Dot, MorseUnit::Dot]).unwrap(),
        's'
    );
    assert_eq!(into_int_char(vec![MorseUnit::Whitespace]).unwrap(), ' ');
    assert_eq!(
        into_int_char(vec![
            MorseUnit::Line,
            MorseUnit::Line,
            MorseUnit::Line,
            MorseUnit::Line,
            MorseUnit::Line,
        ])
        .unwrap(),
        '0'
    );
}

#[test]
fn decode_rejects_unknown_sequences() {
    assert_eq!(
        into_int_char(vec![MorseUnit::Whitespace, MorseUnit::Whitespace]).unwrap_err(),
        MorseError::UnrecognizedSequence
    );
    assert_eq!(
        into_int_char(vec![
            MorseUnit::Dot,
            MorseUnit::Dot,
            MorseUnit::Line,
            MorseUnit::Line,
        ])
        .unwrap_err(),
        MorseError::UnrecognizedSequence
    );
}

#[test]
fn convert_from_bin_reads_tokens() {
    assert_eq!(
        convert_from_bin("1010111").unwrap(),
        vec![MorseUnit::Dot, MorseUnit::Dot, MorseUnit::Line]
    );
    assert_eq!(convert_from_bin("11").unwrap_err(), MorseError::MalformedBitstream);
    assert_eq!(convert_from_bin("").unwrap_err(), MorseError::MalformedBitstream);
}

#[test]
fn roundtrip_each_supported_character() {
    let alphabet = "abcdefghijklmnopqrstuvwxyz0123456789";
    for c in alphabet.chars() {
        let units = from_int_char(c).unwrap();
        assert_eq!(into_int_char(units).unwrap(), c);
    }
}
