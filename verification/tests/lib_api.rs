use morse_lib::errors::MorseError;
use morse_lib::sound::AudioCommand;
use morse_lib::codec::International;
use morse_lib::Morse;

#[test]
fn lib_create_from_text_str() {
    assert_eq!(
        Morse::from_int_text("Hello").unwrap().to_bin_str(),
        "1010101000100010111010100010111010100011101110111"
    );
}

#[test]
fn lib_create_from_binary_str() {
    let hello_bin = "1010101000100010111010100010111010100011101110111";
    assert_eq!(Morse::from_int_bin(hello_bin).unwrap().to_bin_str(), hello_bin);
}

#[test]
fn get_language() {
    assert_eq!(
        Morse::from_int_text("hello").unwrap().get_language(),
        "International".to_string()
    );
    assert_eq!(
        Morse::from_int_bin("1").unwrap().get_language(),
        "International".to_string()
    );
}

#[test]
fn lib_to_string() {
    assert_eq!(
        Morse::from_int_text("hi u").unwrap().to_string(),
        ". . . .   . .       . . ⚊"
    );
}

#[test]
fn lib_to_bin_str() {
    assert_eq!(
        Morse::from_int_text("hi u").unwrap().to_bin_str(),
        "101010100010100000001010111"
    );
}

#[test]
fn lib_set_aliases_for_whitespace_lines_and_dots() {
    let mut morse = Morse::from_int_text("hi u").unwrap();

    morse.dot_as("🔥");
    morse.line_as("➖");
    morse.whitespace_as("🚧");

    assert_eq!(morse.to_string(), "🔥 🔥 🔥 🔥   🔥 🔥   🚧   🔥 🔥 ➖");
}

#[test]
fn sos_to_bits() {
    assert_eq!(
        Morse::from_int_text("sos").unwrap().to_bin_str(),
        "101010001110111011100010101"
    );
}

#[test]
fn sos_default_render() {
    assert_eq!(Morse::from_int_text("sos").unwrap().to_string(), ". . .   ⚊ ⚊ ⚊   . . .");
}

#[test]
fn sos_from_bits() {
    assert_eq!(Morse::from_int_bin("101010001110111011100010101").unwrap().to_text(), "sos");
}

#[test]
fn text_roundtrip_folds_case() {
    assert_eq!(Morse::from_int_text("HeLLo 123").unwrap().to_text(), "hello 123");
}

#[test]
fn bits_roundtrip_interior_space() {
    let bits = Morse::from_int_text("hi u").unwrap().to_bin_str();
    assert_eq!(Morse::from_int_bin(&bits).unwrap().to_text(), "hi u");
}

#[test]
fn word_gap_spans_seven_zeros() {
    assert_eq!(Morse::from_int_text("e e").unwrap().to_bin_str(), "100000001");
}

#[test]
fn empty_text_yields_empty_document() {
    let morse = Morse::from_int_text("").unwrap();
    assert_eq!(morse.to_text(), "");
    assert_eq!(morse.to_bin_str(), "");
}

#[test]
fn unsupported_character_is_rejected() {
    assert_eq!(Morse::from_int_text("ab#c").unwrap_err(), MorseError::UnsupportedCharacter);
}

#[test]
fn malformed_bitstream_is_rejected() {
    assert_eq!(Morse::from_int_bin("11").unwrap_err(), MorseError::MalformedBitstream);
}

#[test]
fn unrecognized_sequence_is_rejected() {
    assert_eq!(
        Morse::from_int_bin("10101010101").unwrap_err(),
        MorseError::UnrecognizedSequence
    );
}

#[test]
fn multi_character_alias_keeps_separators() {
    let mut morse = Morse::from_int_text("e e").unwrap();
    morse.dot_as("DOT");
    assert_eq!(morse.to_string(), "DOT       DOT");
}

#[test]
fn parse_text_appends() {
    let mut morse = Morse::new("International".to_string(), International);
    morse.parse_text("so").unwrap();
    morse.parse_text("s").unwrap();
    assert_eq!(morse.to_text(), "sos");
    assert_eq!(morse.to_bin_str(), "101010001110111011100010101");
}

#[test]
fn parse_bin_appends() {
    let mut morse = Morse::from_int_text("s").unwrap();
    morse.parse_bin("111").unwrap();
    assert_eq!(morse.to_text(), "st");
}

#[test]
fn parse_text_fails_atomically() {
    let mut morse = Morse::from_int_text("s").unwrap();
    assert_eq!(morse.parse_text("a#b").unwrap_err(), MorseError::UnsupportedCharacter);
    assert_eq!(morse.to_text(), "s");
}

#[test]
fn audio_commands_follow_timing_rules() {
    assert_eq!(
        Morse::from_int_text("a").unwrap().audio_commands(),
        vec![AudioCommand::Tone(1), AudioCommand::Silence(1), AudioCommand::Tone(3)]
    );
    assert_eq!(
        Morse::from_int_text("e e").unwrap().audio_commands(),
        vec![
            AudioCommand::Tone(1),
            AudioCommand::Silence(3),
            AudioCommand::Silence(1),
            AudioCommand::Silence(3),
            AudioCommand::Tone(1),
        ]
    );
}
