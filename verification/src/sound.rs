//! The audio model: playing a document reduces to a strictly sequential
//! list of timed tone and silence commands.
//!
//! A dot sounds for one timing unit, a line for three; a word gap is one
//! unit of silence.  One unit of silence separates symbols of the same
//! character unit, three units separate character units.  Turning commands
//! into sound — frequency, speed and the output device — is the audio
//! collaborator's business, outside the verified core.

use crate::bits::join_with;
use crate::morse_unit::MorseUnit;
use vstd::prelude::*;

verus! {

/// One timed step of playback, with its duration in timing units.
#[derive(Debug, PartialEq, Eq, Structural, Clone, Copy)]
pub enum AudioCommand {
    Tone(u8),
    Silence(u8),
}

/// The command a single symbol plays as.
pub open spec fn unit_command(u: MorseUnit) -> AudioCommand {
    match u {
        MorseUnit::Dot => AudioCommand::Tone(1),
        MorseUnit::Line => AudioCommand::Tone(3),
        MorseUnit::Whitespace => AudioCommand::Silence(1),
    }
}

/// The commands of one character unit: its symbols' commands with one unit
/// of silence between consecutive symbols.
pub open spec fn char_commands(units: Seq<MorseUnit>) -> Seq<AudioCommand> {
    join_with(
        units.map_values(|u: MorseUnit| seq![unit_command(u)]),
        seq![AudioCommand::Silence(1)],
    )
}

} // verus!
