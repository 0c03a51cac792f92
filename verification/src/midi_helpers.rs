//! The bytes of the note messages that come in and go out.

use vstd::prelude::*;
use crate::messages::{MidiInMessage, NOTE_OFF_MSG, NOTE_ON_MSG};
use crate::note_assigner::Note;

verus! {

/// The velocity that every note goes out with.
pub const VELOCITY_OUT: u8 = 0x64;

/// The note event that the bytes of a message stand for. A note-on on one of
/// the first two channels is a key that was struck, or released where its
/// velocity is 0; a note-off on the second channel is a key that was
/// released. Anything else, and a message of fewer than three bytes, stands
/// for no event.
pub open spec fn parsed(message: Seq<u8>) -> Option<MidiInMessage> {
    if message.len() < 3 {
        None
    } else if message[0] == 144 || message[0] == 145 {
        if message[2] > 0 {
            Some(MidiInMessage::NoteOn(message[1], message[2]))
        } else {
            Some(MidiInMessage::NoteOff(message[1]))
        }
    } else if message[0] == 129 {
        Some(MidiInMessage::NoteOff(message[1]))
    } else {
        None
    }
}

/// Reads the bytes of a message that came in.
pub fn parse_midi_in(message: &[u8]) -> (event: Option<MidiInMessage>)
    ensures
        event == parsed(message@),
{
    if message.len() < 3 {
        return None;
    }
    let status = message[0];
    let note = message[1];
    let velocity = message[2];
    if status == 144 || status == 145 {
        if velocity > 0 {
            Some(MidiInMessage::NoteOn(note, velocity))
        } else {
            Some(MidiInMessage::NoteOff(note))
        }
    } else if status == 129 {
        Some(MidiInMessage::NoteOff(note))
    } else {
        None
    }
}

/// The low eight bits of a pitch: the pitch itself for every pitch that a
/// message can carry in.
pub open spec fn pitch_byte(note_number: usize) -> u8 {
    (note_number % 256) as u8
}

/// The status byte `base` moved to the channel `channel`: their sum, cut to
/// eight bits.
pub open spec fn status_byte(base: u8, channel: u8) -> u8 {
    ((base + channel) % 256) as u8
}

/// The bytes of the message that starts `note` on the channel `channel`.
pub open spec fn note_on_message(channel: u8, note: Note) -> Seq<u8> {
    seq![status_byte(NOTE_ON_MSG, channel), pitch_byte(note.note_number), VELOCITY_OUT]
}

/// The bytes of the message that stops `note` on the channel `channel`.
pub open spec fn note_off_message(channel: u8, note: Note) -> Seq<u8> {
    seq![status_byte(NOTE_OFF_MSG, channel), pitch_byte(note.note_number), VELOCITY_OUT]
}

/// The status byte `base` moved to the channel `channel`.
fn status(base: u8, channel: u8) -> (byte: u8)
    ensures
        byte == status_byte(base, channel),
{
    let sum: u16 = base as u16 + channel as u16;
    (sum % 256) as u8
}

/// The bytes that start `note` on the channel `channel`.
pub fn note_on_bytes(channel: u8, note: &Note) -> (bytes: [u8; 3])
    ensures
        bytes@ == note_on_message(channel, *note),
{
    let bytes = [status(NOTE_ON_MSG, channel), (note.note_number % 256) as u8, VELOCITY_OUT];
    assert(bytes@ =~= note_on_message(channel, *note));
    bytes
}

/// The bytes that stop `note` on the channel `channel`.
pub fn note_off_bytes(channel: u8, note: &Note) -> (bytes: [u8; 3])
    ensures
        bytes@ == note_off_message(channel, *note),
{
    let bytes = [status(NOTE_OFF_MSG, channel), (note.note_number % 256) as u8, VELOCITY_OUT];
    assert(bytes@ =~= note_off_message(channel, *note));
    bytes
}

} // verus!
