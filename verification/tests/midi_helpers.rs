use rho::messages::{MidiInMessage, NOTE_OFF_MSG, NOTE_ON_MSG};
use rho::midi_helpers::{note_off_bytes, note_on_bytes, parse_midi_in, VELOCITY_OUT};
use rho::note_assigner::Note;

fn parsed(message: &[u8]) -> Option<(bool, u8, u8)> {
    match parse_midi_in(message) {
        Some(MidiInMessage::NoteOn(note, velocity)) => Some((true, note, velocity)),
        Some(MidiInMessage::NoteOff(note)) => Some((false, note, 0)),
        None => None,
    }
}

#[test]
fn note_on_messages_are_read() {
    assert_eq!(parsed(&[144, 69, 100]), Some((true, 69, 100)));
    assert_eq!(parsed(&[145, 60, 1]), Some((true, 60, 1)));
    assert_eq!(parsed(&[144, 69, 100, 7]), Some((true, 69, 100)));
}

#[test]
fn a_note_on_without_velocity_is_a_note_off() {
    assert_eq!(parsed(&[144, 69, 0]), Some((false, 69, 0)));
    assert_eq!(parsed(&[145, 69, 0]), Some((false, 69, 0)));
}

#[test]
fn note_off_messages_are_read() {
    assert_eq!(parsed(&[129, 69, 64]), Some((false, 69, 0)));
    assert_eq!(parsed(&[129, 69, 0]), Some((false, 69, 0)));
}

#[test]
fn other_messages_stand_for_no_event() {
    assert_eq!(parsed(&[128, 69, 64]), None);
    assert_eq!(parsed(&[146, 69, 64]), None);
    assert_eq!(parsed(&[176, 1, 2]), None);
    assert_eq!(parsed(&[248]), None);
    assert_eq!(parsed(&[144, 69]), None);
    assert_eq!(parsed(&[]), None);
}

#[test]
fn notes_go_out_with_a_fixed_velocity() {
    let note = Note { note_number: 69, velocity: 3 };
    assert_eq!(NOTE_ON_MSG, 0x90);
    assert_eq!(NOTE_OFF_MSG, 0x80);
    assert_eq!(VELOCITY_OUT, 0x64);
    assert_eq!(note_on_bytes(0, &note), [0x90, 69, 0x64]);
    assert_eq!(note_off_bytes(0, &note), [0x80, 69, 0x64]);
    assert_eq!(note_on_bytes(15, &note), [0x9f, 69, 0x64]);
    assert_eq!(note_off_bytes(3, &note), [0x83, 69, 0x64]);
}

#[test]
fn bytes_are_cut_to_eight_bits() {
    let note = Note { note_number: 256 + 61, velocity: 0 };
    assert_eq!(note_on_bytes(0, &note), [0x90, 61, 0x64]);
    assert_eq!(note_on_bytes(0x70, &note), [0x00, 61, 0x64]);
    assert_eq!(note_off_bytes(0x81, &note), [0x01, 61, 0x64]);
}
