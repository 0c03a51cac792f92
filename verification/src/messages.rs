//! The messages that pass between the sequencer and what surrounds it.

use vstd::prelude::*;
use crate::note_assigner::Note;
use crate::rho_config::NUM_ROWS;

verus! {

/// The status byte of a note-on message on the first channel.
pub const NOTE_ON_MSG: u8 = 0x90;

/// The status byte of a note-off message on the first channel.
pub const NOTE_OFF_MSG: u8 = 0x80;

/// A note event that came in.
#[derive(Debug, Clone, Copy)]
pub enum MidiInMessage {
    /// A key was struck: its pitch and its velocity.
    NoteOn(u8, u8),
    /// A key was released: its pitch.
    NoteOff(u8),
}

/// What the sequencer tells the display.
#[derive(Debug)]
pub enum MessageToGui {
    /// The notes of each row have changed.
    NotesForRows { notes: [Vec<Note>; NUM_ROWS] },
    /// The rhythms have moved on: the step that each row that is on played last.
    Tick { playing_steps: [Option<usize>; NUM_ROWS] },
}

/// What the controls tell the sequencer. Each message replaces one piece of
/// its state as a whole. The tempo is not among them: it belongs to the clock
/// and goes to it directly.
#[derive(Debug)]
pub enum MessageGuiToRho {
    /// The patterns of all rows.
    RowActivations { row_activations: [Vec<bool>; NUM_ROWS] },
    /// Hold on or off.
    HoldNotesEnabled { enabled: bool },
    /// The port that note events come in from.
    SetMidiInPort { port: usize },
    /// The port that notes go out to.
    SetMidiOutPort { port: usize },
    /// The channel that note events come in on.
    SetMidiChannelIn { channel: u8 },
    /// The channel that notes go out on.
    SetMidiChannelOut { channel: u8 },
    /// Transport: play or stop.
    SetPlaying { playing: bool },
}

} // verus!
