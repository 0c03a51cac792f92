//! What the sequencer does on each tick of its timing loop.
//!
//! The loop itself waits, receives and sends; it hands every message that
//! came in and every edge of the clock to the runner, which changes the
//! sequencer and says what is to go out.

use vstd::prelude::*;
use crate::messages::{MessageGuiToRho, MessageToGui, MidiInMessage};
use crate::midi_helpers::{note_off_bytes, note_off_message, note_on_bytes, note_on_message};
use crate::note_assigner::Note;
use crate::rho::{count_pitch, has_pitch, lemma_started_notes_are_stopped, Rho, RhoView};
use crate::rho_config::NUM_ROWS;

verus! {

/// What the loop has to do itself after a message from the controls.
#[derive(Debug, Clone, Copy)]
pub enum ControlAction {
    /// Nothing.
    Nothing,
    /// Open the connection that notes go out to, on the port `port`.
    OpenMidiOut { port: usize },
}

/// What goes out after a tick.
#[derive(Debug)]
pub struct ClockOutput {
    /// The note messages to send, in this order.
    pub midi_out: Vec<[u8; 3]>,
    /// The messages for the display, in this order.
    pub to_gui: Vec<MessageToGui>,
}

/// Two rows of notes hold the same pitches in the same order.
pub open spec fn same_pitches(a: Seq<Note>, b: Seq<Note>) -> bool {
    &&& a.len() == b.len()
    &&& forall|i: int| 0 <= i < a.len() ==> a[i].note_number == b[i].note_number
}

/// The notes of the rows of `rho` are, by their pitches, those of `sent`.
pub open spec fn same_notes_for_rows(rho: RhoView, sent: Seq<Seq<Note>>) -> bool {
    forall|r: int| 0 <= r < NUM_ROWS ==> same_pitches(#[trigger] rho.notes_for_row(r), sent[r])
}

/// The notes of the rows of `rho`.
pub open spec fn notes_for_rows(rho: RhoView) -> Seq<Seq<Note>> {
    Seq::new(NUM_ROWS as nat, |r: int| rho.notes_for_row(r))
}

/// `message` tells the display the steps that the rows of `rho` played last.
pub open spec fn is_tick_of(message: MessageToGui, rho: RhoView) -> bool {
    message matches MessageToGui::Tick { playing_steps } && forall|r: int|
        0 <= r < NUM_ROWS ==> #[trigger] playing_steps[r] == rho.playing_step(r)
}

/// `message` tells the display the notes of the rows of `rho`.
pub open spec fn is_notes_for_rows_of(message: MessageToGui, rho: RhoView) -> bool {
    message matches MessageToGui::NotesForRows { notes } && forall|r: int|
        0 <= r < NUM_ROWS ==> (#[trigger] notes[r])@ == rho.notes_for_row(r)
}

/// The sequencer after the edge `edge` of the clock, or after a tick without
/// an edge.
pub open spec fn after_edge(rho: RhoView, edge: Option<bool>) -> RhoView {
    match edge {
        Some(true) => rho.clock_high(),
        Some(false) => rho.clock_low(),
        None => rho,
    }
}

/// The note messages that go out on the edge `edge`: a note-on for every note
/// that a high edge starts, a note-off for every note that a low edge stops.
pub open spec fn messages_on_edge(rho: RhoView, channel: u8, edge: Option<bool>) -> Seq<Seq<u8>> {
    match edge {
        Some(true) => Seq::new(
            rho.notes_on_high().len(),
            |i: int| note_on_message(channel, rho.notes_on_high()[i]),
        ),
        Some(false) => Seq::new(
            rho.playing_notes.len(),
            |i: int| note_off_message(channel, rho.playing_notes[i]),
        ),
        None => Seq::empty(),
    }
}

/// Every note-on gets its note-off, once: the note-off messages of the low
/// edge that follows any number of high edges are, one for one and in the
/// same order, for the notes that sound then. A pitch that these high edges
/// started stands among those notes once, however often it was started, and
/// the message that stops a note carries the pitch byte of the message that
/// started it, on whatever channel they go out.
pub proof fn lemma_note_offs_match_note_ons(rho: RhoView, channel: u8, k: nat)
    requires
        rho.wf(),
        rho.playing_notes.len() == 0,
    ensures
        messages_on_edge(rho.highs(k), channel, Some(false)).len() == rho.highs(
            k,
        ).playing_notes.len(),
        forall|i: int|
            0 <= i < rho.highs(k).playing_notes.len() ==> (#[trigger] messages_on_edge(
                rho.highs(k),
                channel,
                Some(false),
            )[i]) == note_off_message(channel, rho.highs(k).playing_notes[i]),
        forall|pitch: usize| #[trigger]
            count_pitch(rho.highs(k).playing_notes, pitch) == if has_pitch(rho.started(k), pitch) {
                1nat
            } else {
                0nat
            },
        forall|note: Note| #[trigger]
            note_off_message(channel, note)[1] == note_on_message(channel, note)[1],
{
    lemma_started_notes_are_stopped(rho, k);
    assert forall|pitch: usize| #[trigger]
        count_pitch(rho.highs(k).playing_notes, pitch) == if has_pitch(rho.started(k), pitch) {
            1nat
        } else {
            0nat
        } by {
        assert(!has_pitch(rho.playing_notes, pitch));
    }
}

/// What the runner holds.
pub struct ClockRunnerView {
    /// The sequencer.
    pub rho: RhoView,
    /// The notes of the rows as the display was last told them.
    pub sent_notes_for_rows: Seq<Seq<Note>>,
    /// The channel that notes go out on.
    pub midi_out_channel: u8,
    /// Whether the transport is running.
    pub is_playing: bool,
}

impl ClockRunnerView {
    /// The runner is well formed: its sequencer is, and it remembers the
    /// notes of every row slot.
    pub open spec fn wf(self) -> bool {
        &&& self.rho.wf()
        &&& self.sent_notes_for_rows.len() == NUM_ROWS
    }

    /// A runner with a new sequencer: the transport stands, notes go out on
    /// the first channel, and the display was told of no notes.
    pub open spec fn initial() -> ClockRunnerView {
        ClockRunnerView {
            rho: RhoView::initial(),
            sent_notes_for_rows: Seq::new(NUM_ROWS as nat, |r: int| Seq::<Note>::empty()),
            midi_out_channel: 0,
            is_playing: false,
        }
    }

    /// The runner after the note event `message` came in.
    pub open spec fn after_midi_in(self, message: MidiInMessage) -> ClockRunnerView {
        ClockRunnerView {
            rho: match message {
                MidiInMessage::NoteOn(note, velocity) => RhoView {
                    note_assigner: self.rho.note_assigner.note_on(
                        Note { note_number: note as usize, velocity: velocity as usize },
                    ),
                    ..self.rho
                },
                MidiInMessage::NoteOff(note) => RhoView {
                    note_assigner: self.rho.note_assigner.note_off(note as usize),
                    ..self.rho
                },
            },
            ..self
        }
    }

    /// The runner after a tick with the edge `edge`: nothing happens while the
    /// transport stands; else the sequencer takes the edge, and the runner
    /// remembers the notes of the rows if they are no longer what the display
    /// was told.
    pub open spec fn after_clock(self, edge: Option<bool>) -> ClockRunnerView {
        if !self.is_playing {
            self
        } else {
            ClockRunnerView {
                rho: after_edge(self.rho, edge),
                sent_notes_for_rows: if same_notes_for_rows(
                    after_edge(self.rho, edge),
                    self.sent_notes_for_rows,
                ) {
                    self.sent_notes_for_rows
                } else {
                    notes_for_rows(after_edge(self.rho, edge))
                },
                ..self
            }
        }
    }

    /// Whether a tick with the edge `edge` tells the display the notes of the rows.
    pub open spec fn tells_notes(self, edge: Option<bool>) -> bool {
        self.is_playing && !same_notes_for_rows(after_edge(self.rho, edge), self.sent_notes_for_rows)
    }

    /// Whether a tick with the edge `edge` tells the display the playing steps.
    pub open spec fn tells_tick(self, edge: Option<bool>) -> bool {
        self.is_playing && edge == Some(true)
    }
}

/// The state of the timing loop: the sequencer, the transport, the channel
/// that notes go out on, and what the display was last told.
pub struct ClockRunner {
    rho: Rho,
    sent_notes_for_rows: [Vec<Note>; NUM_ROWS],
    midi_out_channel: u8,
    is_playing: bool,
}

impl View for ClockRunner {
    type V = ClockRunnerView;

    closed spec fn view(&self) -> ClockRunnerView {
        ClockRunnerView {
            rho: self.rho@,
            sent_notes_for_rows: Seq::new(NUM_ROWS as nat, |r: int| self.sent_notes_for_rows[r]@),
            midi_out_channel: self.midi_out_channel,
            is_playing: self.is_playing,
        }
    }
}

impl ClockRunner {
    /// The runner is well formed: see `ClockRunnerView::wf`. So is every
    /// runner that `new` made, whatever was done with it since.
    pub open spec fn wf(&self) -> bool {
        self@.wf()
    }

    /// A runner with a new sequencer: the transport stands, notes go out on
    /// the first channel, and the display was told of no notes.
    pub fn new() -> (runner: Self)
        ensures
            runner@ == ClockRunnerView::initial(),
            runner.wf(),
    {
        let runner = ClockRunner {
            rho: Rho::new(),
            sent_notes_for_rows: [Vec::new(), Vec::new(), Vec::new(), Vec::new()],
            midi_out_channel: 0,
            is_playing: false,
        };
        assert(runner@.sent_notes_for_rows =~= ClockRunnerView::initial().sent_notes_for_rows);
        runner
    }

    /// Whether the transport is running: only then does the clock tick.
    pub fn is_playing(&self) -> (playing: bool)
        ensures
            playing == self@.is_playing,
    {
        self.is_playing
    }

    /// The sequencer, to look at.
    pub fn rho(&self) -> (rho: &Rho)
        ensures
            rho@ == self@.rho,
            self.wf() ==> rho.wf(),
    {
        &self.rho
    }

    /// A note event came in: the sequencer takes it.
    pub fn handle_midi_in(&mut self, message: MidiInMessage)
        requires
            old(self).wf(),
        ensures
            final(self).wf(),
            final(self)@ == old(self)@.after_midi_in(message),
    {
        match message {
            MidiInMessage::NoteOn(note, velocity) => {
                self.rho.note_on(note as usize, velocity as usize);
            },
            MidiInMessage::NoteOff(note) => {
                self.rho.note_off(note as usize);
            },
        }
    }

    /// A message from the controls came in. Patterns and hold go to the
    /// sequencer; the channel and the transport are kept here; the port that
    /// notes go out to is for the loop to open. Messages about the way in
    /// change nothing.
    pub fn handle_gui_message(&mut self, message: MessageGuiToRho) -> (action: ControlAction)
        requires
            old(self).wf(),
        ensures
            final(self).wf(),
            action == match message {
                MessageGuiToRho::SetMidiOutPort { port } => ControlAction::OpenMidiOut { port },
                _ => ControlAction::Nothing,
            },
            match message {
                MessageGuiToRho::RowActivations { row_activations } => final(self)@ == (
                ClockRunnerView {
                    rho: RhoView {
                        row_loopers: Seq::new(
                            NUM_ROWS as nat,
                            |i: int|
                                crate::rho::published(
                                    old(self)@.rho.row_loopers[i],
                                    row_activations[i]@,
                                ),
                        ),
                        ..old(self)@.rho
                    },
                    ..old(self)@
                }),
                MessageGuiToRho::HoldNotesEnabled { enabled } => final(self)@ == (ClockRunnerView {
                    rho: RhoView {
                        note_assigner: crate::note_assigner::NoteAssignerView {
                            hold_notes_enabled: enabled,
                            ..old(self)@.rho.note_assigner
                        },
                        ..old(self)@.rho
                    },
                    ..old(self)@
                }),
                MessageGuiToRho::SetMidiChannelOut { channel } => final(self)@ == (ClockRunnerView {
                    midi_out_channel: channel,
                    ..old(self)@
                }),
                MessageGuiToRho::SetPlaying { playing } => final(self)@ == (ClockRunnerView {
                    is_playing: playing,
                    ..old(self)@
                }),
                _ => final(self)@ == old(self)@,
            },
    {
        match message {
            MessageGuiToRho::RowActivations { row_activations } => {
                self.rho.set_row_activations(row_activations);
                ControlAction::Nothing
            },
            MessageGuiToRho::HoldNotesEnabled { enabled } => {
                self.rho.set_hold_notes_enabled(enabled);
                ControlAction::Nothing
            },
            MessageGuiToRho::SetMidiOutPort { port } => ControlAction::OpenMidiOut { port },
            MessageGuiToRho::SetMidiChannelOut { channel } => {
                self.midi_out_channel = channel;
                ControlAction::Nothing
            },
            MessageGuiToRho::SetPlaying { playing } => {
                self.is_playing = playing;
                ControlAction::Nothing
            },
            _ => ControlAction::Nothing,
        }
    }

    /// One tick of the clock while the loop runs; `edge` is what the clock
    /// reported. While the transport stands nothing happens. On a high edge
    /// the notes that the sequencer starts go out as note-on messages and the
    /// display is told the playing steps; on a low edge the notes that were
    /// sounding go out as note-off messages. After that the display is told
    /// the notes of the rows, if they changed since it was last told.
    pub fn on_clock(&mut self, edge: Option<bool>) -> (out: ClockOutput)
        requires
            old(self).wf(),
        ensures
            final(self).wf(),
            final(self)@ == old(self)@.after_clock(edge),
            out.midi_out@.len() == if old(self)@.is_playing {
                messages_on_edge(old(self)@.rho, old(self)@.midi_out_channel, edge).len()
            } else {
                0
            },
            forall|i: int|
                0 <= i < out.midi_out@.len() ==> (#[trigger] out.midi_out@[i])@ == messages_on_edge(
                    old(self)@.rho,
                    old(self)@.midi_out_channel,
                    edge,
                )[i],
            out.to_gui@.len() == (if old(self)@.tells_tick(edge) {
                1int
            } else {
                0int
            }) + (if old(self)@.tells_notes(edge) {
                1int
            } else {
                0int
            }),
            old(self)@.tells_tick(edge) ==> is_tick_of(out.to_gui@[0], final(self)@.rho),
            old(self)@.tells_notes(edge) ==> is_notes_for_rows_of(
                out.to_gui@[out.to_gui@.len() - 1],
                final(self)@.rho,
            ),
    {
        let mut out = ClockOutput { midi_out: Vec::new(), to_gui: Vec::new() };
        if !self.is_playing {
            return out;
        }
        let channel = self.midi_out_channel;
        match edge {
            Some(true) => {
                let notes_to_play = self.rho.on_clock_high();
                let mut i: usize = 0;
                while i < notes_to_play.len()
                    invariant
                        i <= notes_to_play.len(),
                        out.midi_out@.len() == i,
                        out.to_gui@.len() == 0,
                        forall|k: int|
                            0 <= k < i ==> (#[trigger] out.midi_out@[k])@ == note_on_message(
                                channel,
                                notes_to_play@[k],
                            ),
                    decreases notes_to_play.len() - i,
                {
                    out.midi_out.push(note_on_bytes(channel, &notes_to_play[i]));
                    i = i + 1;
                }
                out.to_gui.push(MessageToGui::Tick { playing_steps: self.rho.get_playing_steps() });
            },
            Some(false) => {
                let notes_to_stop = self.rho.on_clock_low();
                let mut i: usize = 0;
                while i < notes_to_stop.len()
                    invariant
                        i <= notes_to_stop.len(),
                        out.midi_out@.len() == i,
                        out.to_gui@.len() == 0,
                        forall|k: int|
                            0 <= k < i ==> (#[trigger] out.midi_out@[k])@ == note_off_message(
                                channel,
                                notes_to_stop@[k],
                            ),
                    decreases notes_to_stop.len() - i,
                {
                    out.midi_out.push(note_off_bytes(channel, &notes_to_stop[i]));
                    i = i + 1;
                }
            },
            None => {},
        }
        let new_notes_for_rows = self.rho.get_notes_for_rows();
        let same = rows_have_same_pitches(&new_notes_for_rows, &self.sent_notes_for_rows);
        proof {
            let sent = old(self)@.sent_notes_for_rows;
            assert(self@.sent_notes_for_rows == sent);
            assert(self@.rho == after_edge(old(self)@.rho, edge));
            if same {
                assert forall|r: int| 0 <= r < NUM_ROWS implies same_pitches(
                    #[trigger] self@.rho.notes_for_row(r),
                    sent[r],
                ) by {
                    assert(same_pitches(new_notes_for_rows[r]@, self.sent_notes_for_rows[r]@));
                }
            } else if same_notes_for_rows(self@.rho, sent) {
                assert forall|r: int| 0 <= r < NUM_ROWS implies same_pitches(
                    #[trigger] new_notes_for_rows[r]@,
                    self.sent_notes_for_rows[r]@,
                ) by {
                    assert(same_pitches(self@.rho.notes_for_row(r), sent[r]));
                }
            }
            assert(same == same_notes_for_rows(self@.rho, sent));
        }
        if !same {
            self.sent_notes_for_rows = self.rho.get_notes_for_rows();
            out.to_gui.push(MessageToGui::NotesForRows { notes: new_notes_for_rows });
            assert(self@.sent_notes_for_rows =~= notes_for_rows(self@.rho));
        } else {
            assert(self@.sent_notes_for_rows =~= old(self)@.sent_notes_for_rows);
        }
        out
    }
}

/// Whether two rows of notes hold the same pitches in the same order.
fn have_same_pitches(a: &Vec<Note>, b: &Vec<Note>) -> (same: bool)
    ensures
        same == same_pitches(a@, b@),
{
    if a.len() != b.len() {
        return false;
    }
    let mut i: usize = 0;
    while i < a.len()
        invariant
            i <= a.len(),
            a.len() == b.len(),
            forall|k: int| 0 <= k < i ==> a[k].note_number == b[k].note_number,
        decreases a.len() - i,
    {
        if a[i].note_number != b[i].note_number {
            return false;
        }
        i = i + 1;
    }
    true
}

/// Whether the rows of `a` hold, row by row, the same pitches as those of `b`.
fn rows_have_same_pitches(a: &[Vec<Note>; NUM_ROWS], b: &[Vec<Note>; NUM_ROWS]) -> (same: bool)
    ensures
        same == (forall|r: int| 0 <= r < NUM_ROWS ==> same_pitches(#[trigger] a[r]@, b[r]@)),
{
    let mut r: usize = 0;
    while r < NUM_ROWS
        invariant
            r <= NUM_ROWS,
            forall|k: int| 0 <= k < r ==> same_pitches(#[trigger] a[k]@, b[k]@),
        decreases NUM_ROWS - r,
    {
        if !have_same_pitches(&a[r], &b[r]) {
            return false;
        }
        r = r + 1;
    }
    true
}

} // verus!
