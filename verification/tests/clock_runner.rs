use rho::clock_runner::{ClockOutput, ClockRunner, ControlAction};
use rho::messages::{MessageGuiToRho, MessageToGui, MidiInMessage};

fn playing(runner: &mut ClockRunner) {
    runner.handle_gui_message(MessageGuiToRho::SetPlaying { playing: true });
}

fn patterns(runner: &mut ClockRunner, rows: [Vec<bool>; 4]) {
    let action = runner.handle_gui_message(MessageGuiToRho::RowActivations { row_activations: rows });
    assert!(matches!(action, ControlAction::Nothing));
}

fn gui_summary(out: &ClockOutput) -> Vec<String> {
    out.to_gui
        .iter()
        .map(|message| match message {
            MessageToGui::Tick { playing_steps } => format!("tick {:?}", playing_steps),
            MessageToGui::NotesForRows { notes } => {
                let rows: Vec<Vec<usize>> =
                    notes.iter().map(|row| row.iter().map(|n| n.note_number).collect()).collect();
                format!("notes {:?}", rows)
            }
        })
        .collect()
}

#[test]
fn nothing_happens_while_the_transport_stands() {
    let mut runner = ClockRunner::new();
    assert!(!runner.is_playing());
    runner.handle_midi_in(MidiInMessage::NoteOn(60, 100));
    patterns(&mut runner, [vec![true], vec![], vec![], vec![]]);
    let out = runner.on_clock(Some(true));
    assert!(out.midi_out.is_empty());
    assert!(out.to_gui.is_empty());
    // the rhythm has not moved
    playing(&mut runner);
    assert!(runner.is_playing());
    let out = runner.on_clock(Some(true));
    assert_eq!(out.midi_out, vec![[0x90, 60, 0x64]]);
}

#[test]
fn edges_send_note_messages_and_tell_the_display() {
    let mut runner = ClockRunner::new();
    playing(&mut runner);
    patterns(&mut runner, [vec![true, false], vec![true], vec![], vec![]]);
    runner.handle_midi_in(MidiInMessage::NoteOn(60, 100));
    runner.handle_midi_in(MidiInMessage::NoteOn(64, 90));

    let out = runner.on_clock(Some(true));
    assert_eq!(out.midi_out, vec![[0x90, 60, 0x64], [0x90, 64, 0x64]]);
    assert_eq!(
        gui_summary(&out),
        vec![
            "tick [Some(0), Some(0), Some(0), Some(0)]".to_string(),
            "notes [[60], [64], [], []]".to_string(),
        ]
    );

    let out = runner.on_clock(None);
    assert!(out.midi_out.is_empty());
    assert!(out.to_gui.is_empty());

    let out = runner.on_clock(Some(false));
    assert_eq!(out.midi_out, vec![[0x80, 60, 0x64], [0x80, 64, 0x64]]);
    assert!(out.to_gui.is_empty());

    let out = runner.on_clock(Some(true));
    assert_eq!(out.midi_out, vec![[0x90, 64, 0x64]]);
    assert_eq!(gui_summary(&out), vec!["tick [Some(1), Some(0), Some(0), Some(0)]".to_string()]);

    let out = runner.on_clock(Some(false));
    assert_eq!(out.midi_out, vec![[0x80, 64, 0x64]]);
}

#[test]
fn the_display_is_told_the_notes_when_their_pitches_change() {
    let mut runner = ClockRunner::new();
    playing(&mut runner);
    let out = runner.on_clock(None);
    assert!(out.to_gui.is_empty());

    runner.handle_midi_in(MidiInMessage::NoteOn(60, 100));
    let out = runner.on_clock(None);
    assert_eq!(gui_summary(&out), vec!["notes [[60], [], [], []]".to_string()]);
    let out = runner.on_clock(None);
    assert!(out.to_gui.is_empty());

    // the same pitch with another velocity is no news
    runner.handle_midi_in(MidiInMessage::NoteOff(60));
    runner.handle_midi_in(MidiInMessage::NoteOn(60, 1));
    let out = runner.on_clock(None);
    assert!(out.to_gui.is_empty());

    runner.handle_midi_in(MidiInMessage::NoteOff(60));
    let out = runner.on_clock(Some(false));
    assert_eq!(gui_summary(&out), vec!["notes [[], [], [], []]".to_string()]);
}

#[test]
fn control_messages_change_one_thing_each() {
    let mut runner = ClockRunner::new();
    playing(&mut runner);
    patterns(&mut runner, [vec![true], vec![true], vec![], vec![]]);

    let action = runner.handle_gui_message(MessageGuiToRho::SetMidiOutPort { port: 2 });
    assert!(matches!(action, ControlAction::OpenMidiOut { port: 2 }));
    let action = runner.handle_gui_message(MessageGuiToRho::SetMidiInPort { port: 1 });
    assert!(matches!(action, ControlAction::Nothing));
    let action = runner.handle_gui_message(MessageGuiToRho::SetMidiChannelIn { channel: 9 });
    assert!(matches!(action, ControlAction::Nothing));

    let action = runner.handle_gui_message(MessageGuiToRho::SetMidiChannelOut { channel: 5 });
    assert!(matches!(action, ControlAction::Nothing));
    let action = runner.handle_gui_message(MessageGuiToRho::HoldNotesEnabled { enabled: true });
    assert!(matches!(action, ControlAction::Nothing));

    runner.handle_midi_in(MidiInMessage::NoteOn(60, 100));
    runner.handle_midi_in(MidiInMessage::NoteOn(62, 100));
    runner.handle_midi_in(MidiInMessage::NoteOff(60));
    // hold keeps the second note on its row; the channel is 5
    let out = runner.on_clock(Some(true));
    assert_eq!(out.midi_out, vec![[0x95, 62, 0x64]]);
    assert_eq!(runner.rho().get_notes_for_rows()[1].len(), 1);

    runner.handle_gui_message(MessageGuiToRho::SetPlaying { playing: false });
    let out = runner.on_clock(Some(false));
    assert!(out.midi_out.is_empty());
    playing(&mut runner);
    let out = runner.on_clock(Some(false));
    assert_eq!(out.midi_out, vec![[0x85, 62, 0x64]]);
}

#[test]
fn a_pitch_started_twice_gets_one_note_off() {
    let mut runner = ClockRunner::new();
    playing(&mut runner);
    patterns(&mut runner, [vec![true], vec![], vec![], vec![]]);
    runner.handle_midi_in(MidiInMessage::NoteOn(60, 100));
    assert_eq!(runner.on_clock(Some(true)).midi_out, vec![[0x90, 60, 0x64]]);
    assert_eq!(runner.on_clock(Some(true)).midi_out, vec![[0x90, 60, 0x64]]);
    assert_eq!(runner.on_clock(Some(false)).midi_out, vec![[0x80, 60, 0x64]]);
    assert!(runner.on_clock(Some(false)).midi_out.is_empty());
}
