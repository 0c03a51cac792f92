use rho::note_assigner::Note;
use rho::rho::Rho;

fn pitches(notes: &Vec<Note>) -> Vec<usize> {
    notes.iter().map(|n| n.note_number).collect()
}

#[test]
fn test_tick_rows() {
    let mut rho = Rho::new();

    // set 4 note ons
    rho.note_on(0, 100);
    rho.note_on(1, 100);
    rho.note_on(2, 100);
    rho.note_on(3, 100);

    let two_true = vec![true, true];
    let rows = [
        two_true.clone(),
        two_true.clone(),
        two_true.clone(),
        two_true.clone(),
    ];

    rho.set_row_activations(rows);

    let triggered_rows = rho.tick_rows();
    assert_eq!(triggered_rows, vec![0, 1, 2, 3]);

    let notes = rho.on_clock_high();
    assert_eq!(notes.len(), 4);

    let playing_steps = rho.get_playing_steps();
    assert_eq!(playing_steps, [Some(1), Some(1), Some(1), Some(1)]);
}

#[test]
fn a_new_sequencer_plays_nothing() {
    let mut rho = Rho::new();
    assert_eq!(rho.on_clock_high(), vec![]);
    assert_eq!(rho.on_clock_low(), vec![]);
    assert_eq!(rho.tick_rows(), Vec::<usize>::new());
    assert_eq!(rho.get_playing_steps(), [Some(0), Some(0), Some(0), Some(0)]);
    for row in rho.get_notes_for_rows() {
        assert!(row.is_empty());
    }
}

#[test]
fn a_high_edge_starts_the_notes_of_the_rows_whose_step_is_on() {
    let mut rho = Rho::new();
    rho.note_on(60, 100);
    rho.note_on(64, 100);
    rho.note_on(67, 100);
    rho.set_row_activations([
        vec![true, false],
        vec![false, true],
        vec![true, true],
        vec![true],
    ]);
    // row 3 has a step but no note
    assert_eq!(pitches(&rho.on_clock_high()), vec![60, 67]);
    assert_eq!(rho.get_playing_steps(), [Some(0), Some(0), Some(0), Some(0)]);
    assert_eq!(pitches(&rho.on_clock_low()), vec![60, 67]);
    assert_eq!(pitches(&rho.on_clock_high()), vec![64, 67]);
    assert_eq!(rho.get_playing_steps(), [Some(1), Some(1), Some(1), Some(0)]);
    assert_eq!(pitches(&rho.on_clock_low()), vec![64, 67]);
    assert_eq!(pitches(&rho.on_clock_high()), vec![60, 67]);
}

#[test]
fn every_note_that_was_started_is_stopped_once() {
    let mut rho = Rho::new();
    rho.note_on(60, 100);
    rho.note_on(64, 100);
    rho.set_row_activations([vec![true], vec![true, false], vec![], vec![]]);

    let first = rho.on_clock_high();
    let second = rho.on_clock_high();
    let third = rho.on_clock_high();
    assert_eq!(pitches(&first), vec![60, 64]);
    assert_eq!(pitches(&second), vec![60]);
    assert_eq!(pitches(&third), vec![60, 64]);

    // notes change hands while they sound
    rho.note_off(60);
    rho.note_on(72, 100);

    let stopped = rho.on_clock_low();
    let mut started = first.clone();
    started.extend(second);
    started.extend(third);
    // each pitch that was started stands in the stop list once, however
    // often and on however many high edges it was started
    for note in &started {
        let times = stopped.iter().filter(|n| n.note_number == note.note_number).count();
        assert_eq!(times, 1);
    }
    for note in &stopped {
        assert!(started.iter().any(|n| n.note_number == note.note_number));
    }
    assert_eq!(pitches(&stopped), vec![60, 64]);

    // nothing is stopped twice
    assert_eq!(rho.on_clock_low(), vec![]);
    let next = rho.on_clock_high();
    assert_eq!(pitches(&rho.on_clock_low()), pitches(&next));
}

#[test]
fn a_row_that_is_off_shows_no_playing_step() {
    let mut rho = Rho::new();
    rho.set_row_activations([vec![true], vec![true], vec![true], vec![true]]);
    rho.set_hold_notes_enabled(true);
    rho.note_on(60, 100);
    rho.note_on(62, 100);
    rho.note_off(60);
    // the slot of the first row is kept empty
    let rows = rho.get_notes_for_rows();
    assert_eq!(pitches(&rows[0]), vec![]);
    assert_eq!(pitches(&rows[1]), vec![62]);
    assert_eq!(pitches(&rho.on_clock_high()), vec![62]);
    assert_eq!(rho.get_playing_steps(), [Some(0), Some(0), Some(0), Some(0)]);
}

#[test]
fn publishing_a_pattern_keeps_the_place_in_a_rhythm_of_the_same_length() {
    let mut rho = Rho::new();
    rho.note_on(60, 100);
    rho.set_row_activations([vec![true, false, false], vec![], vec![], vec![]]);
    assert_eq!(pitches(&rho.on_clock_high()), vec![60]);
    // same length: the rhythm goes on at its second step
    rho.set_row_activations([vec![true, true, false], vec![], vec![], vec![]]);
    assert_eq!(pitches(&rho.on_clock_high()), vec![60]);
    assert_eq!(rho.get_playing_steps()[0], Some(1));
    // shorter: the cursor, 2, is wrapped into the new length
    rho.set_row_activations([vec![false, true], vec![], vec![], vec![]]);
    assert_eq!(pitches(&rho.on_clock_high()), vec![]);
    assert_eq!(rho.get_playing_steps()[0], Some(0));
    assert_eq!(pitches(&rho.on_clock_high()), vec![60]);
    // empty: the rhythm stands
    rho.set_row_activations([vec![], vec![], vec![], vec![]]);
    assert_eq!(pitches(&rho.on_clock_high()), vec![]);
    assert_eq!(pitches(&rho.on_clock_low()), vec![60]);
}

#[test]
fn filling_octaves_is_kept_without_effect() {
    let mut rho = Rho::new();
    rho.set_fill_octaves_enabled(true);
    rho.note_on(60, 100);
    let rows = rho.get_notes_for_rows();
    assert_eq!(pitches(&rows[0]), vec![60]);
    assert!(rows[1].is_empty());
}

#[test]
fn a_pitch_started_on_two_high_edges_is_stopped_once() {
    let mut rho = Rho::new();
    rho.note_on(60, 100);
    rho.set_row_activations([vec![true], vec![], vec![], vec![]]);
    assert_eq!(pitches(&rho.on_clock_high()), vec![60]);
    assert_eq!(pitches(&rho.on_clock_high()), vec![60]);
    assert_eq!(pitches(&rho.on_clock_low()), vec![60]);
    assert_eq!(pitches(&rho.on_clock_low()), vec![]);
}

#[test]
fn the_note_that_sounds_is_the_one_that_was_started_first() {
    let mut rho = Rho::new();
    rho.set_row_activations([vec![true], vec![true], vec![], vec![]]);
    rho.note_on(60, 10);
    assert_eq!(rho.on_clock_high().len(), 1);
    // the same pitch is struck again, harder, and a second pitch with it
    rho.note_off(60);
    rho.note_on(60, 90);
    rho.note_on(64, 90);
    let started: Vec<(usize, usize)> =
        rho.on_clock_high().iter().map(|n| (n.note_number, n.velocity)).collect();
    assert_eq!(started, vec![(60, 90), (64, 90)]);
    let stopped: Vec<(usize, usize)> =
        rho.on_clock_low().iter().map(|n| (n.note_number, n.velocity)).collect();
    assert_eq!(stopped, vec![(60, 10), (64, 90)]);
}
