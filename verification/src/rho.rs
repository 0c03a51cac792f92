//! The sequencer: one rhythm per row, the note assigner, and the notes that sound.
//!
//! On a high edge of the clock every rhythm moves on by one step; each row
//! whose step is on plays its next note. On a low edge every note that was
//! started is stopped, once, however often it was started since the last
//! low edge: a pitch sounds or does not.

use vstd::prelude::*;
use crate::looping_state::{LoopingSequence, LoopingSequenceView};
use vstd::arithmetic::div_mod::lemma_mod_bound;
use crate::note_assigner::{
    lemma_rows_after_trigger_len, notes_on_trigger, rows_after_trigger, Note, NoteAssigner,
    NoteAssignerView,
};
use crate::rho_config::NUM_ROWS;

verus! {

/// The rows whose rhythm has a step that is on at its cursor, in ascending order.
pub open spec fn triggered_rows(rhythms: Seq<LoopingSequenceView<bool>>) -> Seq<usize>
    decreases rhythms.len(),
{
    if rhythms.len() == 0 {
        Seq::empty()
    } else if rhythms.last().peek() == Some(true) {
        triggered_rows(rhythms.drop_last()).push((rhythms.len() - 1) as usize)
    } else {
        triggered_rows(rhythms.drop_last())
    }
}

/// The rhythms after each of them has moved on by one step.
pub open spec fn ticked(rhythms: Seq<LoopingSequenceView<bool>>) -> Seq<LoopingSequenceView<bool>> {
    Seq::new(rhythms.len(), |i: int| rhythms[i].advance())
}

/// A rhythm after the pattern `pattern` was published to it: it holds the
/// pattern; its cursor is wrapped into the new length where the length changed.
pub open spec fn published(rhythm: LoopingSequenceView<bool>, pattern: Seq<bool>)
    -> LoopingSequenceView<bool> {
    LoopingSequenceView {
        data: pattern,
        counter: if rhythm.data.len() != pattern.len() {
            rhythm.resized(pattern.len(), false).counter
        } else {
            rhythm.counter
        },
    }
}

/// The cursor of `rhythm` lies within it: at the front, or before its end.
pub open spec fn in_step(rhythm: LoopingSequenceView<bool>) -> bool {
    rhythm.counter == 0 || rhythm.counter < rhythm.data.len()
}

/// `list` holds a note of the pitch `pitch`.
pub open spec fn has_pitch(list: Seq<Note>, pitch: usize) -> bool {
    exists|i: int| 0 <= i < list.len() && #[trigger] list[i].note_number == pitch
}

/// No two notes of `list` have the same pitch.
pub open spec fn distinct_pitches(list: Seq<Note>) -> bool {
    forall|i: int, j: int|
        0 <= i < j < list.len() ==> #[trigger] list[i].note_number != #[trigger] list[j].note_number
}

/// How many notes of `list` have the pitch `pitch`.
pub open spec fn count_pitch(list: Seq<Note>, pitch: usize) -> nat
    decreases list.len(),
{
    if list.len() == 0 {
        0
    } else {
        count_pitch(list.drop_last(), pitch) + if list.last().note_number == pitch {
            1nat
        } else {
            0nat
        }
    }
}

/// The notes that sound once `notes` were started while `sounding` sounded:
/// `sounding`, followed by those of `notes`, in their order, whose pitch does
/// not sound yet.
pub open spec fn joined(sounding: Seq<Note>, notes: Seq<Note>) -> Seq<Note>
    decreases notes.len(),
{
    if notes.len() == 0 {
        sounding
    } else if has_pitch(joined(sounding, notes.drop_last()), notes.last().note_number) {
        joined(sounding, notes.drop_last())
    } else {
        joined(sounding, notes.drop_last()).push(notes.last())
    }
}

/// What the sequencer holds.
pub struct RhoView {
    /// The held notes and the rows they play on.
    pub note_assigner: NoteAssignerView,
    /// The rhythm of each row.
    pub row_loopers: Seq<LoopingSequenceView<bool>>,
    /// The notes that sound: started and not yet stopped, in the order in
    /// which they were first started, no pitch twice.
    pub playing_notes: Seq<Note>,
}

impl RhoView {
    /// The sequencer is well formed: it has a row and a rhythm for every row
    /// slot, the cursor of every rhythm lies within the rhythm, and no pitch
    /// sounds twice.
    pub open spec fn wf(self) -> bool {
        &&& self.note_assigner.wf()
        &&& self.row_loopers.len() == NUM_ROWS
        &&& forall|r: int| 0 <= r < NUM_ROWS ==> in_step(#[trigger] self.row_loopers[r])
        &&& distinct_pitches(self.playing_notes)
    }

    /// A sequencer with a new note assigner, empty rhythms and nothing sounding.
    pub open spec fn initial() -> RhoView {
        RhoView {
            note_assigner: NoteAssignerView::initial(),
            row_loopers: Seq::new(
                NUM_ROWS as nat,
                |i: int| LoopingSequenceView { data: Seq::<bool>::empty(), counter: 0 },
            ),
            playing_notes: Seq::empty(),
        }
    }

    /// The notes that the next high edge starts.
    pub open spec fn notes_on_high(self) -> Seq<Note> {
        notes_on_trigger(self.note_assigner.rows, triggered_rows(self.row_loopers))
    }

    /// The sequencer after a high edge.
    pub open spec fn clock_high(self) -> RhoView {
        RhoView {
            note_assigner: self.note_assigner.with_rows(
                rows_after_trigger(self.note_assigner.rows, triggered_rows(self.row_loopers)),
            ),
            row_loopers: ticked(self.row_loopers),
            playing_notes: joined(self.playing_notes, self.notes_on_high()),
        }
    }

    /// The step that row `r` played last, if the row is on.
    pub open spec fn playing_step(self, r: int) -> Option<usize> {
        if self.note_assigner.rows[r].active {
            Some(self.row_loopers[r].current_step() as usize)
        } else {
            None
        }
    }

    /// The notes of row `r`, in the order in which the row plays them.
    pub open spec fn notes_for_row(self, r: int) -> Seq<Note> {
        self.note_assigner.rows[r].notes.data
    }

    /// The sequencer after a low edge.
    pub open spec fn clock_low(self) -> RhoView {
        RhoView {
            note_assigner: self.note_assigner,
            row_loopers: self.row_loopers,
            playing_notes: Seq::empty(),
        }
    }

    /// The sequencer after `k` high edges with no low edge between them.
    pub open spec fn highs(self, k: nat) -> RhoView
        decreases k,
    {
        if k == 0 {
            self
        } else {
            self.highs((k - 1) as nat).clock_high()
        }
    }

    /// The notes that `k` high edges return to be started, in the order in
    /// which they are returned.
    pub open spec fn started(self, k: nat) -> Seq<Note>
        decreases k,
    {
        if k == 0 {
            Seq::empty()
        } else {
            self.started((k - 1) as nat) + self.highs((k - 1) as nat).notes_on_high()
        }
    }
}

/// A pitch is counted in a list exactly if the list holds it.
pub proof fn lemma_count_pitch(list: Seq<Note>, pitch: usize)
    ensures
        count_pitch(list, pitch) > 0 <==> has_pitch(list, pitch),
        distinct_pitches(list) ==> count_pitch(list, pitch) <= 1,
    decreases list.len(),
{
    if list.len() > 0 {
        let front = list.drop_last();
        lemma_count_pitch(front, pitch);
        if has_pitch(front, pitch) {
            let i = choose|i: int| 0 <= i < front.len() && #[trigger] front[i].note_number == pitch;
            assert(list[i].note_number == pitch);
        }
        if list.last().note_number == pitch {
            assert(list[list.len() - 1].note_number == pitch);
        }
        if has_pitch(list, pitch) && list.last().note_number != pitch {
            let i = choose|i: int| 0 <= i < list.len() && #[trigger] list[i].note_number == pitch;
            assert(front[i].note_number == pitch);
        }
        if distinct_pitches(list) {
            assert forall|a: int, b: int| 0 <= a < b < front.len() implies #[trigger] front[a].note_number
                != #[trigger] front[b].note_number by {
                assert(list[a].note_number != list[b].note_number);
            }
            if list.last().note_number == pitch && has_pitch(front, pitch) {
                let i = choose|i: int|
                    0 <= i < front.len() && #[trigger] front[i].note_number == pitch;
                assert(list[i].note_number != list[list.len() - 1].note_number);
            }
        }
    }
}

/// Notes that join a list in which no pitch stands twice leave such a list.
pub proof fn lemma_joined_distinct(sounding: Seq<Note>, notes: Seq<Note>)
    requires
        distinct_pitches(sounding),
    ensures
        distinct_pitches(joined(sounding, notes)),
    decreases notes.len(),
{
    if notes.len() > 0 {
        lemma_joined_distinct(sounding, notes.drop_last());
    }
}

/// A pitch stands in the joined list as often as it sounded before; if it
/// did not sound, once if a note of that pitch was started, and else not.
pub proof fn lemma_joined_count(sounding: Seq<Note>, notes: Seq<Note>, pitch: usize)
    ensures
        count_pitch(joined(sounding, notes), pitch) == if count_pitch(sounding, pitch) > 0 {
            count_pitch(sounding, pitch)
        } else if count_pitch(notes, pitch) > 0 {
            1nat
        } else {
            0nat
        },
    decreases notes.len(),
{
    if notes.len() > 0 {
        let before = joined(sounding, notes.drop_last());
        lemma_joined_count(sounding, notes.drop_last(), pitch);
        lemma_count_pitch(before, notes.last().note_number);
        lemma_count_pitch(before, pitch);
        if !has_pitch(before, notes.last().note_number) {
            assert(before.push(notes.last()).drop_last() =~= before);
        }
    }
}

/// Notes may join one after the other or all at once.
pub proof fn lemma_joined_twice(sounding: Seq<Note>, first: Seq<Note>, second: Seq<Note>)
    ensures
        joined(joined(sounding, first), second) == joined(sounding, first + second),
    decreases second.len(),
{
    if second.len() == 0 {
        assert(first + second =~= first);
    } else {
        lemma_joined_twice(sounding, first, second.drop_last());
        assert((first + second).drop_last() =~= first + second.drop_last());
    }
}

/// A high edge leaves a well-formed sequencer well formed.
pub proof fn lemma_clock_high_wf(s: RhoView)
    requires
        s.wf(),
    ensures
        s.clock_high().wf(),
{
    let h = s.clock_high();
    lemma_rows_after_trigger_len(s.note_assigner.rows, triggered_rows(s.row_loopers));
    lemma_joined_distinct(s.playing_notes, s.notes_on_high());
    assert forall|r: int| 0 <= r < NUM_ROWS implies in_step(#[trigger] h.row_loopers[r]) by {
        let rhythm = s.row_loopers[r];
        if rhythm.data.len() > 0 {
            lemma_mod_bound(rhythm.cursor() + 1, rhythm.data.len() as int);
        }
    }
}

/// Every note that is started is stopped exactly once. The low edge that
/// follows any number of high edges stops the notes that sounded before and
/// those that these high edges started, in the order in which they first
/// sounded. However often a pitch was started, and on however many high
/// edges, it stands in the stop list once; no other pitch stands in it; and
/// nothing sounds after the low edge.
pub proof fn lemma_started_notes_are_stopped(s: RhoView, k: nat)
    requires
        s.wf(),
    ensures
        s.highs(k).wf(),
        s.highs(k).playing_notes == joined(s.playing_notes, s.started(k)),
        forall|pitch: usize| #[trigger]
            count_pitch(s.highs(k).playing_notes, pitch) == if has_pitch(s.playing_notes, pitch)
                || has_pitch(s.started(k), pitch) {
                1nat
            } else {
                0nat
            },
        s.highs(k).clock_low().playing_notes == Seq::<Note>::empty(),
    decreases k,
{
    if k > 0 {
        let k1 = (k - 1) as nat;
        lemma_started_notes_are_stopped(s, k1);
        lemma_clock_high_wf(s.highs(k1));
        lemma_joined_twice(s.playing_notes, s.started(k1), s.highs(k1).notes_on_high());
    }
    assert forall|pitch: usize| #[trigger]
        count_pitch(s.highs(k).playing_notes, pitch) == if has_pitch(s.playing_notes, pitch)
            || has_pitch(s.started(k), pitch) {
            1nat
        } else {
            0nat
        } by {
        lemma_joined_count(s.playing_notes, s.started(k), pitch);
        lemma_count_pitch(s.playing_notes, pitch);
        lemma_count_pitch(s.started(k), pitch);
    }
}

/// The sequencer.
pub struct Rho {
    note_assigner: NoteAssigner,
    row_loopers: [LoopingSequence<bool>; NUM_ROWS],
    playing_notes: Vec<Note>,
}

impl View for Rho {
    type V = RhoView;

    closed spec fn view(&self) -> RhoView {
        RhoView {
            note_assigner: self.note_assigner@,
            row_loopers: Seq::new(NUM_ROWS as nat, |i: int| self.row_loopers[i]@),
            playing_notes: self.playing_notes@,
        }
    }
}

impl Rho {
    /// The sequencer is well formed: see `RhoView::wf`. So is every
    /// sequencer that `new` made, whatever was done with it since.
    pub open spec fn wf(&self) -> bool {
        self@.wf()
    }

    /// A sequencer with a new note assigner, empty rhythms and nothing sounding.
    pub fn new() -> (rho: Self)
        ensures
            rho@ == RhoView::initial(),
            rho.wf(),
    {
        let rho = Rho {
            note_assigner: NoteAssigner::new(),
            row_loopers: [
                LoopingSequence::new(Vec::new()),
                LoopingSequence::new(Vec::new()),
                LoopingSequence::new(Vec::new()),
                LoopingSequence::new(Vec::new()),
            ],
            playing_notes: Vec::new(),
        };
        assert(rho@.row_loopers =~= RhoView::initial().row_loopers);
        rho
    }

    /// Switches the filling of empty rows with octaves on or off.
    pub fn set_fill_octaves_enabled(&mut self, enabled: bool)
        requires
            old(self).wf(),
        ensures
            final(self).wf(),
            final(self)@ == (RhoView {
                note_assigner: NoteAssignerView {
                    auto_octave_enabled: enabled,
                    ..old(self)@.note_assigner
                },
                ..old(self)@
            }),
    {
        self.note_assigner.set_fill_octaves_enabled(enabled);
    }

    /// Publishes the patterns of all rows to the rhythms. Each rhythm holds
    /// its pattern afterwards; a rhythm whose length changes is cut or padded
    /// first, its cursor wrapped into the new length.
    pub fn set_row_activations(&mut self, row_activations: [Vec<bool>; NUM_ROWS])
        requires
            old(self).wf(),
        ensures
            final(self).wf(),
            final(self)@ == (RhoView {
                row_loopers: Seq::new(
                    NUM_ROWS as nat,
                    |i: int| published(old(self)@.row_loopers[i], row_activations[i]@),
                ),
                ..old(self)@
            }),
    {
        let mut i: usize = 0;
        while i < NUM_ROWS
            invariant
                i <= NUM_ROWS,
                self.note_assigner == old(self).note_assigner,
                self.playing_notes == old(self).playing_notes,
                forall|k: int|
                    0 <= k < NUM_ROWS ==> (#[trigger] self.row_loopers[k])@ == if k < i {
                        published(old(self)@.row_loopers[k], row_activations[k]@)
                    } else {
                        old(self)@.row_loopers[k]
                    },
            decreases NUM_ROWS - i,
        {
            let ghost before = self.row_loopers[i as int]@;
            let pattern = &row_activations[i];
            if self.row_loopers[i].len() != pattern.len() {
                self.row_loopers[i].resize(pattern.len(), false);
            }
            let ghost sized = self.row_loopers[i as int]@;
            let mut j: usize = 0;
            while j < pattern.len()
                invariant
                    j <= pattern.len(),
                    i < NUM_ROWS,
                    self.note_assigner == old(self).note_assigner,
                    self.playing_notes == old(self).playing_notes,
                    forall|k: int|
                        0 <= k < NUM_ROWS && k != i ==> (#[trigger] self.row_loopers[k])@ == if k
                            < i {
                            published(old(self)@.row_loopers[k], row_activations[k]@)
                        } else {
                            old(self)@.row_loopers[k]
                        },
                    self.row_loopers[i as int]@.counter == sized.counter,
                    self.row_loopers[i as int]@.data.len() == pattern.len(),
                    forall|m: int| 0 <= m < j ==> self.row_loopers[i as int]@.data[m] == pattern[m],
                decreases pattern.len() - j,
            {
                self.row_loopers[i].set_step(j, pattern[j]);
                j = j + 1;
            }
            assert(self.row_loopers[i as int]@.data =~= pattern@);
            i = i + 1;
        }
        assert(self@.row_loopers =~= Seq::new(
            NUM_ROWS as nat,
            |i: int| published(old(self)@.row_loopers[i], row_activations[i]@),
        ));
    }

    /// Switches hold on or off.
    pub fn set_hold_notes_enabled(&mut self, enabled: bool)
        requires
            old(self).wf(),
        ensures
            final(self).wf(),
            final(self)@ == (RhoView {
                note_assigner: NoteAssignerView {
                    hold_notes_enabled: enabled,
                    ..old(self)@.note_assigner
                },
                ..old(self)@
            }),
    {
        self.note_assigner.set_hold_notes_enabled(enabled);
    }

    /// A note was struck: the note assigner takes it in.
    pub fn note_on(&mut self, note: usize, velocity: usize)
        requires
            old(self).wf(),
        ensures
            final(self).wf(),
            final(self)@ == (RhoView {
                note_assigner: old(self)@.note_assigner.note_on(
                    Note { note_number: note, velocity: velocity },
                ),
                ..old(self)@
            }),
    {
        self.note_assigner.note_on(note, velocity);
    }

    /// A pitch was released: the note assigner lets it go.
    pub fn note_off(&mut self, note: usize)
        requires
            old(self).wf(),
        ensures
            final(self).wf(),
            final(self)@ == (RhoView {
                note_assigner: old(self)@.note_assigner.note_off(note),
                ..old(self)@
            }),
    {
        self.note_assigner.note_off(note);
    }

    /// The notes of each row, in the order in which the row plays them.
    pub fn get_notes_for_rows(&self) -> (notes: [Vec<Note>; NUM_ROWS])
        ensures
            forall|r: int| 0 <= r < NUM_ROWS ==> (#[trigger] notes[r])@ == self@.notes_for_row(r),
    {
        self.note_assigner.get_notes_for_rows()
    }

    /// A high edge of the clock: every rhythm moves on by one step, each row
    /// whose step is on plays its next note, and these notes are returned, to
    /// be started. Their pitches sound from now on: a returned note joins the
    /// sounding notes unless its pitch sounds already.
    pub fn on_clock_high(&mut self) -> (notes: Vec<Note>)
        requires
            old(self).wf(),
        ensures
            final(self).wf(),
            notes@ == old(self)@.notes_on_high(),
            final(self)@ == old(self)@.clock_high(),
            final(self)@.playing_notes == joined(old(self)@.playing_notes, notes@),
    {
        proof {
            lemma_clock_high_wf(self@);
        }
        let triggered_rows = self.tick_rows();
        let notes_to_play = self.note_assigner.get_next_notes(triggered_rows);
        self.track_midi_notes(&notes_to_play);
        notes_to_play
    }

    /// A low edge of the clock: returns the notes that are sounding, to be
    /// stopped, no pitch twice, and counts nothing as sounding any more.
    pub fn on_clock_low(&mut self) -> (notes: Vec<Note>)
        requires
            old(self).wf(),
        ensures
            final(self).wf(),
            notes@ == old(self)@.playing_notes,
            distinct_pitches(notes@),
            final(self)@ == old(self)@.clock_low(),
    {
        let mut notes_to_stop: Vec<Note> = Vec::new();
        let mut i: usize = 0;
        while i < self.playing_notes.len()
            invariant
                i <= self.playing_notes.len(),
                self@ == old(self)@,
                notes_to_stop@ == self.playing_notes@.take(i as int),
            decreases self.playing_notes.len() - i,
        {
            notes_to_stop.push(self.playing_notes[i]);
            i = i + 1;
        }
        assert(self.playing_notes@.take(i as int) =~= self.playing_notes@);
        self.playing_notes.clear();
        notes_to_stop
    }

    /// For each row that is on, the step that its rhythm played last; nothing
    /// for a row that is off.
    pub fn get_playing_steps(&self) -> (steps: [Option<usize>; NUM_ROWS])
        ensures
            forall|r: int| 0 <= r < NUM_ROWS ==> #[trigger] steps[r] == self@.playing_step(r),
    {
        let mut steps: [Option<usize>; NUM_ROWS] = [None, None, None, None];
        let mut i: usize = 0;
        while i < NUM_ROWS
            invariant
                i <= NUM_ROWS,
                forall|r: int| 0 <= r < i ==> #[trigger] steps[r] == self@.playing_step(r),
            decreases NUM_ROWS - i,
        {
            if self.note_assigner.row_is_active(i) {
                steps[i] = Some(self.row_loopers[i].get_current_step());
            } else {
                steps[i] = None;
            }
            i = i + 1;
        }
        steps
    }

    /// Counts `notes` as sounding: each joins the sounding notes unless its
    /// pitch sounds already.
    fn track_midi_notes(&mut self, notes: &Vec<Note>)
        requires
            old(self).wf(),
        ensures
            final(self).wf(),
            final(self)@ == (RhoView {
                playing_notes: joined(old(self)@.playing_notes, notes@),
                ..old(self)@
            }),
    {
        let mut i: usize = 0;
        while i < notes.len()
            invariant
                i <= notes.len(),
                self.note_assigner == old(self).note_assigner,
                self.row_loopers == old(self).row_loopers,
                self.playing_notes@ == joined(old(self).playing_notes@, notes@.take(i as int)),
            decreases notes.len() - i,
        {
            proof {
                assert(notes@.take(i + 1).drop_last() =~= notes@.take(i as int));
            }
            if !holds_pitch(&self.playing_notes, notes[i].note_number) {
                self.playing_notes.push(notes[i]);
            }
            i = i + 1;
        }
        proof {
            assert(notes@.take(i as int) =~= notes@);
            lemma_joined_distinct(old(self)@.playing_notes, notes@);
        }
    }

    /// Moves every rhythm on by one step and returns the rows whose step is
    /// on, in ascending order.
    pub fn tick_rows(&mut self) -> (triggered: Vec<usize>)
        requires
            old(self).wf(),
        ensures
            final(self).wf(),
            triggered@ == triggered_rows(old(self)@.row_loopers),
            final(self)@ == (RhoView { row_loopers: ticked(old(self)@.row_loopers), ..old(self)@ }),
    {
        let mut triggered: Vec<usize> = Vec::new();
        let mut i: usize = 0;
        while i < NUM_ROWS
            invariant
                i <= NUM_ROWS,
                self.note_assigner == old(self).note_assigner,
                self.playing_notes == old(self).playing_notes,
                triggered@ == triggered_rows(old(self)@.row_loopers.take(i as int)),
                forall|k: int|
                    0 <= k < NUM_ROWS ==> (#[trigger] self.row_loopers[k])@ == if k < i {
                        old(self)@.row_loopers[k].advance()
                    } else {
                        old(self)@.row_loopers[k]
                    },
            decreases NUM_ROWS - i,
        {
            proof {
                assert(old(self)@.row_loopers.take(i + 1).drop_last()
                    =~= old(self)@.row_loopers.take(i as int));
            }
            if let Some(t) = self.row_loopers[i].next() {
                if t {
                    triggered.push(i);
                }
            }
            i = i + 1;
        }
        assert(old(self)@.row_loopers.take(i as int) =~= old(self)@.row_loopers);
        assert(self@.row_loopers =~= ticked(old(self)@.row_loopers));
        triggered
    }
}

/// Whether `list` holds a note of the pitch `pitch`.
fn holds_pitch(list: &Vec<Note>, pitch: usize) -> (b: bool)
    ensures
        b == has_pitch(list@, pitch),
{
    let mut i: usize = 0;
    while i < list.len()
        invariant
            i <= list.len(),
            forall|k: int| 0 <= k < i ==> list[k].note_number != pitch,
        decreases list.len() - i,
    {
        if list[i].note_number == pitch {
            return true;
        }
        i = i + 1;
    }
    false
}

} // verus!
