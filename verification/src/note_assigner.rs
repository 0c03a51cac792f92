//! Which notes are held, and on which rows they play.
//!
//! The assigner keeps the registry of held notes and maps them onto the rows
//! that are switched on. Each row owns a looping queue of the notes assigned
//! to it and plays them in turn.

use vstd::arithmetic::div_mod::{lemma_mod_bound, lemma_small_mod};
use vstd::prelude::*;
use crate::looping_state::{LoopingSequence, LoopingSequenceView};
pub use crate::note::{to_string, Note};
use crate::rho_config::NUM_ROWS;

verus! {

/// In which order held notes stand in the registry.
#[derive(Debug, Clone, Copy)]
pub enum NoteOrdering {
    /// A new note goes behind the notes held so far.
    OldestFirst,
    /// A new note goes before the first note of higher pitch.
    LowestFirst,
}

/// Where a note goes whose place in the registry lies past the rows that are on.
#[derive(Debug, Clone, Copy)]
pub enum NoteWrapping {
    /// It is dropped, and so is the note at the place of the last row.
    Clip,
    /// It starts again at the first row.
    Wrap,
    /// It turns round at the last row and walks back down.
    Fold,
    /// It goes to the last row.
    StackHigh,
    /// It goes to the first row.
    StackLow,
}

/// `i` wrapped round into `0, .., max`.
pub open spec fn wrap_spec(i: int, max: int) -> int {
    i % (max + 1)
}

/// `i` folded into `0, .., max`: a triangle wave with a period of
/// `2 * (max + 1) - 1` that climbs from 0 to `max` and comes down again from
/// `max - 1` to 0.
pub open spec fn fold_spec(i: int, max: int) -> int {
    let a = i % (2 * (max + 1) - 1);
    if a <= max {
        a
    } else {
        2 * max - a
    }
}

/// `i`, or `max` where `i` is more.
pub open spec fn stack_high_spec(i: int, max: int) -> int {
    if i > max {
        max
    } else {
        i
    }
}

/// `i`, or 0 where `i` is more than `max`.
pub open spec fn stack_low_spec(i: int, max: int) -> int {
    if i > max {
        0
    } else {
        i
    }
}

/// The row offset for the note at place `i` of the registry, where `max` is
/// the highest offset there is; `None` where the note is dropped.
pub open spec fn wrapped_offset(mode: NoteWrapping, i: int, max: int) -> Option<int> {
    match mode {
        NoteWrapping::Fold => Some(fold_spec(i, max)),
        NoteWrapping::Wrap => Some(wrap_spec(i, max)),
        NoteWrapping::StackHigh => Some(stack_high_spec(i, max)),
        NoteWrapping::StackLow => Some(stack_low_spec(i, max)),
        NoteWrapping::Clip => if i < max {
            Some(i)
        } else {
            None
        },
    }
}

/// The row for the note at place `i` of the registry: its offset, looked up
/// among the rows that are on. No row where none is on.
pub open spec fn mapped_row(i: int, active_rows: Seq<usize>, mode: NoteWrapping) -> Option<usize> {
    if active_rows.len() == 0 {
        None
    } else {
        match wrapped_offset(mode, i, active_rows.len() - 1) {
            Some(offset) => Some(active_rows[offset]),
            None => None,
        }
    }
}

/// Every offset lies among the rows that are on.
pub proof fn lemma_wrapped_offset_in_range(mode: NoteWrapping, i: int, max: int)
    requires
        0 <= i,
        0 <= max,
    ensures
        wrapped_offset(mode, i, max) matches Some(offset) ==> 0 <= offset <= max,
{
    lemma_mod_bound(i, max + 1);
    lemma_mod_bound(i, 2 * (max + 1) - 1);
}

/// Wraps `i` round into `0, .., max`.
pub fn wrap(i: usize, max: usize) -> (r: usize)
    ensures
        r == wrap_spec(i as int, max as int),
        r <= max,
{
    proof {
        lemma_mod_bound(i as int, max + 1);
    }
    if max == 0 {
        return 0;
    }
    if max == usize::MAX {
        proof {
            lemma_small_mod(i as nat, (max + 1) as nat);
        }
        return i;
    }
    i % (max + 1)
}

/// Folds `i` into `0, .., max`: up from 0 to `max`, then down from `max - 1`
/// to 0, and so on.
pub fn fold_into_range(i: usize, max: usize) -> (r: usize)
    ensures
        r == fold_spec(i as int, max as int),
        r <= max,
{
    proof {
        lemma_mod_bound(i as int, 2 * (max + 1) - 1);
    }
    if max == 0 {
        return 0;
    }
    let a = if max > (usize::MAX - 1) / 2 {
        proof {
            lemma_small_mod(i as nat, (2 * (max + 1) - 1) as nat);
        }
        i
    } else {
        i % (2 * max + 1)
    };
    if a <= max {
        a
    } else {
        max - (a - max)
    }
}

/// `i`, or `max` where `i` is more.
pub fn stack_high(i: usize, max: usize) -> (r: usize)
    ensures
        r == stack_high_spec(i as int, max as int),
        r <= max,
{
    if i > max {
        max
    } else {
        i
    }
}

/// `i`, or 0 where `i` is more than `max`.
pub fn stack_low(i: usize, max: usize) -> (r: usize)
    ensures
        r == stack_low_spec(i as int, max as int),
        r <= max,
{
    if i > max {
        0
    } else {
        i
    }
}

/// Takes the place of a note in the registry and returns the row that the
/// note goes to, if any. `active_row_indices` lists the rows that are on.
pub fn map_note_index_to_row_index(
    note_index: usize,
    active_row_indices: &Vec<usize>,
    note_wrapping_mode: &NoteWrapping,
) -> (r: Option<usize>)
    ensures
        r == mapped_row(note_index as int, active_row_indices@, *note_wrapping_mode),
        r matches Some(row) ==> active_row_indices@.contains(row),
{
    if active_row_indices.len() == 0 {
        return None;
    }
    let max_row = active_row_indices.len() - 1;
    let row_index = match note_wrapping_mode {
        NoteWrapping::Fold => Some(fold_into_range(note_index, max_row)),
        NoteWrapping::Wrap => Some(wrap(note_index, max_row)),
        NoteWrapping::StackHigh => Some(stack_high(note_index, max_row)),
        NoteWrapping::StackLow => Some(stack_low(note_index, max_row)),
        NoteWrapping::Clip => {
            if note_index < max_row {
                Some(note_index)
            } else {
                None
            }
        },
    };
    match row_index {
        Some(r) => Some(active_row_indices[r]),
        None => None,
    }
}

/// The first position of `s` at which `p` holds; the length of `s` if there is none.
pub open spec fn first_where<T>(s: Seq<T>, p: spec_fn(T) -> bool) -> int
    decreases s.len(),
{
    if s.len() == 0 {
        0
    } else if p(s.first()) {
        0
    } else {
        1 + first_where(s.drop_first(), p)
    }
}

/// `first_where` is the one position before which `p` holds nowhere and at
/// which it holds, or the length.
pub proof fn lemma_first_where<T>(s: Seq<T>, p: spec_fn(T) -> bool, k: int)
    requires
        0 <= k <= s.len(),
        k < s.len() ==> p(s[k]),
        forall|i: int| 0 <= i < k ==> !p(s[i]),
    ensures
        first_where(s, p) == k,
    decreases s.len(),
{
    if s.len() > 0 && k > 0 {
        assert(!p(s[0]));
        let rest = s.drop_first();
        assert forall|i: int| 0 <= i < k - 1 implies !p(rest[i]) by {
            assert(rest[i] == s[i + 1]);
        }
        lemma_first_where(rest, p, k - 1);
    }
}

/// A slot of the registry that a released note left behind.
pub open spec fn is_empty_slot() -> spec_fn(Option<Note>) -> bool {
    |slot: Option<Note>| slot is None
}

/// A slot of the registry that holds a note of higher pitch than `pitch`.
pub open spec fn is_higher_than(pitch: usize) -> spec_fn(Option<Note>) -> bool {
    |slot: Option<Note>| slot matches Some(n) && n.note_number > pitch
}

/// A slot of the registry that holds a note of the pitch `pitch`.
pub open spec fn sounds(slot: Option<Note>, pitch: usize) -> bool {
    slot matches Some(n) && n.note_number == pitch
}

/// A slot of the registry that does not hold a note of the pitch `pitch`.
pub open spec fn keeps(pitch: usize) -> spec_fn(Option<Note>) -> bool {
    |slot: Option<Note>| !sounds(slot, pitch)
}

/// The registry with the slots that hold a note of the pitch `pitch` emptied.
pub open spec fn blanked(registry: Seq<Option<Note>>, pitch: usize) -> Seq<Option<Note>> {
    Seq::new(
        registry.len(),
        |i: int|
            if sounds(registry[i], pitch) {
                None
            } else {
                registry[i]
            },
    )
}

/// Every slot of the registry is empty.
pub open spec fn all_empty(registry: Seq<Option<Note>>) -> bool {
    forall|i: int| 0 <= i < registry.len() ==> registry[i] is None
}

/// The registry after `note` was struck: the note fills the first empty slot;
/// where there is none it is put in as the ordering says.
pub open spec fn registry_after_note_on(
    registry: Seq<Option<Note>>,
    note: Note,
    ordering: NoteOrdering,
) -> Seq<Option<Note>> {
    let slot = first_where(registry, is_empty_slot());
    if slot < registry.len() {
        registry.update(slot, Some(note))
    } else {
        match ordering {
            NoteOrdering::LowestFirst => registry.insert(
                first_where(registry, is_higher_than(note.note_number)),
                Some(note),
            ),
            NoteOrdering::OldestFirst => registry.push(Some(note)),
        }
    }
}

/// The registry after the pitch `pitch` was released. With hold, its slots
/// are emptied and stay, until every slot is empty: then the registry is
/// cleared. Without hold its slots are taken out.
pub open spec fn registry_after_note_off(
    registry: Seq<Option<Note>>,
    pitch: usize,
    hold: bool,
) -> Seq<Option<Note>> {
    if hold {
        if all_empty(blanked(registry, pitch)) {
            Seq::empty()
        } else {
            blanked(registry, pitch)
        }
    } else {
        registry.filter(keeps(pitch))
    }
}

/// What a row holds: whether it is on, and its queue of notes.
pub struct RowView {
    /// Whether the row is on.
    pub active: bool,
    /// The notes that play on the row, and which comes next.
    pub notes: LoopingSequenceView<Note>,
}

/// The rows that are on, in ascending order.
pub open spec fn active_indices(rows: Seq<RowView>) -> Seq<usize>
    decreases rows.len(),
{
    if rows.len() == 0 {
        Seq::empty()
    } else if rows.last().active {
        active_indices(rows.drop_last()).push((rows.len() - 1) as usize)
    } else {
        active_indices(rows.drop_last())
    }
}

/// `active_indices` lists exactly the rows that are on, each once, in ascending order.
pub proof fn lemma_active_indices(rows: Seq<RowView>)
    requires
        rows.len() <= usize::MAX,
    ensures
        active_indices(rows).len() <= rows.len(),
        forall|k: int|
            0 <= k < active_indices(rows).len() ==> (#[trigger] active_indices(rows)[k])
                < rows.len() && rows[active_indices(rows)[k] as int].active,
        forall|j: int, k: int|
            0 <= j < k < active_indices(rows).len() ==> active_indices(rows)[j] < active_indices(
                rows,
            )[k],
        forall|i: int|
            0 <= i < rows.len() && rows[i].active ==> active_indices(rows).contains(i as usize),
    decreases rows.len(),
{
    if rows.len() > 0 {
        let front = rows.drop_last();
        lemma_active_indices(front);
        let all = active_indices(rows);
        assert forall|i: int| 0 <= i < rows.len() && rows[i].active implies all.contains(
            i as usize,
        ) by {
            if i == rows.len() - 1 {
                assert(all[all.len() - 1] == i as usize);
            } else {
                assert(front[i].active);
                let w = choose|w: int|
                    0 <= w < active_indices(front).len() && active_indices(front)[w] == i as usize;
                assert(all[w] == i as usize);
            }
        }
    }
}

/// The notes among the first `k` slots of the registry that go to row `row`,
/// in the order of the registry.
pub open spec fn assigned(
    registry: Seq<Option<Note>>,
    active_rows: Seq<usize>,
    mode: NoteWrapping,
    row: int,
    k: int,
) -> Seq<Note>
    decreases k,
{
    if k <= 0 {
        Seq::empty()
    } else if mapped_row(k - 1, active_rows, mode) == Some(row as usize) && registry[k
        - 1] is Some {
        assigned(registry, active_rows, mode, row, k - 1).push(registry[k - 1]->0)
    } else {
        assigned(registry, active_rows, mode, row, k - 1)
    }
}

/// A row that is off is assigned none of the first `k` notes of the registry.
pub proof fn lemma_inactive_row_gets_no_note(
    rows: Seq<RowView>,
    registry: Seq<Option<Note>>,
    mode: NoteWrapping,
    row: int,
    k: int,
)
    requires
        rows.len() <= usize::MAX,
        0 <= row < rows.len(),
        !rows[row].active,
        0 <= k,
    ensures
        assigned(registry, active_indices(rows), mode, row, k) == Seq::<Note>::empty(),
    decreases k,
{
    let active_rows = active_indices(rows);
    lemma_active_indices(rows);
    if k > 0 {
        lemma_inactive_row_gets_no_note(rows, registry, mode, row, k - 1);
        if active_rows.len() > 0 {
            lemma_wrapped_offset_in_range(mode, k - 1, active_rows.len() - 1);
            if let Some(offset) = wrapped_offset(mode, k - 1, active_rows.len() - 1) {
                assert(rows[active_rows[offset] as int].active);
            }
        }
    }
}

/// After an assignment a row that is off has no notes: rows that are off are
/// never the target of a note.
pub proof fn lemma_inactive_rows_are_empty(
    rows: Seq<RowView>,
    registry: Seq<Option<Note>>,
    mode: NoteWrapping,
    row: int,
)
    requires
        rows.len() <= usize::MAX,
        0 <= row < rows.len(),
        !rows[row].active,
    ensures
        !remapped_rows(rows, registry, mode)[row].active,
        remapped_rows(rows, registry, mode)[row].notes.data == Seq::<Note>::empty(),
{
    lemma_inactive_row_gets_no_note(rows, registry, mode, row, registry.len() as int);
}

/// The rows after the notes on each of them were assigned afresh: row `r`
/// plays, from the front, the notes of the registry that go to it.
pub open spec fn remapped_rows(
    rows: Seq<RowView>,
    registry: Seq<Option<Note>>,
    mode: NoteWrapping,
) -> Seq<RowView> {
    Seq::new(
        rows.len(),
        |r: int|
            RowView {
                active: rows[r].active,
                notes: LoopingSequenceView {
                    data: assigned(registry, active_indices(rows), mode, r, registry.len() as int),
                    counter: 0,
                },
            },
    )
}

/// Row `index` is on and has a note to play.
pub open spec fn can_play(rows: Seq<RowView>, index: int) -> bool {
    0 <= index < rows.len() && rows[index].active && rows[index].notes.data.len() > 0
}

/// The rows after each row named in `triggered` that can play has played its
/// next note, in the order of `triggered`.
pub open spec fn rows_after_trigger(rows: Seq<RowView>, triggered: Seq<usize>) -> Seq<RowView>
    decreases triggered.len(),
{
    if triggered.len() == 0 {
        rows
    } else {
        let before = rows_after_trigger(rows, triggered.drop_last());
        let index = triggered.last() as int;
        if can_play(before, index) {
            before.update(
                index,
                RowView { active: before[index].active, notes: before[index].notes.advance() },
            )
        } else {
            before
        }
    }
}

/// Playing leaves as many rows as there were.
pub proof fn lemma_rows_after_trigger_len(rows: Seq<RowView>, triggered: Seq<usize>)
    ensures
        rows_after_trigger(rows, triggered).len() == rows.len(),
    decreases triggered.len(),
{
    if triggered.len() > 0 {
        lemma_rows_after_trigger_len(rows, triggered.drop_last());
    }
}

/// The notes that the rows named in `triggered` play, in the order of `triggered`.
pub open spec fn notes_on_trigger(rows: Seq<RowView>, triggered: Seq<usize>) -> Seq<Note>
    decreases triggered.len(),
{
    if triggered.len() == 0 {
        Seq::empty()
    } else {
        let before = rows_after_trigger(rows, triggered.drop_last());
        let index = triggered.last() as int;
        if can_play(before, index) {
            notes_on_trigger(rows, triggered.drop_last()).push(
                before[index].notes.data[before[index].notes.cursor()],
            )
        } else {
            notes_on_trigger(rows, triggered.drop_last())
        }
    }
}

/// What a note assigner holds.
pub struct NoteAssignerView {
    /// The registry of held notes. An empty slot stands for a released note
    /// whose place is kept while hold is on.
    pub active_notes: Seq<Option<Note>>,
    /// The rows, as many as the sequencer has.
    pub rows: Seq<RowView>,
    /// Where a new note goes in the registry.
    pub note_ordering_mode: NoteOrdering,
    /// Where notes go that lie past the rows that are on.
    pub note_wrapping_mode: NoteWrapping,
    /// Whether a released note leaves an empty slot behind.
    pub hold_notes_enabled: bool,
    /// Whether rows without a note are to be filled with octaves. Kept, but
    /// without effect.
    pub auto_octave_enabled: bool,
}

/// The slot of the registry that row slot `row_index` repeats when the held
/// notes are laid over the row slots again and again.
pub open spec fn repeated_slot(registry: Seq<Option<Note>>, row_index: int) -> Option<Note> {
    registry[row_index % (registry.len() as int)]
}

/// How many times the registry was gone through before row slot `row_index`.
pub open spec fn octave_of(registry: Seq<Option<Note>>, row_index: int) -> int {
    row_index / (registry.len() as int)
}

/// The note for row slot `row_index` when the held notes are repeated over
/// the row slots, an octave higher each time round. The note of pitch and
/// velocity 0 where the registry is empty.
pub open spec fn octave_shifted(registry: Seq<Option<Note>>, row_index: int) -> Note {
    if registry.len() == 0 {
        Note { note_number: 0, velocity: 0 }
    } else {
        Note {
            note_number: (repeated_slot(registry, row_index)->0.note_number + 12 * octave_of(
                registry,
                row_index,
            )) as usize,
            velocity: repeated_slot(registry, row_index)->0.velocity,
        }
    }
}

impl NoteAssignerView {
    /// The assigner has a row for every row slot of the sequencer. So it is
    /// for every assigner there is.
    pub open spec fn wf(self) -> bool {
        self.rows.len() == NUM_ROWS
    }

    /// An assigner without notes: all rows on and empty, lowest note first,
    /// folding, no hold.
    pub open spec fn initial() -> NoteAssignerView {
        NoteAssignerView {
            active_notes: Seq::empty(),
            rows: Seq::new(
                NUM_ROWS as nat,
                |i: int|
                    RowView {
                        active: true,
                        notes: LoopingSequenceView { data: Seq::empty(), counter: 0 },
                    },
            ),
            note_ordering_mode: NoteOrdering::LowestFirst,
            note_wrapping_mode: NoteWrapping::Fold,
            hold_notes_enabled: false,
            auto_octave_enabled: false,
        }
    }

    /// The assigner with the registry `registry` and the notes of all rows
    /// assigned afresh from it.
    pub open spec fn with_registry(self, registry: Seq<Option<Note>>) -> NoteAssignerView {
        NoteAssignerView {
            active_notes: registry,
            rows: remapped_rows(self.rows, registry, self.note_wrapping_mode),
            note_ordering_mode: self.note_ordering_mode,
            note_wrapping_mode: self.note_wrapping_mode,
            hold_notes_enabled: self.hold_notes_enabled,
            auto_octave_enabled: self.auto_octave_enabled,
        }
    }

    /// The assigner with the rows `rows` and all else as it is.
    pub open spec fn with_rows(self, rows: Seq<RowView>) -> NoteAssignerView {
        NoteAssignerView {
            active_notes: self.active_notes,
            rows: rows,
            note_ordering_mode: self.note_ordering_mode,
            note_wrapping_mode: self.note_wrapping_mode,
            hold_notes_enabled: self.hold_notes_enabled,
            auto_octave_enabled: self.auto_octave_enabled,
        }
    }

    /// The assigner after `note` was struck.
    pub open spec fn note_on(self, note: Note) -> NoteAssignerView {
        self.with_registry(registry_after_note_on(self.active_notes, note, self.note_ordering_mode))
    }

    /// The assigner after the pitch `pitch` was released.
    pub open spec fn note_off(self, pitch: usize) -> NoteAssignerView {
        self.with_registry(
            registry_after_note_off(self.active_notes, pitch, self.hold_notes_enabled),
        )
    }
}

/// One row of the sequencer: whether it is on, and the notes that play on it.
#[derive(Debug)]
pub struct Row {
    active: bool,
    notes: LoopingSequence<Note>,
}

impl View for Row {
    type V = RowView;

    closed spec fn view(&self) -> RowView {
        RowView { active: self.active, notes: self.notes@ }
    }
}

impl Row {
    /// Puts `note` behind the notes of the row.
    pub fn add_note(&mut self, note: Note)
        ensures
            final(self)@ == (RowView {
                active: old(self)@.active,
                notes: LoopingSequenceView {
                    data: old(self)@.notes.data.push(note),
                    counter: old(self)@.notes.counter,
                },
            }),
    {
        self.notes.append(note);
    }

    /// Returns the next note of the row, if it has any, and moves on to the
    /// one after it.
    pub fn tick(&mut self) -> (note: Option<Note>)
        ensures
            note == old(self)@.notes.peek(),
            final(self)@ == (RowView {
                active: old(self)@.active,
                notes: old(self)@.notes.advance(),
            }),
    {
        self.notes.next()
    }
}

impl Default for Row {
    /// A row that is on and has no notes.
    fn default() -> (row: Self)
        ensures
            row@ == (RowView {
                active: true,
                notes: LoopingSequenceView { data: Seq::empty(), counter: 0 },
            }),
    {
        Row { active: true, notes: LoopingSequence::new(Vec::new()) }
    }
}

/// Keeps the held notes, assigns them to rows, and hands out the note that
/// comes next on a row.
pub struct NoteAssigner {
    active_notes: Vec<Option<Note>>,
    rows: [Row; NUM_ROWS],
    note_ordering_mode: NoteOrdering,
    note_wrapping_mode: NoteWrapping,
    hold_notes_enabled: bool,
    auto_octave_enabled: bool,
}

impl View for NoteAssigner {
    type V = NoteAssignerView;

    closed spec fn view(&self) -> NoteAssignerView {
        NoteAssignerView {
            active_notes: self.active_notes@,
            rows: Seq::new(NUM_ROWS as nat, |i: int| self.rows[i]@),
            note_ordering_mode: self.note_ordering_mode,
            note_wrapping_mode: self.note_wrapping_mode,
            hold_notes_enabled: self.hold_notes_enabled,
            auto_octave_enabled: self.auto_octave_enabled,
        }
    }
}

impl NoteAssigner {
    /// Every assigner has a row for every row slot of the sequencer.
    pub proof fn lemma_has_all_rows(&self)
        ensures
            self@.wf(),
    {
    }

    /// An assigner without notes: all rows on, lowest note first, folding, no hold.
    pub fn new() -> (assigner: Self)
        ensures
            assigner@ == NoteAssignerView::initial(),
            assigner@.wf(),
    {
        let assigner = NoteAssigner {
            active_notes: Vec::new(),
            rows: [Row::default(), Row::default(), Row::default(), Row::default()],
            note_ordering_mode: NoteOrdering::LowestFirst,
            note_wrapping_mode: NoteWrapping::Fold,
            hold_notes_enabled: false,
            auto_octave_enabled: false,
        };
        assert(assigner@.rows =~= NoteAssignerView::initial().rows);
        assigner
    }

    /// Lets each row named in `triggered_rows` that is on and has notes play
    /// its next note, and returns these notes in the order of `triggered_rows`.
    /// Rows that are off or have no notes are passed over.
    pub fn get_next_notes(&mut self, triggered_rows: Vec<usize>) -> (notes: Vec<Note>)
        ensures
            old(self)@.wf(),
            final(self)@.wf(),
            notes@ == notes_on_trigger(old(self)@.rows, triggered_rows@),
            final(self)@ == old(self)@.with_rows(
                rows_after_trigger(old(self)@.rows, triggered_rows@),
            ),
    {
        let mut notes: Vec<Note> = Vec::new();
        let mut i: usize = 0;
        while i < triggered_rows.len()
            invariant
                i <= triggered_rows.len(),
                notes@ == notes_on_trigger(old(self)@.rows, triggered_rows@.take(i as int)),
                self@ == old(self)@.with_rows(
                    rows_after_trigger(old(self)@.rows, triggered_rows@.take(i as int)),
                ),
            decreases triggered_rows.len() - i,
        {
            let row_index = triggered_rows[i];
            let ghost before = self@.rows;
            proof {
                assert(triggered_rows@.take(i + 1).drop_last() =~= triggered_rows@.take(i as int));
            }
            if self.row_has_note_and_active(row_index) {
                if let Some(note) = self.rows[row_index].tick() {
                    notes.push(note);
                }
                assert(self@.rows =~= before.update(
                    row_index as int,
                    RowView {
                        active: before[row_index as int].active,
                        notes: before[row_index as int].notes.advance(),
                    },
                ));
            }
            i = i + 1;
        }
        assert(triggered_rows@.take(i as int) =~= triggered_rows@);
        notes
    }

    /// A note was struck: it fills the first empty slot of the registry, or
    /// is put in as the ordering says; then the notes of all rows are assigned
    /// afresh.
    pub fn note_on(&mut self, note_number: usize, velocity: usize)
        ensures
            old(self)@.wf(),
            final(self)@.wf(),
            final(self)@ == old(self)@.note_on(Note { note_number, velocity }),
    {
        let new_note = Note { note_number, velocity };
        if !self.fill_empty_note_if_available(new_note) {
            match self.note_ordering_mode {
                NoteOrdering::LowestFirst => {
                    let mut pos: usize = 0;
                    while pos < self.active_notes.len() && !is_higher(
                        &self.active_notes[pos],
                        note_number,
                    )
                        invariant
                            pos <= self.active_notes.len(),
                            self@ == old(self)@,
                            forall|k: int|
                                0 <= k < pos ==> !is_higher_than(note_number)(self.active_notes[k]),
                        decreases self.active_notes.len() - pos,
                    {
                        pos = pos + 1;
                    }
                    proof {
                        lemma_first_where(
                            self.active_notes@,
                            is_higher_than(note_number),
                            pos as int,
                        );
                    }
                    self.active_notes.insert(pos, Some(new_note));
                },
                NoteOrdering::OldestFirst => {
                    self.active_notes.push(Some(new_note));
                },
            }
        }
        self.update_note_to_row_mapping();
    }

    /// A pitch was released. With hold its slots of the registry are emptied,
    /// and the registry is cleared once all its slots are empty; without hold
    /// its slots are taken out. Then the notes of all rows are assigned afresh.
    pub fn note_off(&mut self, note_number: usize)
        ensures
            old(self)@.wf(),
            final(self)@.wf(),
            final(self)@ == old(self)@.note_off(note_number),
    {
        if self.hold_notes_enabled {
            let mut i: usize = 0;
            while i < self.active_notes.len()
                invariant
                    i <= self.active_notes.len(),
                    self.active_notes.len() == old(self).active_notes.len(),
                    self@ == (NoteAssignerView { active_notes: self@.active_notes, ..old(self)@ }),
                    forall|k: int|
                        0 <= k < i ==> self.active_notes[k] == blanked(
                            old(self)@.active_notes,
                            note_number,
                        )[k],
                    forall|k: int|
                        i <= k < self.active_notes.len() ==> self.active_notes[k] == old(
                            self,
                        )@.active_notes[k],
                decreases self.active_notes.len() - i,
            {
                if sounds_pitch(&self.active_notes[i], note_number) {
                    self.active_notes[i] = None;
                }
                i = i + 1;
            }
            assert(self.active_notes@ =~= blanked(old(self)@.active_notes, note_number));
            if self.all_active_notes_empty() {
                self.active_notes.clear();
            }
        } else {
            let mut kept: Vec<Option<Note>> = Vec::new();
            let mut i: usize = 0;
            while i < self.active_notes.len()
                invariant
                    i <= self.active_notes.len(),
                    self@ == old(self)@,
                    kept@ == self.active_notes@.take(i as int).filter(keeps(note_number)),
                decreases self.active_notes.len() - i,
            {
                proof {
                    self.active_notes@.take(i as int).lemma_filter_push(
                        self.active_notes@[i as int],
                        keeps(note_number),
                    );
                    assert(self.active_notes@.take(i + 1) =~= self.active_notes@.take(
                        i as int,
                    ).push(self.active_notes@[i as int]));
                }
                if !sounds_pitch(&self.active_notes[i], note_number) {
                    kept.push(self.active_notes[i]);
                }
                i = i + 1;
            }
            assert(self.active_notes@.take(i as int) =~= self.active_notes@);
            self.active_notes = kept;
        }
        self.update_note_to_row_mapping();
    }

    /// Switches hold on or off.
    pub fn set_hold_notes_enabled(&mut self, enabled: bool)
        ensures
            old(self)@.wf(),
            final(self)@.wf(),
            final(self)@ == (NoteAssignerView { hold_notes_enabled: enabled, ..old(self)@ }),
    {
        self.hold_notes_enabled = enabled;
    }

    /// Says where a new note goes in the registry from now on.
    pub fn set_note_ordering_mode(&mut self, mode: NoteOrdering)
        ensures
            old(self)@.wf(),
            final(self)@.wf(),
            final(self)@ == (NoteAssignerView { note_ordering_mode: mode, ..old(self)@ }),
    {
        self.note_ordering_mode = mode;
    }

    /// Says where notes past the rows that are on go, from the next
    /// assignment on.
    pub fn set_note_wrapping_mode(&mut self, mode: NoteWrapping)
        ensures
            old(self)@.wf(),
            final(self)@.wf(),
            final(self)@ == (NoteAssignerView { note_wrapping_mode: mode, ..old(self)@ }),
    {
        self.note_wrapping_mode = mode;
    }

    /// Whether every slot of the registry is empty.
    pub fn all_active_notes_empty(&self) -> (b: bool)
        ensures
            b == all_empty(self@.active_notes),
    {
        let mut i: usize = 0;
        while i < self.active_notes.len()
            invariant
                i <= self.active_notes.len(),
                forall|k: int| 0 <= k < i ==> self.active_notes[k] is None,
            decreases self.active_notes.len() - i,
        {
            if self.active_notes[i].is_some() {
                return false;
            }
            i = i + 1;
        }
        true
    }

    /// Whether `index` names a row that is on and has a note to play.
    pub fn row_has_note_and_active(&self, index: usize) -> (b: bool)
        ensures
            self@.wf(),
            b == can_play(self@.rows, index as int),
    {
        index < NUM_ROWS && self.rows[index].active && self.rows[index].notes.len() > 0
    }

    /// Switches row `row_number` on or off. Nothing happens where there is no
    /// such row. The notes of the rows stay as they are until they are next
    /// assigned.
    pub fn set_row_active(&mut self, row_number: usize, active: bool)
        ensures
            old(self)@.wf(),
            final(self)@.wf(),
            final(self)@ == if row_number < NUM_ROWS {
                old(self)@.with_rows(
                    old(self)@.rows.update(
                        row_number as int,
                        RowView { active: active, notes: old(self)@.rows[row_number as int].notes },
                    ),
                )
            } else {
                old(self)@
            },
    {
        if row_number < NUM_ROWS {
            self.rows[row_number].active = active;
            assert(self@.rows =~= old(self)@.rows.update(
                row_number as int,
                RowView { active: active, notes: old(self)@.rows[row_number as int].notes },
            ));
        }
    }

    /// Takes the notes off all rows.
    pub fn clear_all_note_assignments(&mut self)
        ensures
            old(self)@.wf(),
            final(self)@.wf(),
            final(self)@ == old(self)@.with_rows(
                Seq::new(
                    NUM_ROWS as nat,
                    |r: int|
                        RowView {
                            active: old(self)@.rows[r].active,
                            notes: LoopingSequenceView { data: Seq::empty(), counter: 0 },
                        },
                ),
            ),
    {
        let mut r: usize = 0;
        while r < NUM_ROWS
            invariant
                r <= NUM_ROWS,
                self@.with_rows(old(self)@.rows) == old(self)@,
                forall|k: int|
                    0 <= k < NUM_ROWS ==> (#[trigger] self.rows[k])@ == if k < r {
                        RowView {
                            active: old(self)@.rows[k].active,
                            notes: LoopingSequenceView { data: Seq::empty(), counter: 0 },
                        }
                    } else {
                        old(self)@.rows[k]
                    },
            decreases NUM_ROWS - r,
        {
            self.rows[r].notes.clear();
            r = r + 1;
        }
        assert(self@.rows =~= Seq::new(
            NUM_ROWS as nat,
            |r: int|
                RowView {
                    active: old(self)@.rows[r].active,
                    notes: LoopingSequenceView { data: Seq::empty(), counter: 0 },
                },
        ));
    }

    /// The rows that are on, in ascending order.
    pub fn active_row_indices(&self) -> (indices: Vec<usize>)
        ensures
            self@.wf(),
            indices@ == active_indices(self@.rows),
            indices.len() <= NUM_ROWS,
            forall|k: int| 0 <= k < indices.len() ==> indices[k] < NUM_ROWS,
    {
        let mut indices: Vec<usize> = Vec::new();
        let mut i: usize = 0;
        while i < NUM_ROWS
            invariant
                i <= NUM_ROWS,
                indices@ == active_indices(self@.rows.take(i as int)),
            decreases NUM_ROWS - i,
        {
            proof {
                assert(self@.rows.take(i + 1).drop_last() =~= self@.rows.take(i as int));
            }
            if self.rows[i].active {
                indices.push(i);
            }
            i = i + 1;
        }
        proof {
            assert(self@.rows.take(i as int) =~= self@.rows);
            lemma_active_indices(self@.rows);
        }
        indices
    }

    /// The number of rows that are on.
    pub fn num_active_rows(&self) -> (n: usize)
        ensures
            self@.wf(),
            n == active_indices(self@.rows).len(),
    {
        self.active_row_indices().len()
    }

    /// Whether `index` names a row that is on.
    pub fn row_is_active(&self, index: usize) -> (b: bool)
        ensures
            self@.wf(),
            b == (index < NUM_ROWS && self@.rows[index as int].active),
    {
        index < NUM_ROWS && self.rows[index].active
    }

    /// The row that stands at place `index` when the rows that are on are
    /// counted from the last: with two rows on, the first and the second
    /// change places. An `index` past the rows that are on is returned as it is.
    pub fn invert_active_row_index(&self, index: usize) -> (r: usize)
        ensures
            r == if index < active_indices(self@.rows).len() {
                active_indices(self@.rows)[active_indices(self@.rows).len() - 1 - index]
            } else {
                index
            },
    {
        let indices = self.active_row_indices();
        if index < indices.len() {
            indices[indices.len() - 1 - index]
        } else {
            index
        }
    }

    /// Puts `note` into the first empty slot of the registry and says whether
    /// there was one.
    fn fill_empty_note_if_available(&mut self, note: Note) -> (filled: bool)
        ensures
            filled == (first_where(old(self)@.active_notes, is_empty_slot())
                < old(self)@.active_notes.len()),
            final(self)@ == (NoteAssignerView {
                active_notes: if filled {
                    old(self)@.active_notes.update(
                        first_where(old(self)@.active_notes, is_empty_slot()),
                        Some(note),
                    )
                } else {
                    old(self)@.active_notes
                },
                ..old(self)@
            }),
    {
        let mut pos: usize = 0;
        while pos < self.active_notes.len() && self.active_notes[pos].is_some()
            invariant
                pos <= self.active_notes.len(),
                self@ == old(self)@,
                forall|k: int| 0 <= k < pos ==> !is_empty_slot()(self.active_notes[k]),
            decreases self.active_notes.len() - pos,
        {
            pos = pos + 1;
        }
        proof {
            lemma_first_where(self.active_notes@, is_empty_slot(), pos as int);
        }
        if pos < self.active_notes.len() {
            self.active_notes[pos] = Some(note);
            true
        } else {
            false
        }
    }

    /// Whether notes past the rows that are on go anywhere.
    pub fn wrap_notes_enabled(&self) -> (b: bool)
        ensures
            b == !(self@.note_wrapping_mode is Clip),
    {
        match self.note_wrapping_mode {
            NoteWrapping::Clip => false,
            _ => true,
        }
    }

    /// Assigns the notes of the registry to the rows afresh: every row loses
    /// its notes; then each note of the registry, in the order of the
    /// registry, goes to the row that its place maps to, if there is one.
    pub fn update_note_to_row_mapping(&mut self)
        ensures
            old(self)@.wf(),
            final(self)@.wf(),
            final(self)@ == old(self)@.with_registry(old(self)@.active_notes),
    {
        let active_rows = self.active_row_indices();
        self.clear_all_note_assignments();
        let ghost cleared = self@;
        assert forall|r: int| 0 <= r < NUM_ROWS implies (#[trigger] self.rows[r])@
            == cleared.rows[r] by {}
        let mut note_index: usize = 0;
        while note_index < self.active_notes.len()
            invariant
                note_index <= self.active_notes.len(),
                active_rows@ == active_indices(old(self)@.rows),
                forall|k: int| 0 <= k < active_rows.len() ==> active_rows[k] < NUM_ROWS,
                self@.with_rows(cleared.rows) == cleared,
                cleared.active_notes == old(self)@.active_notes,
                cleared.note_wrapping_mode == old(self)@.note_wrapping_mode,
                forall|r: int|
                    0 <= r < NUM_ROWS ==> (#[trigger] self.rows[r])@ == (RowView {
                        active: old(self)@.rows[r].active,
                        notes: LoopingSequenceView {
                            data: assigned(
                                old(self)@.active_notes,
                                active_rows@,
                                old(self)@.note_wrapping_mode,
                                r,
                                note_index as int,
                            ),
                            counter: 0,
                        },
                    }),
            decreases self.active_notes.len() - note_index,
        {
            let row_index = map_note_index_to_row_index(
                note_index,
                &active_rows,
                &self.note_wrapping_mode,
            );
            if let Some(r) = row_index {
                if let Some(n) = self.active_notes[note_index] {
                    self.rows[r].add_note(n);
                }
            }
            note_index = note_index + 1;
        }
        assert(self@.rows =~= remapped_rows(
            old(self)@.rows,
            old(self)@.active_notes,
            old(self)@.note_wrapping_mode,
        ));
    }

    /// Switches the filling of empty rows with octaves on or off. The switch
    /// is kept; it does not change what the rows play.
    pub fn set_fill_octaves_enabled(&mut self, enabled: bool)
        ensures
            old(self)@.wf(),
            final(self)@.wf(),
            final(self)@ == (NoteAssignerView { auto_octave_enabled: enabled, ..old(self)@ }),
    {
        self.auto_octave_enabled = enabled;
    }

    /// The note for row slot `row_index` when the held notes are repeated
    /// over the row slots, an octave higher each time round. The slot of the
    /// registry that is repeated must hold a note, and the pitch must not
    /// leave the range of numbers.
    pub fn get_octave_shifted_note_for_index(&self, row_index: usize) -> (note: Note)
        requires
            self@.active_notes.len() > 0 ==> (repeated_slot(self@.active_notes, row_index as int)
                matches Some(n) && n.note_number + 12 * octave_of(
                self@.active_notes,
                row_index as int,
            ) <= usize::MAX),
        ensures
            note == octave_shifted(self@.active_notes, row_index as int),
    {
        if self.active_notes.len() == 0 {
            return Note { note_number: 0, velocity: 0 };
        }
        let octave = row_index / self.active_notes.len();
        match self.active_notes[row_index % self.active_notes.len()] {
            Some(note_to_repeat) => Note {
                note_number: note_to_repeat.note_number + 12 * octave,
                velocity: note_to_repeat.velocity,
            },
            None => Note { note_number: 0, velocity: 0 },
        }
    }

    /// The notes of each row, in the order in which the row plays them.
    pub fn get_notes_for_rows(&self) -> (notes: [Vec<Note>; NUM_ROWS])
        ensures
            self@.wf(),
            forall|r: int| 0 <= r < NUM_ROWS ==> (#[trigger] notes[r])@ == self@.rows[r].notes.data,
    {
        [
            self.rows[0].notes.clone_data(),
            self.rows[1].notes.clone_data(),
            self.rows[2].notes.clone_data(),
            self.rows[3].notes.clone_data(),
        ]
    }

    /// A copy of the registry of held notes.
    pub fn active_notes(&self) -> (registry: Vec<Option<Note>>)
        ensures
            registry@ == self@.active_notes,
    {
        let mut registry: Vec<Option<Note>> = Vec::new();
        let mut i: usize = 0;
        while i < self.active_notes.len()
            invariant
                i <= self.active_notes.len(),
                registry@ == self.active_notes@.take(i as int),
            decreases self.active_notes.len() - i,
        {
            registry.push(self.active_notes[i]);
            i = i + 1;
        }
        assert(self.active_notes@.take(i as int) =~= self.active_notes@);
        registry
    }
}

/// Whether `slot` holds a note of higher pitch than `pitch`.
fn is_higher(slot: &Option<Note>, pitch: usize) -> (b: bool)
    ensures
        b == is_higher_than(pitch)(*slot),
{
    match slot {
        Some(n) => n.note_number > pitch,
        None => false,
    }
}

/// Whether `slot` holds a note of the pitch `pitch`.
fn sounds_pitch(slot: &Option<Note>, pitch: usize) -> (b: bool)
    ensures
        b == sounds(*slot, pitch),
{
    match slot {
        Some(n) => n.note_number == pitch,
        None => false,
    }
}

} // verus!
