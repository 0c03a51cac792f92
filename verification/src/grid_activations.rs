//! The activation grid: which steps of which rows are on, and the threshold
//! permutation that lets the pattern grow and shrink with a density.

use rand::seq::SliceRandom;
use vstd::prelude::*;
use crate::permutation::{
    below, count_true, is_distribution, is_permutation, is_range_permutation,
    lemma_count_below_none, lemma_count_true_all_false, lemma_count_true_below,
    lemma_count_true_bounds, lemma_count_true_concat, lemma_count_true_remove,
    lemma_count_true_update,
    lemma_permutation_count_below, lemma_permutation_position, lemma_same_order_ranks,
    lemma_swapped_permutation, position_of, ranks, same_order, swapped,
};
use crate::rho_config::NUM_ROWS;
use crate::row_layout::{
    flat_index_of, grid_index_of, lemma_grid_of_flat_of_grid, lemma_row_of,
    lemma_row_start_monotonic, lemma_row_start_uniform, lemma_row_start_update, row_holds,
    row_start, total_steps, valid_grid_index, with_inserted, without_range,
};

verus! {

/// The rows of `v`, each as a sequence.
pub open spec fn rows_of(v: Seq<Vec<usize>>) -> Seq<Seq<usize>> {
    v.map_values(|row: Vec<usize>| row@)
}

/// Joins the rows of a grid into one flat sequence, row after row.
pub fn flatten(v: Vec<Vec<usize>>) -> (result: Vec<usize>)
    ensures
        result@ == rows_of(v@).flatten(),
{
    let mut result: Vec<usize> = Vec::new();
    let mut r: usize = 0;
    while r < v.len()
        invariant
            r <= v.len(),
            result@ == rows_of(v@).take(r as int).flatten(),
        decreases v.len() - r,
    {
        let ghost before = result@;
        let row = &v[r];
        let mut s: usize = 0;
        while s < row.len()
            invariant
                s <= row.len(),
                result@ == before + row@.take(s as int),
            decreases row.len() - s,
        {
            result.push(row[s]);
            s = s + 1;
            assert(row@.take(s as int) =~= row@.take(s - 1).push(row@[s - 1]));
        }
        proof {
            assert(row@.take(s as int) =~= row@);
            let done = rows_of(v@).take(r as int);
            done.lemma_flatten_push(row@);
            assert(rows_of(v@).take(r + 1) =~= done.push(row@));
        }
        r = r + 1;
    }
    assert(rows_of(v@).take(r as int) =~= rows_of(v@));
    result
}

/// Cuts a flat sequence into rows of the given lengths.
pub fn unflatten(flat: &Vec<usize>, row_lengths: &Vec<usize>) -> (grid: Vec<Vec<usize>>)
    requires
        total_steps(row_lengths@) == flat.len(),
    ensures
        grid.len() == row_lengths.len(),
        forall|r: int|
            0 <= r < grid.len() ==> (#[trigger] grid[r])@ == flat@.subrange(
                row_start(row_lengths@, r),
                row_start(row_lengths@, r + 1),
            ),
{
    let mut grid: Vec<Vec<usize>> = Vec::new();
    let mut i_f: usize = 0;
    let mut r: usize = 0;
    while r < row_lengths.len()
        invariant
            r <= row_lengths.len(),
            grid.len() == r,
            i_f == row_start(row_lengths@, r as int),
            total_steps(row_lengths@) == flat.len(),
            forall|k: int|
                0 <= k < r ==> (#[trigger] grid[k])@ == flat@.subrange(
                    row_start(row_lengths@, k),
                    row_start(row_lengths@, k + 1),
                ),
        decreases row_lengths.len() - r,
    {
        let len = row_lengths[r];
        proof {
            lemma_row_start_monotonic(row_lengths@, r + 1, row_lengths.len() as int);
        }
        let mut row: Vec<usize> = Vec::new();
        let mut s: usize = 0;
        while s < len
            invariant
                s <= len,
                i_f + len <= flat.len(),
                row@ == flat@.subrange(i_f as int, i_f + s),
            decreases len - s,
        {
            row.push(flat[i_f + s]);
            s = s + 1;
            assert(flat@.subrange(i_f as int, i_f + s) =~= flat@.subrange(i_f as int, i_f + s - 1).push(
                flat@[i_f + s - 1],
            ));
        }
        grid.push(row);
        i_f = i_f + len;
        r = r + 1;
    }
    grid
}

/// Finds the row and the step within it of a flat index.
pub fn flat_index_to_grid_index(flat_index: usize, row_lengths: &Vec<usize>) -> (r: (usize, usize))
    requires
        flat_index < total_steps(row_lengths@),
    ensures
        valid_grid_index(row_lengths@, r.0 as int, r.1 as int),
        flat_index_of(row_lengths@, r.0 as int, r.1 as int) == flat_index,
        (r.0 as int, r.1 as int) == grid_index_of(row_lengths@, flat_index as int),
{
    let mut row_index: usize = 0;
    let mut row_start_index: usize = 0;
    proof {
        lemma_row_of(row_lengths@, flat_index as int);
    }
    while flat_index - row_start_index >= row_lengths[row_index]
        invariant
            row_index < row_lengths.len(),
            row_start_index == row_start(row_lengths@, row_index as int),
            row_start_index <= flat_index < total_steps(row_lengths@),
        decreases row_lengths.len() - row_index,
    {
        proof {
            if row_index + 1 == row_lengths.len() {
                assert(row_start(row_lengths@, row_index + 1) == total_steps(row_lengths@));
            }
        }
        row_start_index = row_start_index + row_lengths[row_index];
        row_index = row_index + 1;
    }
    assert(row_holds(row_lengths@, row_index as int, flat_index as int));
    (row_index, flat_index - row_start_index)
}

/// The flat index of step `grid_index.1` of row `grid_index.0`. The index one
/// past the last step of the grid is allowed.
pub fn grid_index_to_flat_index(grid_index: (usize, usize), row_lengths: &Vec<usize>) -> (flat:
    usize)
    requires
        grid_index.0 <= row_lengths.len(),
        row_start(row_lengths@, grid_index.0 as int) + grid_index.1 <= total_steps(row_lengths@),
        total_steps(row_lengths@) <= usize::MAX,
    ensures
        flat == flat_index_of(row_lengths@, grid_index.0 as int, grid_index.1 as int),
{
    let mut steps_up_to_this_row: usize = 0;
    let mut r: usize = 0;
    while r < grid_index.0
        invariant
            r <= grid_index.0 <= row_lengths.len(),
            steps_up_to_this_row == row_start(row_lengths@, r as int),
            total_steps(row_lengths@) <= usize::MAX,
        decreases grid_index.0 - r,
    {
        proof {
            lemma_row_start_monotonic(row_lengths@, r + 1, row_lengths.len() as int);
        }
        steps_up_to_this_row = steps_up_to_this_row + row_lengths[r];
        r = r + 1;
    }
    steps_up_to_this_row + grid_index.1
}

/// What a grid holds, as plain sequences.
pub struct GridView {
    /// Which steps are on, row after row.
    pub active: Seq<bool>,
    /// The rank of each step: the smaller, the earlier a growing density turns it on.
    pub thresh: Seq<usize>,
    /// How many steps each row has.
    pub row_lengths: Seq<usize>,
}

impl GridView {
    /// The three sequences fit together and the thresholds are a permutation.
    pub open spec fn wf(self) -> bool {
        &&& self.active.len() == self.thresh.len()
        &&& total_steps(self.row_lengths) == self.active.len()
        &&& is_permutation(self.thresh)
    }

    /// The number of steps that are on.
    pub open spec fn num_active(self) -> nat {
        count_true(self.active)
    }

    /// The pattern is the one that its own density selects: the steps that are
    /// on are exactly those ranked below the number of steps that are on.
    pub open spec fn consistent(self) -> bool {
        self.active == below(self.thresh, self.num_active() as int)
    }

    /// The grid after a rewrite of the pattern for a density of `d` steps.
    pub open spec fn with_density(self, d: int) -> GridView {
        GridView { active: below(self.thresh, d), thresh: self.thresh, row_lengths: self.row_lengths }
    }

    /// The rank at the border between on and off once step `i` is left out:
    /// the number of other steps that are on.
    pub open spec fn border_rank(self, i: int) -> int {
        count_true(self.active.update(i, false)) as int
    }

    /// The grid after step `i` was set to `on`: nothing changes if it had that
    /// value; else the step exchanges its threshold with the step at the border.
    pub open spec fn change_step(self, i: int, on: bool) -> GridView {
        if self.active[i] == on {
            self
        } else {
            GridView {
                active: self.active.update(i, on),
                thresh: swapped(self.thresh, i, position_of(self.thresh, self.border_rank(i))),
                row_lengths: self.row_lengths,
            }
        }
    }

    /// The grid after the steps named in `order` were set, one after the
    /// other, to the value they have in `pattern`.
    pub open spec fn replay(self, pattern: Seq<bool>, order: Seq<usize>) -> GridView
        decreases order.len(),
    {
        if order.len() == 0 {
            self
        } else {
            self.replay(pattern, order.drop_last()).change_step(
                order.last() as int,
                pattern[order.last() as int],
            )
        }
    }

    /// The grid with all steps off and the thresholds `thresh`.
    pub open spec fn cleared(self, thresh: Seq<usize>) -> GridView {
        GridView {
            active: Seq::new(self.active.len(), |i: int| false),
            thresh: thresh,
            row_lengths: self.row_lengths,
        }
    }

    /// The flat index one past the last step of row `row`.
    pub open spec fn row_end(self, row: int) -> int {
        row_start(self.row_lengths, row + 1)
    }

    /// The grid after row `row` got new steps at its end, all off, with the
    /// thresholds `inserted`.
    pub open spec fn with_appended(self, row: int, inserted: Seq<usize>) -> GridView {
        GridView {
            active: with_inserted(
                self.active,
                self.row_end(row),
                Seq::new(inserted.len(), |i: int| false),
            ),
            thresh: with_inserted(self.thresh, self.row_end(row), inserted),
            row_lengths: self.row_lengths.update(
                row,
                (self.row_lengths[row] + inserted.len()) as usize,
            ),
        }
    }

    /// The steps and thresholds that stay when row `row` is cut to `new_length`
    /// steps, the thresholds not yet renumbered.
    pub open spec fn survivors(self, row: int, new_length: int) -> GridView {
        GridView {
            active: without_range(
                self.active,
                row_start(self.row_lengths, row) + new_length,
                self.row_end(row),
            ),
            thresh: without_range(
                self.thresh,
                row_start(self.row_lengths, row) + new_length,
                self.row_end(row),
            ),
            row_lengths: self.row_lengths.update(row, new_length as usize),
        }
    }
}

/// A polyphonic step grid: rows of steps that are on or off, and one
/// threshold per step.
pub struct GridActivations {
    active: Vec<bool>,
    thresh: Vec<usize>,
    row_lengths: Vec<usize>,
}

impl View for GridActivations {
    type V = GridView;

    closed spec fn view(&self) -> GridView {
        GridView { active: self.active@, thresh: self.thresh@, row_lengths: self.row_lengths@ }
    }
}

/// Setting one step keeps the grid well formed, changes no other step, and
/// keeps a consistent grid consistent.
pub proof fn lemma_change_step(g: GridView, i: int, on: bool)
    requires
        g.wf(),
        0 <= i < g.active.len(),
    ensures
        g.change_step(i, on).wf(),
        g.change_step(i, on).active == g.active.update(i, on),
        g.change_step(i, on).row_lengths == g.row_lengths,
        0 <= g.border_rank(i) < g.active.len(),
        g.consistent() ==> g.change_step(i, on).consistent(),
{
    let d = g.border_rank(i);
    lemma_count_true_update(g.active, i, false);
    lemma_count_true_update(g.active, i, true);
    lemma_count_true_update(g.active, i, on);
    lemma_count_true_bounds(g.active.update(i, true));
    lemma_permutation_position(g.thresh, 0, d);
    let j = position_of(g.thresh, d);
    if g.active[i] == on {
        assert(g.active.update(i, on) =~= g.active);
    } else {
        lemma_swapped_permutation(g.thresh, 0, i, j);
        let h = g.change_step(i, on);
        if g.consistent() {
            let c = g.num_active() as int;
            assert(forall|k: int| 0 <= k < g.active.len() ==> g.active[k] == (g.thresh[k] < c));
            if on {
                assert(g.active.update(i, false) =~= g.active);
            } else {
                assert(g.active.update(i, true) =~= g.active);
            }
            assert(h.active =~= below(h.thresh, h.num_active() as int));
        }
    }
}

impl GridActivations {
    /// The grid is well formed: its arrays fit together and its thresholds
    /// are a permutation.
    pub open spec fn wf(&self) -> bool {
        self@.wf()
    }

    /// A grid of `rows` rows of `steps` steps each, all off, with random thresholds.
    pub fn new(rows: usize, steps: usize) -> (g: Self)
        requires
            rows * steps <= usize::MAX,
        ensures
            g.wf(),
            g@.consistent(),
            g@.row_lengths == Seq::new(rows as nat, |i: int| steps),
            g@.active == Seq::new((rows * steps) as nat, |i: int| false),
    {
        assert(steps * rows == rows * steps) by (nonlinear_arith);
        let total_steps = steps * rows;
        let g = GridActivations {
            active: filled(total_steps, false),
            thresh: create_new_distribution(total_steps),
            row_lengths: filled(rows, steps),
        };
        proof {
            lemma_row_start_uniform(g.row_lengths@, steps, rows as int);
            lemma_count_true_all_false(g.active@);
            lemma_count_below_none(g.thresh@, 0);
            assert(g.active@ =~= below(g.thresh@, 0));
            assert(g@.active =~= Seq::new((rows * steps) as nat, |i: int| false));
            assert(g@.row_lengths =~= Seq::new(rows as nat, |i: int| steps));
        }
        g
    }

    /// Builds a grid from its three arrays, if they fit together: as many
    /// steps as thresholds, as many as the rows have together, and thresholds
    /// that are a permutation. The pattern may be any, also one that no
    /// density selects.
    pub fn from_parts(active: Vec<bool>, thresh: Vec<usize>, row_lengths: Vec<usize>) -> (r: Option<
        Self,
    >)
        ensures
            r is Some <==> (GridView {
                active: active@,
                thresh: thresh@,
                row_lengths: row_lengths@,
            }).wf(),
            r matches Some(g) ==> g@ == (GridView {
                active: active@,
                thresh: thresh@,
                row_lengths: row_lengths@,
            }),
    {
        if active.len() != thresh.len() {
            return None;
        }
        let mut total: usize = 0;
        let mut r: usize = 0;
        while r < row_lengths.len()
            invariant
                r <= row_lengths.len(),
                total == row_start(row_lengths@, r as int),
                total <= active.len(),
            decreases row_lengths.len() - r,
        {
            if row_lengths[r] > active.len() - total {
                proof {
                    lemma_row_start_monotonic(row_lengths@, r + 1, row_lengths.len() as int);
                }
                return None;
            }
            total = total + row_lengths[r];
            r = r + 1;
        }
        if total != active.len() {
            return None;
        }
        if !is_distribution(&thresh) {
            return None;
        }
        Some(GridActivations { active, thresh, row_lengths })
    }

    /// The number of steps of all rows together.
    pub fn get_total_num_steps(&self) -> (n: usize)
        requires
            self.wf(),
        ensures
            n == total_steps(self@.row_lengths),
            n == self@.active.len(),
    {
        self.active.len()
    }

    /// The number of rows.
    pub fn num_rows(&self) -> (n: usize)
        ensures
            n == self@.row_lengths.len(),
    {
        self.row_lengths.len()
    }

    /// The number of steps that are on.
    pub fn num_active_steps(&self) -> (n: usize)
        ensures
            n == self@.num_active(),
    {
        let mut n: usize = 0;
        let mut i: usize = 0;
        while i < self.active.len()
            invariant
                i <= self.active.len(),
                n == count_true(self.active@.take(i as int)),
                n <= i,
            decreases self.active.len() - i,
        {
            proof {
                assert(self.active@.take(i + 1).drop_last() =~= self.active@.take(i as int));
            }
            if self.active[i] {
                n = n + 1;
            }
            i = i + 1;
        }
        assert(self.active@.take(i as int) =~= self.active@);
        n
    }

    /// A copy of the pattern, row after row.
    pub fn active_steps(&self) -> (v: Vec<bool>)
        ensures
            v@ == self@.active,
    {
        copy_of(&self.active)
    }

    /// A copy of the thresholds, row after row.
    pub fn thresholds(&self) -> (v: Vec<usize>)
        ensures
            v@ == self@.thresh,
    {
        copy_of(&self.thresh)
    }

    /// A copy of the row lengths.
    pub fn row_lengths(&self) -> (v: Vec<usize>)
        ensures
            v@ == self@.row_lengths,
    {
        copy_of(&self.row_lengths)
    }

    /// Rewrites the pattern for a density of `density` steps: a step is on
    /// exactly when its threshold is below `density`.
    pub fn set_activations_for_new_density(&mut self, density: usize)
        requires
            old(self).wf(),
        ensures
            final(self)@ == old(self)@.with_density(density as int),
            final(self).wf(),
            final(self)@.consistent(),
            final(self)@.num_active() == if density <= old(self)@.active.len() {
                density as int
            } else {
                old(self)@.active.len() as int
            },
    {
        let n = self.active.len();
        let mut i: usize = 0;
        while i < n
            invariant
                i <= n,
                n == self.active.len(),
                n == self.thresh.len(),
                self.thresh == old(self).thresh,
                self.row_lengths == old(self).row_lengths,
                forall|k: int| 0 <= k < i ==> self.active[k] == (self.thresh[k] < density),
            decreases n - i,
        {
            self.active[i] = self.thresh[i] < density;
            i = i + 1;
        }
        proof {
            assert(self.active@ =~= below(self.thresh@, density as int));
            lemma_count_true_below(self.thresh@, density as int);
            lemma_permutation_count_below(self.thresh@, density as int);
            lemma_with_density_consistent(old(self)@, density as int);
        }
    }

    /// Sets the number of steps that are on to `wanted_num_active_steps`:
    /// nothing changes if that many are on already; else the pattern is
    /// rewritten for that density.
    pub fn set_density_steps(&mut self, wanted_num_active_steps: usize)
        requires
            old(self).wf(),
        ensures
            final(self)@ == if old(self)@.num_active() == wanted_num_active_steps {
                old(self)@
            } else {
                old(self)@.with_density(wanted_num_active_steps as int)
            },
            final(self).wf(),
            old(self)@.consistent() ==> final(self)@.consistent(),
    {
        if self.num_active_steps() != wanted_num_active_steps {
            self.set_activations_for_new_density(wanted_num_active_steps);
        }
    }

    /// The pattern of row `index`.
    pub fn get_row(&self, index: usize) -> (row: Vec<bool>)
        requires
            self.wf(),
            index < self@.row_lengths.len(),
        ensures
            row@ == self@.active.subrange(
                row_start(self@.row_lengths, index as int),
                row_start(self@.row_lengths, index + 1),
            ),
    {
        proof {
            lemma_row_start_monotonic(self.row_lengths@, 0, index as int);
            lemma_row_start_monotonic(self.row_lengths@, index + 1, self.row_lengths.len() as int);
            assert(self.active@.len() == self.active.len());
        }
        let start = grid_index_to_flat_index((index, 0), &self.row_lengths);
        let len = self.row_lengths[index];
        let mut row: Vec<bool> = Vec::new();
        let mut s: usize = 0;
        while s < len
            invariant
                s <= len,
                start + len <= self.active.len(),
                row@ == self.active@.subrange(start as int, start + s),
            decreases len - s,
        {
            row.push(self.active[start + s]);
            s = s + 1;
            assert(self.active@.subrange(start as int, start + s) =~= self.active@.subrange(
                start as int,
                start + s - 1,
            ).push(self.active@[start + s - 1]));
        }
        row
    }

    /// The patterns of all rows, one entry per row slot; slots beyond the
    /// rows of the grid are empty.
    pub fn get_row_activations(&self) -> (result: [Vec<bool>; NUM_ROWS])
        requires
            self.wf(),
            self@.row_lengths.len() <= NUM_ROWS,
        ensures
            forall|i: int|
                0 <= i < NUM_ROWS ==> (#[trigger] result[i])@ == if i < self@.row_lengths.len() {
                    self@.active.subrange(
                        row_start(self@.row_lengths, i),
                        row_start(self@.row_lengths, i + 1),
                    )
                } else {
                    Seq::<bool>::empty()
                },
    {
        let mut result: [Vec<bool>; NUM_ROWS] = [Vec::new(), Vec::new(), Vec::new(), Vec::new()];
        let mut i: usize = 0;
        while i < self.row_lengths.len()
            invariant
                i <= self.row_lengths.len() <= NUM_ROWS,
                self.wf(),
                forall|k: int|
                    0 <= k < NUM_ROWS ==> (#[trigger] result[k])@ == if k < i {
                        self@.active.subrange(
                            row_start(self@.row_lengths, k),
                            row_start(self@.row_lengths, k + 1),
                        )
                    } else {
                        Seq::<bool>::empty()
                    },
            decreases self.row_lengths.len() - i,
        {
            result[i] = self.get_row(i);
            i = i + 1;
        }
        result
    }

    /// Sets step `step` of row `row` to `on`, as `change_step_update_thresholds` does.
    pub fn set(&mut self, row: usize, step: usize, on: bool)
        requires
            old(self).wf(),
            valid_grid_index(old(self)@.row_lengths, row as int, step as int),
        ensures
            final(self)@ == old(self)@.change_step(
                flat_index_of(old(self)@.row_lengths, row as int, step as int),
                on,
            ),
            final(self).wf(),
            old(self)@.consistent() ==> final(self)@.consistent(),
    {
        proof {
            lemma_grid_of_flat_of_grid(self.row_lengths@, row as int, step as int);
            assert(self.active@.len() == self.active.len());
        }
        let flat_index = grid_index_to_flat_index((row, step), &self.row_lengths);
        self.change_step_update_thresholds(flat_index, on);
    }

    /// Switches the step at flat index `step_index` on or off and says
    /// whether that changed anything. No other step changes; the thresholds
    /// stay a permutation: the step exchanges its threshold with the step
    /// whose threshold is the number of other steps that are on.
    pub fn change_step_update_thresholds(&mut self, step_index: usize, on: bool) -> (changed: bool)
        requires
            old(self).wf(),
            step_index < old(self)@.active.len(),
        ensures
            final(self)@ == old(self)@.change_step(step_index as int, on),
            changed == (old(self)@.active[step_index as int] != on),
            final(self).wf(),
            final(self)@.active == old(self)@.active.update(step_index as int, on),
            old(self)@.consistent() ==> final(self)@.consistent(),
    {
        proof {
            lemma_change_step(self@, step_index as int, on);
        }
        if self.active[step_index] == on {
            return false;
        }
        self.active[step_index] = on;
        proof {
            lemma_count_true_update(old(self)@.active, step_index as int, on);
        }
        let density = if on {
            self.num_active_steps() - 1
        } else {
            self.num_active_steps()
        };
        proof {
            lemma_count_true_update(old(self)@.active, step_index as int, false);
            assert(density == old(self)@.border_rank(step_index as int));
            lemma_permutation_position(self.thresh@, 0, density as int);
        }
        let mut i: usize = 0;
        while self.thresh[i] != density
            invariant
                i < self.thresh.len(),
                forall|k: int| 0 <= k < i ==> self.thresh[k] != density,
                0 <= position_of(self.thresh@, density as int) < self.thresh.len(),
                self.thresh[position_of(self.thresh@, density as int)] == density,
            decreases self.thresh.len() - i,
        {
            i = i + 1;
        }
        let a = self.thresh[step_index];
        let b = self.thresh[i];
        self.thresh[step_index] = b;
        self.thresh[i] = a;
        true
    }

    /// The number of steps of row `row`.
    pub fn get_row_length(&self, row: usize) -> (n: usize)
        requires
            row < self@.row_lengths.len(),
        ensures
            n == self@.row_lengths[row as int],
    {
        self.row_lengths[row]
    }

    /// The number of steps of row `row`.
    pub fn row_length(&self, row: usize) -> (n: usize)
        requires
            row < self@.row_lengths.len(),
        ensures
            n == self@.row_lengths[row as int],
    {
        self.row_lengths[row]
    }

    /// Whether step `step` of row `row` is on.
    pub fn get(&self, row: usize, step: usize) -> (on: bool)
        requires
            self.wf(),
            valid_grid_index(self@.row_lengths, row as int, step as int),
        ensures
            on == self@.active[flat_index_of(self@.row_lengths, row as int, step as int)],
    {
        proof {
            lemma_grid_of_flat_of_grid(self.row_lengths@, row as int, step as int);
            assert(self.active@.len() == self.active.len());
        }
        self.active[grid_index_to_flat_index((row, step), &self.row_lengths)]
    }
}

/// A rewrite for a density leaves a grid whose pattern is the one its own
/// density selects, with `d` steps on, or all of them where `d` is more.
pub proof fn lemma_with_density_consistent(g: GridView, d: int)
    requires
        g.wf(),
        0 <= d,
    ensures
        g.with_density(d).wf(),
        g.with_density(d).consistent(),
        g.with_density(d).num_active() == if d <= g.active.len() { d } else { g.active.len() as int },
{
    lemma_count_true_below(g.thresh, d);
    lemma_permutation_count_below(g.thresh, d);
    if d > g.thresh.len() {
        assert(below(g.thresh, d) =~= below(g.thresh, g.thresh.len() as int));
    }
}

/// A rewrite for the density that the grid has changes nothing, if the
/// pattern is the one that its density selects.
pub proof fn lemma_rewrite_at_own_density(g: GridView)
    requires
        g.wf(),
        g.consistent(),
    ensures
        g.with_density(g.num_active() as int) == g,
{
}

/// A second rewrite for the same density changes nothing.
pub proof fn lemma_rewrite_idempotent(g: GridView, d: int)
    requires
        g.wf(),
        0 <= d,
    ensures
        g.with_density(d).with_density(d) == g.with_density(d),
        g.with_density(d).with_density(g.with_density(d).num_active() as int) == g.with_density(d),
{
    lemma_with_density_consistent(g, d);
}

/// A vector of `n` entries `value`.
fn filled<T: Copy>(n: usize, value: T) -> (v: Vec<T>)
    ensures
        v.len() == n,
        forall|i: int| 0 <= i < n ==> v[i] == value,
{
    let mut v: Vec<T> = Vec::new();
    while v.len() < n
        invariant
            v.len() <= n,
            forall|i: int| 0 <= i < v.len() ==> v[i] == value,
        decreases n - v.len(),
    {
        v.push(value);
    }
    v
}

/// A vector with the entries of `v`.
fn copy_of<T: Copy>(v: &Vec<T>) -> (r: Vec<T>)
    ensures
        r@ == v@,
{
    let mut r: Vec<T> = Vec::new();
    let mut i: usize = 0;
    while i < v.len()
        invariant
            i <= v.len(),
            r@ == v@.take(i as int),
        decreases v.len() - i,
    {
        r.push(v[i]);
        i = i + 1;
    }
    assert(v@.take(i as int) =~= v@);
    r
}

/// The numbers `lo, .., lo + n - 1` in the order that
/// `rand::seq::SliceRandom::shuffle` leaves them in.
fn shuffled_range(lo: usize, n: usize) -> (v: Vec<usize>)
    requires
        lo + n <= usize::MAX,
    ensures
        v.len() == n,
        is_range_permutation(v@, lo as int),
{
    let mut v: Vec<usize> = Vec::new();
    while v.len() < n
        invariant
            v.len() <= n,
            lo + n <= usize::MAX,
            forall|i: int| 0 <= i < v.len() ==> v[i] == lo + i,
        decreases n - v.len(),
    {
        v.push(lo + v.len());
    }
    let ghost ascending = v@;
    shuffle(&mut v);
    proof {
        vstd::seq_lib::to_multiset_len(v@);
        vstd::seq_lib::to_multiset_len(ascending);
        assert(ascending.no_duplicates());
        ascending.lemma_multiset_has_no_duplicates();
        v@.lemma_multiset_has_no_duplicates_conv();
        assert forall|i: int| 0 <= i < v@.len() implies lo <= #[trigger] v@[i] < lo + v@.len() by {
            assert(v@.contains(v@[i]));
            vstd::seq_lib::to_multiset_contains(v@, v@[i]);
            vstd::seq_lib::to_multiset_contains(ascending, v@[i]);
            assert(ascending.contains(v@[i]));
        }
    }
    v
}

/// A fresh set of thresholds for `n` steps: the numbers `0, .., n - 1` in a
/// random order.
pub fn create_new_distribution(n: usize) -> (v: Vec<usize>)
    ensures
        v.len() == n,
        is_permutation(v@),
{
    shuffled_range(0, n)
}

/// Reorders `v` at random.
///
/// Calls `rand::seq::SliceRandom::shuffle` on the elements of `v` with the
/// generator that `rand::thread_rng` returns. The contract claims what the
/// shuffle does whatever numbers the generator draws: it only exchanges
/// elements, so `v` holds the same elements as before, each as often as before.
#[verifier::external_body]
fn shuffle(v: &mut Vec<usize>)
    ensures
        final(v)@.to_multiset() == old(v)@.to_multiset(),
{
    let mut rng = rand::thread_rng();
    v.shuffle(&mut rng);
}

/// `v`, lowered by one where it is above `removed`: the rank that `v` has once
/// `removed` has left.
pub open spec fn lowered(v: usize, removed: usize) -> usize {
    if v > removed {
        (v - 1) as usize
    } else {
        v
    }
}

/// The order `order` names step `k`.
pub open spec fn names(order: Seq<usize>, k: int) -> bool {
    exists|w: int| 0 <= w < order.len() && order[w] == k
}

/// Replaying a pattern on a cleared grid builds the pattern up step by step:
/// after any part of the order the steps named so far have their value of the
/// pattern, the others are off, and the grid is well formed and consistent.
pub proof fn lemma_replay(g: GridView, pattern: Seq<bool>, order: Seq<usize>)
    requires
        g.wf(),
        g.consistent(),
        pattern.len() == g.active.len(),
        forall|k: int| 0 <= k < g.active.len() ==> !g.active[k],
        forall|k: int| 0 <= k < order.len() ==> order[k] < g.active.len(),
    ensures
        g.replay(pattern, order).wf(),
        g.replay(pattern, order).consistent(),
        g.replay(pattern, order).row_lengths == g.row_lengths,
        g.replay(pattern, order).active.len() == g.active.len(),
        forall|k: int|
            0 <= k < g.active.len() ==> g.replay(pattern, order).active[k] == (pattern[k] && names(
                order,
                k,
            )),
    decreases order.len(),
{
    if order.len() > 0 {
        let front = order.drop_last();
        let last = order.last();
        lemma_replay(g, pattern, front);
        let before = g.replay(pattern, front);
        lemma_change_step(before, last as int, pattern[last as int]);
        let after = g.replay(pattern, order);
        assert forall|k: int| 0 <= k < g.active.len() implies after.active[k] == (pattern[k]
            && names(order, k)) by {
            if k == last {
                assert(order[order.len() - 1] == k);
            } else if names(front, k) {
                let w = choose|w: int| 0 <= w < front.len() && front[w] == k;
                assert(order[w] == k);
            } else if names(order, k) {
                let w = choose|w: int| 0 <= w < order.len() && order[w] == k;
                assert(front[w] == k);
            }
        }
    }
}

/// Re-randomising keeps the pattern: replaying a pattern on a cleared grid, in
/// an order that names every step, gives the pattern back, with thresholds
/// that are again a permutation and select that pattern.
pub proof fn lemma_replay_restores_pattern(g: GridView, thresh: Seq<usize>, order: Seq<usize>)
    requires
        g.wf(),
        is_permutation(thresh),
        thresh.len() == g.active.len(),
        is_permutation(order),
        order.len() == g.active.len(),
    ensures
        g.cleared(thresh).replay(g.active, order).wf(),
        g.cleared(thresh).replay(g.active, order).consistent(),
        g.cleared(thresh).replay(g.active, order).active == g.active,
        g.cleared(thresh).replay(g.active, order).row_lengths == g.row_lengths,
{
    let c = g.cleared(thresh);
    lemma_count_true_all_false(c.active);
    lemma_count_below_none(thresh, 0);
    assert(c.active =~= below(thresh, 0));
    lemma_replay(c, g.active, order);
    let h = c.replay(g.active, order);
    assert forall|k: int| 0 <= k < g.active.len() implies h.active[k] == g.active[k] by {
        lemma_permutation_position(order, 0, k);
        assert(order[position_of(order, k)] == k as usize);
    }
    assert(h.active =~= g.active);
}

/// New steps at the end of a row, all off and ranked above every step there
/// was, keep the grid well formed and a consistent grid consistent.
pub proof fn lemma_with_appended(g: GridView, row: int, inserted: Seq<usize>)
    requires
        g.wf(),
        0 <= row < g.row_lengths.len(),
        is_range_permutation(inserted, g.active.len() as int),
        g.active.len() + inserted.len() <= usize::MAX,
    ensures
        g.with_appended(row, inserted).wf(),
        g.with_appended(row, inserted).num_active() == g.num_active(),
        g.consistent() ==> g.with_appended(row, inserted).consistent(),
        0 <= g.row_end(row) <= g.active.len(),
        g.row_lengths[row] + inserted.len() <= usize::MAX,
{
    let n = g.active.len() as int;
    let k = inserted.len() as int;
    let at = g.row_end(row);
    let h = g.with_appended(row, inserted);
    let falses = Seq::new(inserted.len(), |i: int| false);
    lemma_row_start_monotonic(g.row_lengths, 0, row);
    lemma_row_start_monotonic(g.row_lengths, row + 1, g.row_lengths.len() as int);
    lemma_row_start_update(
        g.row_lengths,
        row,
        (g.row_lengths[row] + inserted.len()) as usize,
        g.row_lengths.len() as int,
    );
    assert forall|a: int, b: int|
        0 <= a < h.thresh.len() && 0 <= b < h.thresh.len() && a != b implies h.thresh[a]
        != h.thresh[b] by {
        let a0 = if a < at { a } else { a - k };
        let b0 = if b < at { b } else { b - k };
        if at <= a < at + k {
            assert(h.thresh[a] == inserted[a - at]);
        } else {
            assert(h.thresh[a] == g.thresh[a0]);
        }
        if at <= b < at + k {
            assert(h.thresh[b] == inserted[b - at]);
        } else {
            assert(h.thresh[b] == g.thresh[b0]);
        }
    }
    assert forall|a: int| 0 <= a < h.thresh.len() implies 0 <= #[trigger] h.thresh[a]
        < h.thresh.len() by {
        if at <= a < at + k {
            assert(h.thresh[a] == inserted[a - at]);
        } else {
            assert(h.thresh[a] == g.thresh[if a < at { a } else { a - k }]);
        }
    }
    lemma_count_true_concat(g.active.subrange(0, at), falses);
    lemma_count_true_concat(g.active.subrange(0, at) + falses, g.active.subrange(at, n));
    lemma_count_true_concat(g.active.subrange(0, at), g.active.subrange(at, n));
    lemma_count_true_all_false(falses);
    assert(g.active.subrange(0, at) + g.active.subrange(at, n) =~= g.active);
    lemma_count_true_bounds(g.active);
    if g.consistent() {
        let c = g.num_active() as int;
        assert(forall|i: int| 0 <= i < n ==> g.active[i] == (g.thresh[i] < c));
        assert forall|a: int| 0 <= a < h.active.len() implies h.active[a] == (h.thresh[a] < c) by {
            if at <= a < at + k {
                assert(h.thresh[a] == inserted[a - at]);
            } else {
                assert(h.thresh[a] == g.thresh[if a < at { a } else { a - k }]);
            }
        }
        assert(h.active =~= below(h.thresh, c));
    }
}

/// Two arrays that order their positions alike still do so when the same
/// position is taken out of both.
pub proof fn lemma_same_order_remove(x: Seq<usize>, y: Seq<usize>, p: int)
    requires
        same_order(x, y),
        0 <= p < x.len(),
    ensures
        same_order(x.remove(p), y.remove(p)),
{
    let x2 = x.remove(p);
    let y2 = y.remove(p);
    assert forall|i: int, j: int| 0 <= i < x2.len() && 0 <= j < x2.len() implies (#[trigger] x2[i]
        < #[trigger] x2[j]) == (y2[i] < y2[j]) by {
        let i0 = if i < p { i } else { i + 1 };
        let j0 = if j < p { j } else { j + 1 };
        assert(x2[i] == x[i0] && x2[j] == x[j0]);
        assert(y2[i] == y[i0] && y2[j] == y[j0]);
    }
}

/// Taking one step out of a grid and lowering the thresholds above its
/// threshold by one leaves a permutation that orders the remaining steps as
/// before, and keeps a consistent pattern consistent.
pub proof fn lemma_remove_one(thresh: Seq<usize>, active: Seq<bool>, p: int, after: Seq<usize>)
    requires
        is_permutation(thresh),
        active.len() == thresh.len(),
        0 <= p < thresh.len(),
        after.len() == thresh.len() - 1,
        forall|k: int|
            0 <= k < after.len() ==> #[trigger] after[k] == lowered(thresh.remove(p)[k], thresh[p]),
    ensures
        is_permutation(after),
        same_order(after, thresh.remove(p)),
        active == below(thresh, count_true(active) as int) ==> active.remove(p) == below(
            after,
            count_true(active.remove(p)) as int,
        ),
{
    let rest = thresh.remove(p);
    let t = thresh[p];
    assert forall|k: int| 0 <= k < rest.len() implies rest[k] != t && rest[k] < thresh.len() by {
        let k0 = if k < p { k } else { k + 1 };
        assert(rest[k] == thresh[k0]);
    }
    assert forall|a: int, b: int| 0 <= a < after.len() && 0 <= b < after.len() && a != b implies after[a]
        != after[b] by {
        let a0 = if a < p { a } else { a + 1 };
        let b0 = if b < p { b } else { b + 1 };
        assert(rest[a] == thresh[a0] && rest[b] == thresh[b0]);
    }
    assert(same_order(after, rest));
    lemma_count_true_remove(active, p);
    if active == below(thresh, count_true(active) as int) {
        let c = count_true(active) as int;
        let c2 = count_true(active.remove(p)) as int;
        assert(forall|i: int| 0 <= i < active.len() ==> active[i] == (thresh[i] < c));
        assert forall|k: int| 0 <= k < after.len() implies active.remove(p)[k] == (after[k] < c2) by {
            let k0 = if k < p { k } else { k + 1 };
            assert(rest[k] == thresh[k0]);
            assert(active.remove(p)[k] == active[k0]);
        }
        assert(active.remove(p) =~= below(after, c2));
    }
}

impl GridActivations {
    /// Gives the grid the thresholds `thresh` and builds the pattern it had up
    /// again, one step after the other in the order `order`. The pattern is
    /// the same afterwards.
    pub fn redistribute(&mut self, thresh: Vec<usize>, order: Vec<usize>)
        requires
            old(self).wf(),
            is_permutation(thresh@),
            thresh.len() == old(self)@.active.len(),
            is_permutation(order@),
            order.len() == old(self)@.active.len(),
        ensures
            final(self)@ == old(self)@.cleared(thresh@).replay(old(self)@.active, order@),
            final(self).wf(),
            final(self)@.consistent(),
            final(self)@.active == old(self)@.active,
            final(self)@.row_lengths == old(self)@.row_lengths,
    {
        let pattern = copy_of(&self.active);
        let n = self.active.len();
        self.active = filled(n, false);
        self.thresh = thresh;
        let ghost start = self@;
        proof {
            assert(start.active =~= old(self)@.cleared(thresh@).active);
            lemma_replay_restores_pattern(old(self)@, thresh@, order@);
            lemma_count_true_all_false(start.active);
            lemma_count_below_none(start.thresh, 0);
            assert(start.active =~= below(start.thresh, 0));
        }
        let mut i: usize = 0;
        while i < n
            invariant
                i <= n,
                n == order.len(),
                n == pattern.len(),
                n == start.active.len(),
                start.wf(),
                start.consistent(),
                forall|k: int| 0 <= k < n ==> !start.active[k],
                forall|k: int| 0 <= k < n ==> order[k] < n,
                self@ == start.replay(pattern@, order@.take(i as int)),
            decreases n - i,
        {
            proof {
                lemma_replay(start, pattern@, order@.take(i as int));
                assert(order@.take(i + 1).drop_last() =~= order@.take(i as int));
            }
            let step = order[i];
            self.change_step_update_thresholds(step, pattern[step]);
            i = i + 1;
        }
        assert(order@.take(i as int) =~= order@);
    }

    /// Gives the grid fresh random thresholds that select the pattern it has:
    /// the pattern stays, the way it will grow and shrink changes.
    pub fn create_new_distribution_given_active_steps(&mut self)
        requires
            old(self).wf(),
        ensures
            final(self).wf(),
            final(self)@.consistent(),
            final(self)@.active == old(self)@.active,
            final(self)@.row_lengths == old(self)@.row_lengths,
            exists|thresh: Seq<usize>, order: Seq<usize>|
                is_permutation(thresh) && is_permutation(order) && #[trigger] old(self)@.cleared(
                    thresh,
                ).replay(old(self)@.active, order) == final(self)@,
    {
        let n = self.active.len();
        let thresh = create_new_distribution(n);
        let random_order = create_new_distribution(n);
        let ghost t = thresh@;
        let ghost o = random_order@;
        self.redistribute(thresh, random_order);
        assert(old(self)@.cleared(t).replay(old(self)@.active, o) == self@);
    }

    /// Puts new steps at the end of row `row`, as many as `thresh_to_insert`
    /// has entries. The new steps are off and get the thresholds
    /// `thresh_to_insert`, in that order.
    pub fn insert_steps(&mut self, row: usize, thresh_to_insert: Vec<usize>)
        requires
            old(self).wf(),
            row < old(self)@.row_lengths.len(),
            is_range_permutation(thresh_to_insert@, old(self)@.active.len() as int),
            old(self)@.active.len() + thresh_to_insert.len() <= usize::MAX,
        ensures
            final(self)@ == old(self)@.with_appended(row as int, thresh_to_insert@),
            final(self).wf(),
            old(self)@.consistent() ==> final(self)@.consistent(),
    {
        proof {
            lemma_with_appended(self@, row as int, thresh_to_insert@);
            assert(self.active@.len() == self.active.len());
            assert(self.row_lengths@.len() == self.row_lengths.len());
        }
        let num_to_insert = thresh_to_insert.len();
        let active_to_insert = filled(num_to_insert, false);
        let insert_position = grid_index_to_flat_index((row + 1, 0), &self.row_lengths);
        self.active = spliced(&self.active, insert_position, &active_to_insert);
        self.thresh = spliced(&self.thresh, insert_position, &thresh_to_insert);
        self.row_lengths[row] = self.row_lengths[row] + num_to_insert;
        proof {
            assert(active_to_insert@ =~= Seq::new(thresh_to_insert@.len(), |i: int| false));
        }
    }

    /// Lengthens row `row` to `new_length` steps. The new steps stand at the
    /// end of the row and are off; their thresholds are the numbers above all
    /// thresholds there were, in a random order, so that they are the last to
    /// come on and no other step changes its rank.
    pub fn append_steps(&mut self, row_to_append: usize, new_length: usize)
        requires
            old(self).wf(),
            row_to_append < old(self)@.row_lengths.len(),
            new_length >= old(self)@.row_lengths[row_to_append as int],
            old(self)@.active.len() + new_length - old(self)@.row_lengths[row_to_append as int]
                <= usize::MAX,
        ensures
            final(self).wf(),
            old(self)@.consistent() ==> final(self)@.consistent(),
            final(self)@.row_lengths == old(self)@.row_lengths.update(
                row_to_append as int,
                new_length,
            ),
            final(self)@.num_active() == old(self)@.num_active(),
            exists|inserted: Seq<usize>|
                inserted.len() == new_length - old(self)@.row_lengths[row_to_append as int]
                    && is_range_permutation(inserted, old(self)@.active.len() as int)
                    && #[trigger] old(self)@.with_appended(row_to_append as int, inserted)
                    == final(self)@,
    {
        let num_to_insert = new_length - self.row_lengths[row_to_append];
        let old_flat_length = self.active.len();
        let thresh_to_insert = shuffled_range(old_flat_length, num_to_insert);
        let ghost inserted = thresh_to_insert@;
        proof {
            lemma_with_appended(self@, row_to_append as int, inserted);
        }
        self.insert_steps(row_to_append, thresh_to_insert);
        assert(old(self)@.with_appended(row_to_append as int, inserted) == self@);
    }

    /// Shortens row `row` to `new_length` steps by taking steps away from its
    /// end. The steps that stay keep their values and their order of rank:
    /// each gets as its threshold its rank among the thresholds that stay.
    pub fn remove_steps(&mut self, row_to_remove_from: usize, new_length: usize)
        requires
            old(self).wf(),
            row_to_remove_from < old(self)@.row_lengths.len(),
            new_length <= old(self)@.row_lengths[row_to_remove_from as int],
        ensures
            final(self).wf(),
            old(self)@.consistent() ==> final(self)@.consistent(),
            final(self)@.row_lengths == old(self)@.survivors(
                row_to_remove_from as int,
                new_length as int,
            ).row_lengths,
            final(self)@.active == old(self)@.survivors(
                row_to_remove_from as int,
                new_length as int,
            ).active,
            same_order(
                final(self)@.thresh,
                old(self)@.survivors(row_to_remove_from as int, new_length as int).thresh,
            ),
            forall|i: int|
                0 <= i < final(self)@.thresh.len() ==> #[trigger] final(self)@.thresh[i] == ranks(
                    old(self)@.survivors(row_to_remove_from as int, new_length as int).thresh,
                )[i],
    {
        let ghost g = self@;
        let ghost row = row_to_remove_from as int;
        let ghost start = row_start(g.row_lengths, row);
        let ghost end = g.row_end(row);
        proof {
            lemma_row_start_monotonic(g.row_lengths, 0, row);
            lemma_row_start_monotonic(g.row_lengths, row + 1, g.row_lengths.len() as int);
            assert(self.active@.len() == self.active.len());
            assert(without_range(g.active, end, end) =~= g.active);
            assert(without_range(g.thresh, end, end) =~= g.thresh);
            assert(g.row_lengths.update(row, g.row_lengths[row]) =~= g.row_lengths);
        }
        let old_length = self.row_lengths[row_to_remove_from];
        let row_begin = grid_index_to_flat_index((row_to_remove_from, 0), &self.row_lengths);
        let mut length = old_length;
        while length > new_length
            invariant
                new_length <= length <= old_length,
                g.wf(),
                0 <= row < g.row_lengths.len(),
                row == row_to_remove_from,
                old_length == g.row_lengths[row],
                start == row_start(g.row_lengths, row),
                end == start + old_length,
                0 <= start,
                end <= g.active.len() <= usize::MAX,
                row_begin == start,
                self.wf(),
                g.consistent() ==> self@.consistent(),
                self.row_lengths@ == g.row_lengths.update(row, length),
                self.active@ == without_range(g.active, start + length, end),
                same_order(self.thresh@, without_range(g.thresh, start + length, end)),
            decreases length,
        {
            let ghost before = self@;
            let remove_position = row_begin + (length - 1);
            let removed_threshold = self.thresh[remove_position];
            self.thresh.remove(remove_position);
            self.active.remove(remove_position);
            let ghost rest = self.thresh@;
            let mut k: usize = 0;
            while k < self.thresh.len()
                invariant
                    k <= self.thresh.len(),
                    self.thresh.len() == rest.len(),
                    self.active@ == before.active.remove(remove_position as int),
                    self.row_lengths@ == before.row_lengths,
                    forall|m: int| 0 <= m < k ==> self.thresh[m] == lowered(rest[m], removed_threshold),
                    forall|m: int| k <= m < rest.len() ==> self.thresh[m] == rest[m],
                decreases self.thresh.len() - k,
            {
                if self.thresh[k] > removed_threshold {
                    self.thresh[k] = self.thresh[k] - 1;
                }
                k = k + 1;
            }
            self.row_lengths[row_to_remove_from] = length - 1;
            proof {
                let p = remove_position as int;
                lemma_remove_one(before.thresh, before.active, p, self.thresh@);
                let kept = without_range(g.thresh, start + length, end);
                lemma_same_order_remove(before.thresh, kept, p);
                assert(kept.remove(p) =~= without_range(g.thresh, start + length - 1, end));
                assert(without_range(g.active, start + length, end).remove(p) =~= without_range(
                    g.active,
                    start + length - 1,
                    end,
                ));
                assert(self.row_lengths@ =~= g.row_lengths.update(row, (length - 1) as usize));
                lemma_row_start_update(
                    g.row_lengths,
                    row,
                    (length - 1) as usize,
                    g.row_lengths.len() as int,
                );
            }
            length = length - 1;
        }
        proof {
            lemma_same_order_ranks(
                self.thresh@,
                g.survivors(row, new_length as int).thresh,
            );
        }
    }

    /// Gives row `row_index` the length `new_length`, by `append_steps` or
    /// `remove_steps`; nothing changes if it has that length.
    pub fn set_row_length(&mut self, row_index: usize, new_length: usize)
        requires
            old(self).wf(),
            row_index < old(self)@.row_lengths.len(),
            old(self)@.active.len() + new_length - old(self)@.row_lengths[row_index as int]
                <= usize::MAX,
        ensures
            final(self).wf(),
            old(self)@.consistent() ==> final(self)@.consistent(),
            final(self)@.row_lengths == old(self)@.row_lengths.update(row_index as int, new_length),
            new_length == old(self)@.row_lengths[row_index as int] ==> final(self)@ == old(self)@,
            new_length > old(self)@.row_lengths[row_index as int] ==> exists|inserted: Seq<usize>|
                inserted.len() == new_length - old(self)@.row_lengths[row_index as int]
                    && is_range_permutation(inserted, old(self)@.active.len() as int)
                    && #[trigger] old(self)@.with_appended(row_index as int, inserted) == final(self)@,
            new_length < old(self)@.row_lengths[row_index as int] ==> {
                &&& final(self)@.active == old(self)@.survivors(
                    row_index as int,
                    new_length as int,
                ).active
                &&& forall|i: int|
                    0 <= i < final(self)@.thresh.len() ==> #[trigger] final(self)@.thresh[i]
                        == ranks(old(self)@.survivors(row_index as int, new_length as int).thresh)[i]
            },
    {
        if new_length > self.row_lengths[row_index] {
            self.append_steps(row_index, new_length);
        } else if new_length < self.row_lengths[row_index] {
            self.remove_steps(row_index, new_length);
        } else {
            assert(self@.row_lengths.update(row_index as int, new_length) =~= self@.row_lengths);
        }
    }
}

/// A vector that holds `v` with the entries of `ins` put in before position `at`.
fn spliced<T: Copy>(v: &Vec<T>, at: usize, ins: &Vec<T>) -> (r: Vec<T>)
    requires
        at <= v.len(),
    ensures
        r@ == with_inserted(v@, at as int, ins@),
{
    let mut r: Vec<T> = Vec::new();
    let mut i: usize = 0;
    while i < at
        invariant
            i <= at <= v.len(),
            r@ == v@.subrange(0, i as int),
        decreases at - i,
    {
        r.push(v[i]);
        i = i + 1;
        assert(v@.subrange(0, i as int) =~= v@.subrange(0, i - 1).push(v@[i - 1]));
    }
    let mut j: usize = 0;
    while j < ins.len()
        invariant
            j <= ins.len(),
            r@ == v@.subrange(0, at as int) + ins@.take(j as int),
        decreases ins.len() - j,
    {
        r.push(ins[j]);
        j = j + 1;
        assert(ins@.take(j as int) =~= ins@.take(j - 1).push(ins@[j - 1]));
    }
    assert(ins@.take(j as int) =~= ins@);
    while i < v.len()
        invariant
            at <= i <= v.len(),
            r@ == v@.subrange(0, at as int) + ins@ + v@.subrange(at as int, i as int),
        decreases v.len() - i,
    {
        r.push(v[i]);
        i = i + 1;
        assert(v@.subrange(at as int, i as int) =~= v@.subrange(at as int, i - 1).push(v@[i - 1]));
    }
    r
}

} // verus!
