//! How a flat array of steps is cut into rows.
//!
//! A grid keeps all its steps in one flat array; `row_lengths` says how many
//! consecutive steps belong to each row. Row `r` starts at the sum of the
//! lengths before it.

use vstd::prelude::*;

verus! {

/// The flat index at which row `k` starts: the sum of the first `k` row lengths.
pub open spec fn row_start(row_lengths: Seq<usize>, k: int) -> int
    decreases k,
{
    if k <= 0 {
        0
    } else {
        row_start(row_lengths, k - 1) + row_lengths[k - 1] as int
    }
}

/// The number of steps of all rows together.
pub open spec fn total_steps(row_lengths: Seq<usize>) -> int {
    row_start(row_lengths, row_lengths.len() as int)
}

/// `(row, step)` names a step of the grid.
pub open spec fn valid_grid_index(row_lengths: Seq<usize>, row: int, step: int) -> bool {
    0 <= row < row_lengths.len() && 0 <= step < row_lengths[row]
}

/// The flat index of step `step` of row `row`.
pub open spec fn flat_index_of(row_lengths: Seq<usize>, row: int, step: int) -> int {
    row_start(row_lengths, row) + step
}

/// Row `r` holds the flat index `flat`.
pub open spec fn row_holds(row_lengths: Seq<usize>, r: int, flat: int) -> bool {
    0 <= r < row_lengths.len() && row_start(row_lengths, r) <= flat < row_start(row_lengths, r + 1)
}

/// The row that holds the flat index `flat`.
pub open spec fn row_of(row_lengths: Seq<usize>, flat: int) -> int {
    choose|r: int| row_holds(row_lengths, r, flat)
}

/// The `(row, step)` pair of the flat index `flat`.
pub open spec fn grid_index_of(row_lengths: Seq<usize>, flat: int) -> (int, int) {
    (row_of(row_lengths, flat), flat - row_start(row_lengths, row_of(row_lengths, flat)))
}

/// `s` without its entries at `from, .., to - 1`.
pub open spec fn without_range<T>(s: Seq<T>, from: int, to: int) -> Seq<T> {
    s.subrange(0, from) + s.subrange(to, s.len() as int)
}

/// `s` with `ins` put in before position `at`.
pub open spec fn with_inserted<T>(s: Seq<T>, at: int, ins: Seq<T>) -> Seq<T> {
    s.subrange(0, at) + ins + s.subrange(at, s.len() as int)
}

/// Rows start in ascending order.
pub proof fn lemma_row_start_monotonic(row_lengths: Seq<usize>, i: int, j: int)
    requires
        0 <= i <= j,
    ensures
        0 <= row_start(row_lengths, i) <= row_start(row_lengths, j),
    decreases j,
{
    if j > 0 {
        if i < j {
            lemma_row_start_monotonic(row_lengths, i, j - 1);
        } else {
            lemma_row_start_monotonic(row_lengths, i - 1, j - 1);
        }
    }
}

/// Changing the length of one row moves the start of every later row by the difference.
pub proof fn lemma_row_start_update(row_lengths: Seq<usize>, row: int, new_length: usize, k: int)
    requires
        0 <= row < row_lengths.len(),
        0 <= k <= row_lengths.len(),
    ensures
        row_start(row_lengths.update(row, new_length), k) == if k <= row {
            row_start(row_lengths, k)
        } else {
            row_start(row_lengths, k) - row_lengths[row] + new_length
        },
    decreases k,
{
    if k > 0 {
        lemma_row_start_update(row_lengths, row, new_length, k - 1);
    }
}

/// Rows of one length start at the multiples of that length.
pub proof fn lemma_row_start_uniform(row_lengths: Seq<usize>, steps: usize, k: int)
    requires
        0 <= k <= row_lengths.len(),
        forall|i: int| 0 <= i < row_lengths.len() ==> row_lengths[i] == steps,
    ensures
        row_start(row_lengths, k) == k * steps,
    decreases k,
{
    if k > 0 {
        lemma_row_start_uniform(row_lengths, steps, k - 1);
        assert(row_lengths[k - 1] == steps);
        assert(k * steps == (k - 1) * steps + steps) by (nonlinear_arith);
    } else {
        assert(k * steps == 0) by (nonlinear_arith)
            requires
                k == 0,
        ;
    }
}

/// Every flat index below the total lies in exactly one row.
pub proof fn lemma_row_of(row_lengths: Seq<usize>, flat: int)
    requires
        0 <= flat < total_steps(row_lengths),
    ensures
        row_holds(row_lengths, row_of(row_lengths, flat), flat),
        forall|r: int| row_holds(row_lengths, r, flat) ==> r == row_of(row_lengths, flat),
{
    let w = lemma_row_exists(row_lengths, flat, row_lengths.len() as int);
    assert(row_holds(row_lengths, w, flat));
    let r0 = row_of(row_lengths, flat);
    assert forall|r: int| row_holds(row_lengths, r, flat) implies r == r0 by {
        if r < r0 {
            lemma_row_start_monotonic(row_lengths, r + 1, r0);
        } else if r0 < r {
            lemma_row_start_monotonic(row_lengths, r0 + 1, r);
        }
    }
}

/// A flat index below the start of row `k` lies in one of the rows before `k`.
pub proof fn lemma_row_exists(row_lengths: Seq<usize>, flat: int, k: int) -> (r: int)
    requires
        0 <= flat < row_start(row_lengths, k),
        0 <= k <= row_lengths.len(),
    ensures
        0 <= r < k,
        row_start(row_lengths, r) <= flat < row_start(row_lengths, r + 1),
    decreases k,
{
    if flat >= row_start(row_lengths, k - 1) {
        k - 1
    } else {
        lemma_row_exists(row_lengths, flat, k - 1)
    }
}

/// Turning a flat index into a grid index and back gives the flat index again.
pub proof fn lemma_flat_of_grid_of_flat(row_lengths: Seq<usize>, flat: int)
    requires
        0 <= flat < total_steps(row_lengths),
    ensures
        valid_grid_index(
            row_lengths,
            grid_index_of(row_lengths, flat).0,
            grid_index_of(row_lengths, flat).1,
        ),
        flat_index_of(
            row_lengths,
            grid_index_of(row_lengths, flat).0,
            grid_index_of(row_lengths, flat).1,
        ) == flat,
{
    lemma_row_of(row_lengths, flat);
}

/// Turning a grid index into a flat index and back gives the grid index again,
/// whatever rows of length 0 lie around it.
pub proof fn lemma_grid_of_flat_of_grid(row_lengths: Seq<usize>, row: int, step: int)
    requires
        valid_grid_index(row_lengths, row, step),
    ensures
        0 <= flat_index_of(row_lengths, row, step) < total_steps(row_lengths),
        grid_index_of(row_lengths, flat_index_of(row_lengths, row, step)) == (row, step),
{
    let flat = flat_index_of(row_lengths, row, step);
    lemma_row_start_monotonic(row_lengths, 0, row);
    lemma_row_start_monotonic(row_lengths, row + 1, row_lengths.len() as int);
    lemma_row_of(row_lengths, flat);
    assert(row_holds(row_lengths, row, flat));
}

} // verus!
