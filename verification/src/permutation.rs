//! Threshold permutations and the counting facts the activation grid rests on.
//!
//! A threshold array of length `n` ranks the steps of a grid: it holds each of
//! `0, .., n-1` exactly once. Everything the grid promises about densities
//! follows from one counting fact: in such an array exactly `d` entries lie
//! below `d`, for every `d <= n`.

use vstd::prelude::*;

verus! {

/// `s` holds each of `lo, .., lo + s.len() - 1` exactly once.
pub open spec fn is_range_permutation(s: Seq<usize>, lo: int) -> bool {
    &&& forall|i: int| 0 <= i < s.len() ==> lo <= #[trigger] s[i] < lo + s.len()
    &&& s.no_duplicates()
}

/// `s` holds each of `0, .., s.len() - 1` exactly once.
pub open spec fn is_permutation(s: Seq<usize>) -> bool {
    is_range_permutation(s, 0)
}

/// Number of `true` entries of `s`.
pub open spec fn count_true(s: Seq<bool>) -> nat
    decreases s.len(),
{
    if s.len() == 0 {
        0
    } else {
        count_true(s.drop_last()) + if s.last() { 1nat } else { 0nat }
    }
}

/// Number of entries of `s` that are smaller than `d`.
pub open spec fn count_below(s: Seq<usize>, d: int) -> nat
    decreases s.len(),
{
    if s.len() == 0 {
        0
    } else {
        count_below(s.drop_last(), d) + if s.last() < d { 1nat } else { 0nat }
    }
}

/// Number of entries of `s` that equal `d`.
pub open spec fn count_equal(s: Seq<usize>, d: int) -> nat
    decreases s.len(),
{
    if s.len() == 0 {
        0
    } else {
        count_equal(s.drop_last(), d) + if s.last() == d { 1nat } else { 0nat }
    }
}

/// The pattern that a density of `d` steps selects: step `i` is on exactly
/// when its threshold is below `d`.
pub open spec fn below(thresh: Seq<usize>, d: int) -> Seq<bool> {
    Seq::new(thresh.len(), |i: int| thresh[i] < d)
}

/// `s` with the entries at `i` and `j` exchanged.
pub open spec fn swapped(s: Seq<usize>, i: int, j: int) -> Seq<usize> {
    s.update(i, s[j]).update(j, s[i])
}

/// Where the value `v` stands in `s`.
pub open spec fn position_of(s: Seq<usize>, v: int) -> int {
    choose|j: int| 0 <= j < s.len() && s[j] == v
}

/// `x` and `y` order their positions alike.
pub open spec fn same_order(x: Seq<usize>, y: Seq<usize>) -> bool {
    &&& x.len() == y.len()
    &&& forall|i: int, j: int|
        0 <= i < x.len() && 0 <= j < x.len() ==> (#[trigger] x[i] < #[trigger] x[j]) == (y[i] < y[j])
}

/// Each entry of `s` replaced by its rank: the number of entries smaller than it.
pub open spec fn ranks(s: Seq<usize>) -> Seq<int> {
    Seq::new(s.len(), |i: int| count_below(s, s[i] as int) as int)
}

/// No more entries are `true` than there are entries.
pub proof fn lemma_count_true_bounds(s: Seq<bool>)
    ensures
        count_true(s) <= s.len(),
    decreases s.len(),
{
    if s.len() > 0 {
        lemma_count_true_bounds(s.drop_last());
    }
}

/// Setting one entry changes the count by what that entry gained or lost.
pub proof fn lemma_count_true_update(s: Seq<bool>, i: int, b: bool)
    requires
        0 <= i < s.len(),
    ensures
        count_true(s.update(i, b)) + (if s[i] { 1nat } else { 0nat }) == count_true(s) + (if b {
            1nat
        } else {
            0nat
        }),
    decreases s.len(),
{
    let t = s.update(i, b);
    if i == s.len() - 1 {
        assert(t.drop_last() =~= s.drop_last());
    } else {
        lemma_count_true_update(s.drop_last(), i, b);
        assert(t.drop_last() =~= s.drop_last().update(i, b));
    }
}

/// Taking one entry out lowers the count by that entry.
pub proof fn lemma_count_true_remove(s: Seq<bool>, i: int)
    requires
        0 <= i < s.len(),
    ensures
        count_true(s.remove(i)) + (if s[i] { 1nat } else { 0nat }) == count_true(s),
    decreases s.len(),
{
    let t = s.remove(i);
    if i == s.len() - 1 {
        assert(t =~= s.drop_last());
    } else {
        lemma_count_true_remove(s.drop_last(), i);
        assert(t.drop_last() =~= s.drop_last().remove(i));
    }
}

/// The count of a sequence joined from two is the sum of their counts.
pub proof fn lemma_count_true_concat(a: Seq<bool>, b: Seq<bool>)
    ensures
        count_true(a + b) == count_true(a) + count_true(b),
    decreases b.len(),
{
    if b.len() == 0 {
        assert(a + b =~= a);
    } else {
        lemma_count_true_concat(a, b.drop_last());
        assert((a + b).drop_last() =~= a + b.drop_last());
    }
}

/// Where every entry is off the count is 0.
pub proof fn lemma_count_true_all_false(s: Seq<bool>)
    requires
        forall|i: int| 0 <= i < s.len() ==> !s[i],
    ensures
        count_true(s) == 0,
    decreases s.len(),
{
    if s.len() > 0 {
        lemma_count_true_all_false(s.drop_last());
    }
}

/// The pattern selected by `d` has as many steps on as thresholds lie below `d`.
pub proof fn lemma_count_true_below(thresh: Seq<usize>, d: int)
    ensures
        count_true(below(thresh, d)) == count_below(thresh, d),
    decreases thresh.len(),
{
    if thresh.len() > 0 {
        lemma_count_true_below(thresh.drop_last(), d);
        assert(below(thresh, d).drop_last() =~= below(thresh.drop_last(), d));
    }
}

/// The entries below `d + 1` are those below `d` and those equal to `d`.
pub proof fn lemma_count_below_step(s: Seq<usize>, d: int)
    ensures
        count_below(s, d + 1) == count_below(s, d) + count_equal(s, d),
    decreases s.len(),
{
    if s.len() > 0 {
        lemma_count_below_step(s.drop_last(), d);
    }
}

/// Where no entry lies below `d` the count is 0.
pub proof fn lemma_count_below_none(s: Seq<usize>, d: int)
    requires
        forall|i: int| 0 <= i < s.len() ==> s[i] >= d,
    ensures
        count_below(s, d) == 0,
    decreases s.len(),
{
    if s.len() > 0 {
        lemma_count_below_none(s.drop_last(), d);
    }
}

/// Where every entry lies below `d` the count is the length.
pub proof fn lemma_count_below_all(s: Seq<usize>, d: int)
    requires
        forall|i: int| 0 <= i < s.len() ==> s[i] < d,
    ensures
        count_below(s, d) == s.len(),
    decreases s.len(),
{
    if s.len() > 0 {
        lemma_count_below_all(s.drop_last(), d);
    }
}

/// A value that is counted stands somewhere.
pub proof fn lemma_count_equal_witness(s: Seq<usize>, d: int) -> (j: int)
    requires
        count_equal(s, d) > 0,
    ensures
        0 <= j < s.len(),
        s[j] == d,
    decreases s.len(),
{
    if s.last() == d {
        s.len() - 1
    } else {
        lemma_count_equal_witness(s.drop_last(), d)
    }
}

/// Without repetitions no value is counted twice.
pub proof fn lemma_count_equal_at_most_one(s: Seq<usize>, d: int)
    requires
        s.no_duplicates(),
    ensures
        count_equal(s, d) <= 1,
    decreases s.len(),
{
    if s.len() > 0 {
        lemma_count_equal_at_most_one(s.drop_last(), d);
        if s.last() == d && count_equal(s.drop_last(), d) > 0 {
            let j = lemma_count_equal_witness(s.drop_last(), d);
            assert(s[j] == s[s.len() - 1]);
        }
    }
}

/// Without repetitions at most `e - d` entries lie in `d, .., e - 1`.
pub proof fn lemma_count_below_gap(s: Seq<usize>, d: int, e: int)
    requires
        s.no_duplicates(),
        d <= e,
    ensures
        count_below(s, d) <= count_below(s, e) <= count_below(s, d) + (e - d),
    decreases e - d,
{
    if d < e {
        lemma_count_below_gap(s, d, e - 1);
        lemma_count_below_step(s, e - 1);
        lemma_count_equal_at_most_one(s, e - 1);
    }
}

/// The counting fact: a permutation of `lo, .., lo + n - 1` has exactly
/// `d - lo` entries below `d`, for every `d` in that range.
pub proof fn lemma_range_permutation_count_below(s: Seq<usize>, lo: int, d: int)
    requires
        is_range_permutation(s, lo),
        lo <= d <= lo + s.len(),
    ensures
        count_below(s, d) == d - lo,
{
    lemma_count_below_none(s, lo);
    lemma_count_below_all(s, lo + s.len());
    lemma_count_below_gap(s, lo, d);
    lemma_count_below_gap(s, d, lo + s.len());
}

/// In a permutation of `0, .., n - 1` exactly `d` entries lie below `d`.
pub proof fn lemma_permutation_count_below(s: Seq<usize>, d: int)
    requires
        is_permutation(s),
        0 <= d,
    ensures
        count_below(s, d) == if d <= s.len() { d } else { s.len() as int },
{
    if d <= s.len() {
        lemma_range_permutation_count_below(s, 0, d);
    } else {
        lemma_count_below_all(s, d);
    }
}

/// Every value of the range stands at exactly one place of a permutation.
pub proof fn lemma_permutation_position(s: Seq<usize>, lo: int, v: int)
    requires
        is_range_permutation(s, lo),
        lo <= v < lo + s.len(),
    ensures
        0 <= position_of(s, v) < s.len(),
        s[position_of(s, v)] == v,
        forall|j: int| 0 <= j < s.len() && s[j] == v ==> j == position_of(s, v),
{
    lemma_range_permutation_count_below(s, lo, v);
    lemma_range_permutation_count_below(s, lo, v + 1);
    lemma_count_below_step(s, v);
    let j = lemma_count_equal_witness(s, v);
}

/// Exchanging two entries of a permutation leaves a permutation.
pub proof fn lemma_swapped_permutation(s: Seq<usize>, lo: int, i: int, j: int)
    requires
        is_range_permutation(s, lo),
        0 <= i < s.len(),
        0 <= j < s.len(),
    ensures
        is_range_permutation(swapped(s, i, j), lo),
{
    let t = swapped(s, i, j);
    assert forall|a: int, b: int|
        0 <= a < t.len() && 0 <= b < t.len() && a != b implies t[a] != t[b] by {
        let a0 = if a == i { j } else if a == j { i } else { a };
        let b0 = if b == i { j } else if b == j { i } else { b };
        assert(t[a] == s[a0]);
        assert(t[b] == s[b0]);
    }
}

/// A permutation that orders its positions as `y` does holds the ranks of `y`.
pub proof fn lemma_same_order_ranks(x: Seq<usize>, y: Seq<usize>)
    requires
        is_permutation(x),
        same_order(x, y),
    ensures
        forall|i: int| 0 <= i < x.len() ==> #[trigger] x[i] == ranks(y)[i],
{
    assert forall|i: int| 0 <= i < x.len() implies #[trigger] x[i] == ranks(y)[i] by {
        lemma_permutation_count_below(x, x[i] as int);
        lemma_count_below_same_order(x, y, i, x.len() as int);
        assert(x.take(x.len() as int) =~= x);
        assert(y.take(x.len() as int) =~= y);
    }
}

/// Where two arrays order their positions alike, as many entries of the one
/// lie below its entry at `i` as of the other.
pub proof fn lemma_count_below_same_order(x: Seq<usize>, y: Seq<usize>, i: int, k: int)
    requires
        same_order(x, y),
        0 <= i < x.len(),
        0 <= k <= x.len(),
    ensures
        count_below(x.take(k), x[i] as int) == count_below(y.take(k), y[i] as int),
    decreases k,
{
    if k > 0 {
        lemma_count_below_same_order(x, y, i, k - 1);
        assert(x.take(k).drop_last() =~= x.take(k - 1));
        assert(y.take(k).drop_last() =~= y.take(k - 1));
        assert((x[k - 1] < x[i]) == (y[k - 1] < y[i]));
    }
}

/// Says whether `v` holds each of `0, .., v.len() - 1` exactly once.
pub fn is_distribution(v: &Vec<usize>) -> (b: bool)
    ensures
        b == is_permutation(v@),
{
    let n = v.len();
    let mut seen: Vec<bool> = Vec::new();
    while seen.len() < n
        invariant
            seen.len() <= n,
            forall|x: int| 0 <= x < seen.len() ==> !seen[x],
        decreases n - seen.len(),
    {
        seen.push(false);
    }
    let mut i: usize = 0;
    while i < n
        invariant
            i <= n,
            n == v.len(),
            seen.len() == n,
            forall|k: int| 0 <= k < i ==> v[k] < n,
            forall|x: int|
                0 <= x < n ==> (#[trigger] seen[x] <==> exists|k: int| 0 <= k < i && v[k] == x),
            forall|a: int, b: int| 0 <= a < i && 0 <= b < i && a != b ==> v[a] != v[b],
        decreases n - i,
    {
        let x = v[i];
        if x >= n {
            return false;
        }
        if seen[x] {
            proof {
                let k = choose|k: int| 0 <= k < i && v[k] == x;
                assert(v@[k] == v@[i as int]);
            }
            return false;
        }
        seen.set(x, true);
        i = i + 1;
        proof {
            assert forall|y: int| 0 <= y < n implies (#[trigger] seen[y] <==> exists|k: int|
                0 <= k < i && v[k] == y) by {
                if y == x {
                    assert(v[i - 1] == y);
                } else if seen[y] {
                    let k = choose|k: int| 0 <= k < i - 1 && v[k] == y;
                    assert(0 <= k < i && v[k] == y);
                }
            }
        }
    }
    true
}

} // verus!
