use vstd::prelude::*;

verus! {

/// Number of rows (lanes) of the sequencer.
pub const NUM_ROWS: usize = 4;

} // verus!
