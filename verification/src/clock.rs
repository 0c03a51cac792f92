//! A gate signal: high for the first part of each period of the clock, low
//! for the rest.
//!
//! On every tick a gate is told whether the phase lies in the high part. It
//! reports the ticks on which that changes: the edges.

use vstd::prelude::*;

verus! {

/// A gate: high or low.
#[derive(Debug, Clone, Copy)]
pub struct Gate {
    gate_on: bool,
}

impl View for Gate {
    type V = bool;

    closed spec fn view(&self) -> bool {
        self.gate_on
    }
}

/// The edge on a tick on which a gate goes from `before` to `now`.
pub open spec fn edge(before: bool, now: bool) -> Option<bool> {
    if now != before {
        Some(now)
    } else {
        None
    }
}

impl Gate {
    /// A gate that is low.
    pub fn new() -> (gate: Self)
        ensures
            !gate@,
    {
        Gate { gate_on: false }
    }

    /// Whether this gate is high.
    pub fn is_on(&self) -> (on: bool)
        ensures
            on == self@,
    {
        self.gate_on
    }

    /// One tick: `new_gate_on` says whether the phase at the start of the
    /// tick lies in the high part of the period. Returns the new state if it
    /// has changed, and nothing if it has not.
    pub fn tick(&mut self, new_gate_on: bool) -> (event: Option<bool>)
        ensures
            final(self)@ == new_gate_on,
            event == edge(old(self)@, new_gate_on),
    {
        if new_gate_on != self.gate_on {
            self.gate_on = new_gate_on;
            Some(self.gate_on)
        } else {
            None
        }
    }
}

} // verus!
