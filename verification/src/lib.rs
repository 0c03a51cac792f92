//! A polyphonic step sequencer.
//!
//! Notes that come in are spread over a fixed number of rows. Each row plays
//! a looping pattern of steps, driven by a shared clock, and the pattern of
//! all rows grows and shrinks with a density instead of being drawn step by
//! step.

pub mod clock;
pub mod clock_runner;
pub mod grid_activations;
pub mod looping_state;
pub mod messages;
pub mod midi_helpers;
pub mod note;
pub mod note_assigner;
pub mod permutation;
pub mod rho;
pub mod rho_config;
pub mod row_layout;
