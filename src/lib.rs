use vstd::prelude::*;

pub mod time;
pub mod control;
pub mod envelope;
pub mod wave;
pub mod volume;
pub mod io;
pub mod midi;

verus! {

/// Samples per second of every rendered buffer.
pub const SAMPLE_RATE: u64 = 44100;

/// Fixed-point scale of every level and time value: `UNIT` stands for 1.0.
pub const UNIT: i64 = 1_000_000;

} // verus!
