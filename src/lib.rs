//! A real-time audio host core: a single-producer/single-consumer sample ring,
//! a command channel from the control side to the audio side, and the engine
//! that applies commands and feeds the node rack once per hardware period.
//!
//! Samples travel as the raw IEEE-754 single-precision bit pattern of each
//! value (`f32::to_bits`); the pattern `0` is silence.

pub mod dspapi;
pub mod dspengine;
pub mod mrbr;
pub mod pmanager;

use vstd::prelude::*;

verus! {

/// One audio sample, as the bit pattern of an `f32`.
pub type Sample = u32;

/// The sample that stands for silence (`0.0f32`).
pub const SILENCE: Sample = 0;

} // verus!
