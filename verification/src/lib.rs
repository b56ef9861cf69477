//! A small software sound synthesizer: a composable filter/synth engine
//! built around a Karplus-Strong plucked-string voice, with MIDI event
//! decoding and note-to-frequency mapping.
//!
//! Samples are 32.16 fixed-point integers (`i64` scaled by `FIX_ONE`);
//! frequencies are carried in centihertz so that every stage of the
//! engine is plain integer arithmetic with an exact contract.

pub mod audio_thread;
pub mod compose;
pub mod filters;
pub mod fir;
pub mod fixed;
pub mod midi;
pub mod note;
pub mod string_synth;
pub mod wavetable;

pub use fixed::FIX_ONE;
pub use fixed::SIG_LIMIT;
