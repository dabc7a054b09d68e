//! A polyphonic synthesizer core and a tick-based MIDI sequencer.
//!
//! All time is measured in whole microseconds and all gain in millionths of
//! full scale, so every rule of the engine is stated over integers.

pub mod envelope;
pub mod midi;
pub mod note;
pub mod timing;
pub mod arrangement;
pub mod sequencer;
pub mod synth;
pub mod waveform;
