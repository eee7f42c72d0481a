//! A polyphonic software-synthesizer engine, verified with Verus.
//!
//! The engine turns a shared description of held notes and timbre settings
//! into a stream of audio samples: per-note voices run an ADSR envelope
//! state machine, an oscillator with vibrato and unison, a coloration stage,
//! a noise blend and a one-pole tone filter; the mixed output then passes
//! through a three-band biquad equalizer.
//!
//! All signal values are Q20 fixed-point integers (`fixed::FP_ONE` is 1.0),
//! so every arithmetic step has an exact, machine-checked meaning.

pub mod engine;
pub mod eq;
pub mod fixed;
pub mod keys;
pub mod model;
pub mod params;
pub mod scope;
pub mod settings;
pub mod trig;
pub mod voice;
