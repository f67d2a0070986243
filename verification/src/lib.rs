//! Pitch detection for short windows of raw audio, specified and verified in
//! exact integer arithmetic.
//!
//! The analysis pipeline works on a power spectrum and decides which musical
//! notes are present: iterative harmonic-suppression peak picking, a sorted
//! note-frequency table with nearest lookup, voice-profile filtering, and a
//! scoring pass that ranks the candidates. All of that logic lives here with
//! contracts; the floating-point windowing and Fourier transform that produce
//! the spectrum are left to the caller.
//!
//! Quantities use fixed-point units throughout, so every step has an exact
//! arithmetic meaning:
//! - frequencies are in milli-hertz (`u64`, 1000 per Hz);
//! - spectral magnitudes, confidences, intensities, bonuses and scores are in
//!   parts per million (1_000_000 stands for 1.0).

pub mod analyzer;
pub mod fixmath;
pub mod model;
pub mod notes;
pub mod pcm;
pub mod peaks;
pub mod profile;
pub mod scoring;
