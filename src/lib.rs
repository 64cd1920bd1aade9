//! Mixdown of PCM audio tracks into one stereo track, on fixed-point samples.
//!
//! Decoded integer PCM is normalized into two fixed-point channels per track,
//! brought to a common sample rate, aligned to the longest track by trailing
//! silence, summed, scaled to the output bit depth and hard-limited.

pub mod fixed;
pub mod track;
pub mod normalize;
pub mod resample;
pub mod align;
pub mod mix;
pub mod naming;
