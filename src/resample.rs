//! Sample-rate conversion decisions: when a track is left as it is, how
//! long a converted track is, and how a converted result becomes a track.
//!
//! The interpolation itself is done by the caller between `plan_resample`
//! and `complete_resample`.

use vstd::prelude::*;
use crate::track::{Track, track_len, fit_to, fit_channel};

verus! {

/// Why a track cannot be brought to the target rate.
#[derive(Debug, Clone, Copy, PartialEq, Eq, Structural)]
pub enum ResampleError {
    /// The track's rate or the target rate is zero.
    ZeroRate,
    /// The track holds no sample to interpolate from.
    EmptyTrack,
    /// The converted length does not fit in memory.
    TooLong,
}

/// Length after conversion: `len * to / from`, rounded to the nearest
/// integer, halves upward.
pub open spec fn resampled_len(len: nat, from: nat, to: nat) -> int {
    ((2 * len * to + from) / (2 * from)) as int
}

/// What to do with a track so that it runs at the target rate.
#[derive(Debug)]
pub enum ResampleStep {
    /// The track is already at the target rate and is passed on untouched.
    Unchanged(Track),
    /// The track is to be interpolated to `frames` sample frames.
    Convert { track: Track, frames: usize },
}

/// Computes `resampled_len(len, from, to)`, or `None` where it exceeds `usize`.
pub fn resampled_length(len: usize, from: u32, to: u32) -> (r: Option<usize>)
    requires
        from > 0,
    ensures
        r is None <==> resampled_len(len as nat, from as nat, to as nat) > usize::MAX,
        r matches Some(n) ==> n == resampled_len(len as nat, from as nat, to as nat),
{
    assert(2 * len * to <= 2 * 18446744073709551615 * 4294967295) by (nonlinear_arith)
        requires
            len <= 18446744073709551615,
            to <= 4294967295,
    ;
    let num: u128 = 2 * (len as u128) * (to as u128) + from as u128;
    let q: u128 = num / (2 * from as u128);
    if q > usize::MAX as u128 {
        None
    } else {
        Some(q as usize)
    }
}

/// Decides how `track` reaches the rate `target`.
///
/// A track already at `target` is returned unchanged, bit for bit. Any
/// other track is to be converted to `round(len * target / rate)` frames.
pub fn plan_resample(track: Track, target: u32) -> (r: Result<ResampleStep, ResampleError>)
    ensures
        track.sample_rate == target ==> r == Ok::<ResampleStep, ResampleError>(ResampleStep::Unchanged(track)),
        track.sample_rate != target && (track.sample_rate == 0 || target == 0) ==> r == Err::<ResampleStep, ResampleError>(ResampleError::ZeroRate),
        track.sample_rate != target && track.sample_rate > 0 && target > 0 && track_len(track) == 0 ==> r == Err::<ResampleStep, ResampleError>(ResampleError::EmptyTrack),
        track.sample_rate != target && track.sample_rate > 0 && target > 0 && track_len(track) > 0 ==> {
            let n = resampled_len(track_len(track), track.sample_rate as nat, target as nat);
            &&& n > usize::MAX ==> r == Err::<ResampleStep, ResampleError>(ResampleError::TooLong)
            &&& n <= usize::MAX ==> r == Ok::<ResampleStep, ResampleError>(ResampleStep::Convert { track, frames: n as usize })
        },
{
    if track.sample_rate == target {
        return Ok(ResampleStep::Unchanged(track));
    }
    if track.sample_rate == 0 || target == 0 {
        return Err(ResampleError::ZeroRate);
    }
    let len = track.len();
    if len == 0 {
        return Err(ResampleError::EmptyTrack);
    }
    match resampled_length(len, track.sample_rate, target) {
        Some(frames) => Ok(ResampleStep::Convert { track, frames }),
        None => Err(ResampleError::TooLong),
    }
}

/// Builds the converted track from the interpolated channels: each is cut or
/// extended with silence to exactly `frames` samples, so both channels end
/// equal in length; the track keeps its id and now runs at `target`.
pub fn complete_resample(track: Track, target: u32, frames: usize, left: Vec<i64>, right: Vec<i64>) -> (r: Track)
    ensures
        r.id == track.id,
        r.sample_rate == target,
        r.left@ == fit_to(left@, frames as nat),
        r.right@ == fit_to(right@, frames as nat),
        r.left@.len() == frames,
        r.right@.len() == frames,
{
    let mut left = left;
    let mut right = right;
    fit_channel(&mut left, frames);
    fit_channel(&mut right, frames);
    Track { id: track.id, left, right, sample_rate: target }
}

} // verus!
