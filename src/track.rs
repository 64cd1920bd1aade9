//! The track record that flows through the pipeline.

use vstd::prelude::*;

verus! {

/// One input recording in the internal representation: two channels of
/// fixed-point samples (see `fixed::UNIT`) at `sample_rate` Hz.
#[derive(Debug, Clone)]
pub struct Track {
    /// Name of the recording, taken from its source.
    pub id: String,
    /// First channel.
    pub left: Vec<i64>,
    /// Second channel.
    pub right: Vec<i64>,
    /// Rate in Hz.
    pub sample_rate: u32,
}

/// Number of sample frames of a track: the longer of its two channels.
pub open spec fn track_len(t: Track) -> nat {
    if t.left@.len() >= t.right@.len() {
        t.left@.len()
    } else {
        t.right@.len()
    }
}

/// `s` cut or extended with silence to exactly `len` samples: its samples
/// below `len` are kept, and every position past its end holds zero.
pub open spec fn fit_to(s: Seq<i64>, len: nat) -> Seq<i64> {
    Seq::new(len, |i: int| if i < s.len() { s[i] } else { 0i64 })
}

/// Cuts `buf` to `len` samples, or extends it with zeros to `len` samples.
pub fn fit_channel(buf: &mut Vec<i64>, len: usize)
    ensures
        final(buf)@ == fit_to(old(buf)@, len as nat),
{
    if buf.len() >= len {
        buf.truncate(len);
    } else {
        while buf.len() < len
            invariant
                old(buf)@.len() < len,
                old(buf)@.len() <= buf@.len() <= len,
                forall|i: int| 0 <= i < buf@.len() ==> #[trigger] buf@[i] == fit_to(old(buf)@, len as nat)[i],
            decreases len - buf@.len(),
        {
            buf.push(0);
        }
    }
    assert(buf@ =~= fit_to(old(buf)@, len as nat));
}

impl Track {
    /// Number of sample frames: the longer of the two channels.
    pub fn len(&self) -> (r: usize)
        ensures
            r == track_len(*self),
    {
        if self.left.len() >= self.right.len() {
            self.left.len()
        } else {
            self.right.len()
        }
    }
}

} // verus!
