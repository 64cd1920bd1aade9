//! Track alignment: every track is extended with trailing silence to the
//! length of the longest one.

use vstd::prelude::*;
use crate::track::{Track, track_len, fit_to, fit_channel};

verus! {

/// The largest `track_len` among `ts`, or 0 for no track.
pub open spec fn longest(ts: Seq<Track>) -> nat
    decreases ts.len(),
{
    if ts.len() == 0 {
        0
    } else {
        let rest = longest(ts.drop_last());
        if track_len(ts.last()) > rest {
            track_len(ts.last())
        } else {
            rest
        }
    }
}

/// No track of `ts` is longer than `longest(ts)`, and some track reaches it.
pub proof fn lemma_longest_bounds(ts: Seq<Track>)
    ensures
        forall|i: int| 0 <= i < ts.len() ==> track_len(#[trigger] ts[i]) <= longest(ts),
        ts.len() > 0 ==> exists|i: int| 0 <= i < ts.len() && track_len(#[trigger] ts[i]) == longest(ts),
    decreases ts.len(),
{
    if ts.len() > 0 {
        let rest = ts.drop_last();
        lemma_longest_bounds(rest);
        assert forall|i: int| 0 <= i < ts.len() implies track_len(#[trigger] ts[i]) <= longest(ts) by {
            if i < ts.len() - 1 {
                assert(ts[i] == rest[i]);
            }
        }
        if track_len(ts.last()) <= longest(rest) && rest.len() > 0 {
            let j = choose|j: int| 0 <= j < rest.len() && track_len(#[trigger] rest[j]) == longest(rest);
            assert(ts[j] == rest[j]);
        } else {
            assert(track_len(ts[ts.len() - 1]) == longest(ts));
        }
    }
}

/// Length of the longest track, the length that alignment gives to all.
pub fn longest_len(tracks: &Vec<Track>) -> (r: usize)
    ensures
        r == longest(tracks@),
{
    let mut m: usize = 0;
    let mut i: usize = 0;
    while i < tracks.len()
        invariant
            i <= tracks@.len(),
            m == longest(tracks@.subrange(0, i as int)),
        decreases tracks@.len() - i,
    {
        assert(tracks@.subrange(0, i + 1).drop_last() =~= tracks@.subrange(0, i as int));
        let n = tracks[i].len();
        if n > m {
            m = n;
        }
        i = i + 1;
    }
    assert(tracks@.subrange(0, i as int) =~= tracks@);
    m
}

/// Extends both channels of `t` with zeros to `len` samples each.
///
/// The samples already there keep their positions and values; every added
/// position holds exact zero.
pub fn pad_track(t: &mut Track, len: usize)
    requires
        track_len(*old(t)) <= len,
    ensures
        final(t).id == old(t).id,
        final(t).sample_rate == old(t).sample_rate,
        final(t).left@ == fit_to(old(t).left@, len as nat),
        final(t).right@ == fit_to(old(t).right@, len as nat),
        final(t).left@.len() == len,
        final(t).right@.len() == len,
        forall|i: int| 0 <= i < old(t).left@.len() ==> #[trigger] final(t).left@[i] == old(t).left@[i],
        forall|i: int| 0 <= i < old(t).right@.len() ==> #[trigger] final(t).right@[i] == old(t).right@[i],
        forall|i: int| old(t).left@.len() <= i < len ==> #[trigger] final(t).left@[i] == 0,
        forall|i: int| old(t).right@.len() <= i < len ==> #[trigger] final(t).right@[i] == 0,
{
    fit_channel(&mut t.left, len);
    fit_channel(&mut t.right, len);
}

/// Pads every track with trailing silence to the length of the longest one,
/// and returns that length. A track that is already that long is unchanged.
pub fn align_tracks(tracks: &mut Vec<Track>) -> (len: usize)
    ensures
        len == longest(old(tracks)@),
        final(tracks)@.len() == old(tracks)@.len(),
        forall|i: int| 0 <= i < old(tracks)@.len() ==> {
            &&& (#[trigger] final(tracks)@[i]).id == old(tracks)@[i].id
            &&& final(tracks)@[i].sample_rate == old(tracks)@[i].sample_rate
            &&& final(tracks)@[i].left@ == fit_to(old(tracks)@[i].left@, len as nat)
            &&& final(tracks)@[i].right@ == fit_to(old(tracks)@[i].right@, len as nat)
            &&& old(tracks)@[i].left@.len() == len ==> final(tracks)@[i].left@ == old(tracks)@[i].left@
            &&& old(tracks)@[i].right@.len() == len ==> final(tracks)@[i].right@ == old(tracks)@[i].right@
        },
{
    let len = longest_len(tracks);
    proof {
        lemma_longest_bounds(tracks@);
    }
    let ghost given = tracks@;
    let mut i: usize = 0;
    while i < tracks.len()
        invariant
            len == longest(given),
            tracks@.len() == given.len(),
            i <= tracks@.len(),
            forall|j: int| 0 <= j < given.len() ==> track_len(#[trigger] given[j]) <= len,
            forall|j: int| i <= j < given.len() ==> #[trigger] tracks@[j] == given[j],
            forall|j: int| 0 <= j < i ==> {
                &&& (#[trigger] tracks@[j]).id == given[j].id
                &&& tracks@[j].sample_rate == given[j].sample_rate
                &&& tracks@[j].left@ == fit_to(given[j].left@, len as nat)
                &&& tracks@[j].right@ == fit_to(given[j].right@, len as nat)
                &&& given[j].left@.len() == len ==> tracks@[j].left@ == given[j].left@
                &&& given[j].right@.len() == len ==> tracks@[j].right@ == given[j].right@
            },
        decreases given.len() - i,
    {
        let mut t = tracks.remove(i);
        assert(t == given[i as int]);
        pad_track(&mut t, len);
        assert(t.left@.len() == given[i as int].left@.len() ==> t.left@ =~= given[i as int].left@);
        assert(t.right@.len() == given[i as int].right@.len() ==> t.right@ =~= given[i as int].right@);
        tracks.insert(i, t);
        i = i + 1;
    }
    len
}

} // verus!
