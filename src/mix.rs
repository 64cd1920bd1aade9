//! Mixing: element-wise sum of aligned tracks, scaling to the output bit
//! depth, hard limiting, and interleaving for the encoder.

use vstd::prelude::*;
use vstd::arithmetic::div_mod::{lemma_div_is_ordered, lemma_div_multiples_vanish};
use crate::fixed::{UNIT, valid_bit_depth, full_scale_of, trunc_div, clamp, full_scale, div_toward_zero};
use crate::track::{Track, track_len, fit_to};
use crate::align::{longest, lemma_longest_bounds, align_tracks};

verus! {

/// Number of channels of the mixed output.
pub const OUTPUT_CHANNELS: u16 = 2;

/// Format and limiter settings of one mixdown.
#[derive(Debug, Clone, Copy, PartialEq, Eq, Structural)]
pub struct MixConfig {
    /// Rate, in Hz, that every track must run at and that the output has.
    pub sample_rate: u32,
    /// Bit depth of the output samples.
    pub bit_depth: u16,
    /// Largest output sample; louder samples are set to it.
    pub ceiling: i32,
    /// Magnitude of the smallest output sample; quieter samples are set to its negation.
    pub floor: i32,
    /// Whether the sum is divided by the number of tracks before scaling.
    pub average: bool,
}

/// A configuration the mixer can work with: a supported bit depth, a
/// nonzero rate, and limits within that bit depth's full scale.
pub open spec fn config_ok(cfg: MixConfig) -> bool {
    &&& valid_bit_depth(cfg.bit_depth)
    &&& cfg.sample_rate > 0
    &&& 0 <= cfg.ceiling <= full_scale_of(cfg.bit_depth)
    &&& 0 <= cfg.floor <= full_scale_of(cfg.bit_depth)
}

impl MixConfig {
    /// The default output: 44100 Hz, 24 bits, limits 27 steps inside full
    /// scale, plain sum.
    pub fn standard() -> (r: MixConfig)
        ensures
            config_ok(r),
            r.sample_rate == 44100,
            r.bit_depth == 24,
            r.ceiling == 8388580,
            r.floor == 8388580,
            !r.average,
    {
        proof {
            vstd::arithmetic::power2::lemma2_to64();
        }
        MixConfig { sample_rate: 44100, bit_depth: 24, ceiling: 8388580, floor: 8388580, average: false }
    }

    /// Whether the mixer accepts this configuration.
    pub fn is_valid(&self) -> (r: bool)
        ensures
            r == config_ok(*self),
    {
        if self.bit_depth < 2 || self.bit_depth > 32 || self.sample_rate == 0 {
            return false;
        }
        let full = full_scale(self.bit_depth);
        self.ceiling >= 0 && self.ceiling as i64 <= full as i64 && self.floor >= 0 && self.floor as i64 <= full as i64
    }
}

/// Why a set of tracks cannot be mixed.
#[derive(Debug, Clone, Copy, PartialEq, Eq, Structural)]
pub enum MixError {
    /// The configuration fails `config_ok`.
    InvalidConfig,
    /// There is no track to mix.
    NoTracks,
    /// The track at `index` does not run at the configured rate.
    RateMismatch { index: usize },
}

/// Channel `c` of a track: 0 is left, any other is right.
pub open spec fn channel(t: Track, c: int) -> Seq<i64> {
    if c == 0 {
        t.left@
    } else {
        t.right@
    }
}

/// Sample `i` of `s`, or silence past its end.
pub open spec fn at_or_zero(s: Seq<i64>, i: int) -> int {
    if 0 <= i < s.len() {
        s[i] as int
    } else {
        0
    }
}

/// Sum over all tracks of sample `i` of channel `c`, a track that has
/// ended contributing silence.
pub open spec fn channel_sum(ts: Seq<Track>, c: int, i: int) -> int
    decreases ts.len(),
{
    if ts.len() == 0 {
        0
    } else {
        channel_sum(ts.drop_last(), c, i) + at_or_zero(channel(ts.last(), c), i)
    }
}

/// What the sum is divided by: the track count when averaging, else 1.
pub open spec fn divisor(cfg: MixConfig, count: nat) -> int {
    if cfg.average {
        count as int
    } else {
        1
    }
}

/// The output sample for a summed value `sum` of `count` tracks: the sum
/// (divided by the count when averaging) scaled from `UNIT` to the output's
/// full scale, rounded toward zero, then limited to `-floor ..= ceiling`.
pub open spec fn limited(sum: int, count: nat, cfg: MixConfig) -> int {
    clamp(
        trunc_div(trunc_div(sum, divisor(cfg, count)) * full_scale_of(cfg.bit_depth), UNIT as int),
        -cfg.floor,
        cfg.ceiling as int,
    )
}

proof fn lemma_scaled_reaches(a: int, f: int, u: int, m: int)
    requires
        a >= (m + 1) * u,
        f >= 1,
        u > 0,
        m >= 0,
    ensures
        (a * f) / u >= m + 1,
{
    assert(a * f >= a) by (nonlinear_arith)
        requires
            a >= 0,
            f >= 1,
    ;
    assert(a >= 0) by (nonlinear_arith)
        requires
            a >= (m + 1) * u,
            u > 0,
            m >= 0,
    ;
    lemma_div_is_ordered((m + 1) * u, a * f, u);
    lemma_div_multiples_vanish(m + 1, u);
}

/// Scales and limits one summed value to an output sample.
pub fn limit_sample(sum: i128, count: usize, cfg: &MixConfig) -> (r: i32)
    requires
        config_ok(*cfg),
        count >= 1,
        sum > i128::MIN,
    ensures
        r == limited(sum as int, count as nat, *cfg),
        -cfg.floor <= r <= cfg.ceiling,
{
    let d: i128 = if cfg.average {
        count as i128
    } else {
        1
    };
    let s = div_toward_zero(sum, d);
    let f: i128 = full_scale(cfg.bit_depth) as i128;
    let unit: i128 = UNIT as i128;
    let hi: i128 = (cfg.ceiling as i128 + 1) * unit;
    let lo: i128 = -((cfg.floor as i128 + 1) * unit);
    if s >= hi {
        proof {
            lemma_scaled_reaches(s as int, f as int, unit as int, cfg.ceiling as int);
        }
        return cfg.ceiling;
    }
    if s <= lo {
        proof {
            lemma_scaled_reaches(-s, f as int, unit as int, cfg.floor as int);
            assert((-s) * f == -(s * f)) by (nonlinear_arith);
        }
        return -cfg.floor;
    }
    assert(-9223372036854775808 * 2147483647 <= s * f <= 9223372036854775808 * 2147483647) by (nonlinear_arith)
        requires
            -9223372036854775808 <= s <= 9223372036854775808,
            1 <= f <= 2147483647,
    ;
    let scaled = div_toward_zero(s * f, unit);
    if scaled > cfg.ceiling as i128 {
        cfg.ceiling
    } else if scaled < -(cfg.floor as i128) {
        -cfg.floor
    } else {
        scaled as i32
    }
}

/// Every track of `ts` runs at `rate`.
pub open spec fn all_at_rate(ts: Seq<Track>, rate: u32) -> bool {
    forall|j: int| 0 <= j < ts.len() ==> #[trigger] ts[j].sample_rate == rate
}

/// `index` is the first track of `ts` that does not run at `rate`.
pub open spec fn first_off_rate(ts: Seq<Track>, rate: u32, index: int) -> bool {
    &&& 0 <= index < ts.len()
    &&& ts[index].sample_rate != rate
    &&& forall|j: int| 0 <= j < index ==> #[trigger] ts[j].sample_rate == rate
}

/// `out` is the interleaved mix of `ts`: one frame per sample position of
/// the longest track, the left sample before the right one, each the
/// limited sum of that channel over all tracks.
pub open spec fn is_mix_of(out: Seq<i32>, ts: Seq<Track>, cfg: MixConfig) -> bool {
    &&& out.len() == 2 * longest(ts)
    &&& forall|k: int| 0 <= k < out.len() ==> #[trigger] out[k] == limited(channel_sum(ts, k % 2, k / 2), ts.len(), cfg)
}

/// Padding tracks with silence leaves each channel sum unchanged within the padded length.
proof fn lemma_padded_sum(padded: Seq<Track>, ts: Seq<Track>, len: nat, c: int, i: int)
    requires
        padded.len() == ts.len(),
        0 <= i < len,
        forall|j: int| 0 <= j < ts.len() ==> #[trigger] channel(padded[j], c) == fit_to(channel(ts[j], c), len),
    ensures
        channel_sum(padded, c, i) == channel_sum(ts, c, i),
    decreases ts.len(),
{
    if ts.len() > 0 {
        let p0 = padded.drop_last();
        let t0 = ts.drop_last();
        assert forall|j: int| 0 <= j < t0.len() implies #[trigger] channel(p0[j], c) == fit_to(channel(t0[j], c), len) by {
            assert(p0[j] == padded[j]);
            assert(t0[j] == ts[j]);
        }
        lemma_padded_sum(p0, t0, len, c, i);
        assert(channel(padded.last(), c) == fit_to(channel(ts.last(), c), len));
    }
}

/// Adds `ch` into `acc`, sample by sample, after `k` channels were added to it.
fn accumulate(acc: &mut Vec<i128>, ch: &Vec<i64>, Ghost(k): Ghost<int>)
    requires
        old(acc)@.len() == ch@.len(),
        0 <= k < 18446744073709551615,
        forall|i: int| 0 <= i < old(acc)@.len() ==> -k * 9223372036854775808 <= #[trigger] old(acc)@[i] <= k * 9223372036854775808,
    ensures
        final(acc)@.len() == old(acc)@.len(),
        forall|i: int| 0 <= i < old(acc)@.len() ==> #[trigger] final(acc)@[i] == old(acc)@[i] + ch@[i],
        forall|i: int| 0 <= i < old(acc)@.len() ==> -(k + 1) * 9223372036854775808 <= #[trigger] final(acc)@[i] <= (k + 1) * 9223372036854775808,
{
    let n = acc.len();
    let mut i: usize = 0;
    while i < n
        invariant
            n == acc@.len(),
            n == old(acc)@.len(),
            n == ch@.len(),
            i <= n,
            0 <= k < 18446744073709551615,
            forall|j: int| 0 <= j < n ==> -k * 9223372036854775808 <= #[trigger] old(acc)@[j] <= k * 9223372036854775808,
            forall|j: int| 0 <= j < i ==> #[trigger] acc@[j] == old(acc)@[j] + ch@[j],
            forall|j: int| i <= j < n ==> #[trigger] acc@[j] == old(acc)@[j],
        decreases n - i,
    {
        let v = acc[i] + ch[i] as i128;
        acc[i] = v;
        i = i + 1;
    }
}

/// Mixes `tracks` into one interleaved stereo stream of output samples.
///
/// The tracks are padded with trailing silence to the longest one, summed
/// channel by channel (divided by the track count when the configuration
/// averages), scaled to the output bit depth and hard-limited to
/// `-floor ..= ceiling`. The output holds two samples, left then right, per
/// frame of the longest track.
pub fn mixdown(tracks: Vec<Track>, cfg: &MixConfig) -> (r: Result<Vec<i32>, MixError>)
    ensures
        !config_ok(*cfg) ==> r == Err::<Vec<i32>, MixError>(MixError::InvalidConfig),
        config_ok(*cfg) && tracks@.len() == 0 ==> r == Err::<Vec<i32>, MixError>(MixError::NoTracks),
        config_ok(*cfg) && tracks@.len() > 0 && !all_at_rate(tracks@, cfg.sample_rate) ==> (r matches Err(MixError::RateMismatch { index }) && first_off_rate(tracks@, cfg.sample_rate, index as int)),
        r is Ok <==> (config_ok(*cfg) && tracks@.len() > 0 && all_at_rate(tracks@, cfg.sample_rate)),
        r matches Ok(out) ==> {
            &&& is_mix_of(out@, tracks@, *cfg)
            &&& out@.len() == 2 * longest(tracks@)
            &&& forall|j: int| 0 <= j < tracks@.len() ==> 2 * track_len(#[trigger] tracks@[j]) <= out@.len()
            &&& forall|k: int| 0 <= k < out@.len() ==> -cfg.floor <= #[trigger] out@[k] <= cfg.ceiling
        },
{
    if !cfg.is_valid() {
        return Err(MixError::InvalidConfig);
    }
    let n = tracks.len();
    if n == 0 {
        return Err(MixError::NoTracks);
    }
    let mut j: usize = 0;
    while j < n
        invariant
            n == tracks@.len(),
            config_ok(*cfg),
            j <= n,
            forall|q: int| 0 <= q < j ==> #[trigger] tracks@[q].sample_rate == cfg.sample_rate,
        decreases n - j,
    {
        if tracks[j].sample_rate != cfg.sample_rate {
            return Err(MixError::RateMismatch { index: j });
        }
        j = j + 1;
    }
    let ghost given = tracks@;
    proof {
        lemma_longest_bounds(given);
    }
    let mut tracks = tracks;
    let len = align_tracks(&mut tracks);
    let ghost aligned = tracks@;

    let mut acc_left: Vec<i128> = Vec::new();
    let mut acc_right: Vec<i128> = Vec::new();
    let mut i: usize = 0;
    while i < len
        invariant
            i <= len,
            acc_left@.len() == i,
            acc_right@.len() == i,
            forall|q: int| 0 <= q < i ==> #[trigger] acc_left@[q] == 0,
            forall|q: int| 0 <= q < i ==> #[trigger] acc_right@[q] == 0,
        decreases len - i,
    {
        acc_left.push(0);
        acc_right.push(0);
        i = i + 1;
    }

    let mut k: usize = 0;
    while k < n
        invariant
            n == aligned.len(),
            tracks@ == aligned,
            k <= n,
            acc_left@.len() == len,
            acc_right@.len() == len,
            forall|q: int| 0 <= q < n ==> (#[trigger] aligned[q]).left@.len() == len && aligned[q].right@.len() == len,
            forall|q: int| 0 <= q < len ==> #[trigger] acc_left@[q] == channel_sum(aligned.subrange(0, k as int), 0, q),
            forall|q: int| 0 <= q < len ==> #[trigger] acc_right@[q] == channel_sum(aligned.subrange(0, k as int), 1, q),
            forall|q: int| 0 <= q < len ==> -k * 9223372036854775808 <= #[trigger] acc_left@[q] <= k * 9223372036854775808,
            forall|q: int| 0 <= q < len ==> -k * 9223372036854775808 <= #[trigger] acc_right@[q] <= k * 9223372036854775808,
        decreases n - k,
    {
        accumulate(&mut acc_left, &tracks[k].left, Ghost(k as int));
        accumulate(&mut acc_right, &tracks[k].right, Ghost(k as int));
        proof {
            let pre = aligned.subrange(0, k as int);
            let next = aligned.subrange(0, k + 1);
            assert(next.drop_last() =~= pre);
            assert(next.last() == aligned[k as int]);
        }
        k = k + 1;
    }
    assert(aligned.subrange(0, n as int) =~= aligned);

    let mut out: Vec<i32> = Vec::new();
    let mut i: usize = 0;
    while i < len
        invariant
            n == given.len(),
            n == aligned.len(),
            n >= 1,
            len == longest(given),
            config_ok(*cfg),
            i <= len,
            acc_left@.len() == len,
            acc_right@.len() == len,
            forall|q: int| 0 <= q < n ==> #[trigger] aligned[q].left@ == fit_to(given[q].left@, len as nat),
            forall|q: int| 0 <= q < n ==> #[trigger] aligned[q].right@ == fit_to(given[q].right@, len as nat),
            forall|q: int| 0 <= q < len ==> #[trigger] acc_left@[q] == channel_sum(aligned, 0, q),
            forall|q: int| 0 <= q < len ==> #[trigger] acc_right@[q] == channel_sum(aligned, 1, q),
            forall|q: int| 0 <= q < len ==> -n * 9223372036854775808 <= #[trigger] acc_left@[q] <= n * 9223372036854775808,
            forall|q: int| 0 <= q < len ==> -n * 9223372036854775808 <= #[trigger] acc_right@[q] <= n * 9223372036854775808,
            out@.len() == 2 * i,
            forall|q: int| 0 <= q < out@.len() ==> #[trigger] out@[q] == limited(channel_sum(given, q % 2, q / 2), n as nat, *cfg),
            forall|q: int| 0 <= q < out@.len() ==> -cfg.floor <= #[trigger] out@[q] <= cfg.ceiling,
        decreases len - i,
    {
        proof {
            assert forall|q: int| 0 <= q < n implies #[trigger] channel(aligned[q], 0) == fit_to(channel(given[q], 0), len as nat) by {
                assert(aligned[q].left@ == fit_to(given[q].left@, len as nat));
            }
            assert forall|q: int| 0 <= q < n implies #[trigger] channel(aligned[q], 1) == fit_to(channel(given[q], 1), len as nat) by {
                assert(aligned[q].right@ == fit_to(given[q].right@, len as nat));
            }
            lemma_padded_sum(aligned, given, len as nat, 0, i as int);
            lemma_padded_sum(aligned, given, len as nat, 1, i as int);
        }
        let a = limit_sample(acc_left[i], n, cfg);
        let b = limit_sample(acc_right[i], n, cfg);
        out.push(a);
        out.push(b);
        proof {
            assert((2 * i) % 2 == 0 && (2 * i) / 2 == i);
            assert((2 * i + 1) % 2 == 1 && (2 * i + 1) / 2 == i);
        }
        i = i + 1;
    }
    Ok(out)
}

/// Tracks whose two channels are equal sum to equal channel values.
proof fn lemma_equal_channel_sums(ts: Seq<Track>, i: int)
    requires
        forall|j: int| 0 <= j < ts.len() ==> (#[trigger] ts[j]).left@ == ts[j].right@,
    ensures
        channel_sum(ts, 0, i) == channel_sum(ts, 1, i),
    decreases ts.len(),
{
    if ts.len() > 0 {
        let rest = ts.drop_last();
        assert forall|j: int| 0 <= j < rest.len() implies (#[trigger] rest[j]).left@ == rest[j].right@ by {
            assert(rest[j] == ts[j]);
        }
        lemma_equal_channel_sums(rest, i);
        assert(ts.last() == ts[ts.len() - 1]);
    }
}

/// A mix of tracks that each carry one signal in both channels (as mono
/// sources do after upmixing) has equal left and right samples in every frame.
pub proof fn mono_sources_mix_to_equal_channels(out: Seq<i32>, ts: Seq<Track>, cfg: MixConfig)
    requires
        is_mix_of(out, ts, cfg),
        forall|j: int| 0 <= j < ts.len() ==> (#[trigger] ts[j]).left@ == ts[j].right@,
    ensures
        forall|i: int| 0 <= i < out.len() / 2 ==> #[trigger] out[2 * i] == out[2 * i + 1],
{
    assert forall|i: int| 0 <= i < out.len() / 2 implies #[trigger] out[2 * i] == out[2 * i + 1] by {
        lemma_equal_channel_sums(ts, i);
        assert((2 * i) % 2 == 0 && (2 * i) / 2 == i);
        assert((2 * i + 1) % 2 == 1 && (2 * i + 1) / 2 == i);
        assert(out[2 * i] == limited(channel_sum(ts, (2 * i) % 2, (2 * i) / 2), ts.len(), cfg));
        assert(out[2 * i + 1] == limited(channel_sum(ts, (2 * i + 1) % 2, (2 * i + 1) / 2), ts.len(), cfg));
    }
}

} // verus!
