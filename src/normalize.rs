//! Channel normalization: interleaved integer PCM to two fixed-point channels.

use vstd::prelude::*;
use vstd::arithmetic::div_mod::{lemma_div_is_ordered, lemma_div_multiples_vanish, lemma_div_pos_is_pos};
use crate::fixed::{UNIT, valid_bit_depth, full_scale_of, fits_bit_depth, trunc_div, full_scale, div_toward_zero};
use crate::track::Track;

verus! {

/// Why a decoded stream cannot become a track.
#[derive(Debug, Clone, Copy, PartialEq, Eq, Structural)]
pub enum DecodeError {
    /// The stream declares no channel.
    NoChannels,
    /// The bit depth is outside `2 ..= 32`.
    UnsupportedBitDepth,
    /// The sample at `index` does not fit the declared bit depth.
    SampleOutOfRange { index: usize },
    /// A multi-channel stream holds an odd number of samples, so its last
    /// sample has no partner in the second channel.
    UnpairedSample,
}

/// The fixed-point value of the raw sample `v` of a stream of `bits` bits:
/// `v / full_scale`, in units of `UNIT`, rounded toward zero.
pub open spec fn normalized(v: int, bits: u16) -> int {
    trunc_div(v * UNIT, full_scale_of(bits))
}

/// Every sample of `s` fits `bits` bits.
pub open spec fn all_fit(s: Seq<i32>, bits: u16) -> bool {
    forall|i: int| 0 <= i < s.len() ==> fits_bit_depth(#[trigger] s[i] as int, bits)
}

/// `index` is the first position of `s` whose sample does not fit `bits` bits.
pub open spec fn first_misfit(s: Seq<i32>, bits: u16, index: int) -> bool {
    &&& 0 <= index < s.len()
    &&& !fits_bit_depth(s[index] as int, bits)
    &&& forall|j: int| 0 <= j < index ==> fits_bit_depth(#[trigger] s[j] as int, bits)
}

proof fn lemma_quotient_bound(a: int, d: int, u: int)
    requires
        0 <= a <= (d + 1) * u,
        d >= 1,
        u >= 0,
    ensures
        0 <= a / d <= 2 * u,
{
    assert((d + 1) * u <= d * (2 * u)) by (nonlinear_arith)
        requires
            d >= 1,
            u >= 0,
    ;
    lemma_div_is_ordered(a, d * (2 * u), d);
    lemma_div_multiples_vanish(2 * u, d);
    lemma_div_pos_is_pos(a, d);
}

/// Converts one raw sample to fixed point, given the full-scale magnitude of its bit depth.
pub fn normalize_sample(v: i32, full: u32) -> (r: i64)
    requires
        full >= 1,
        -(full + 1) <= v <= full,
    ensures
        r == trunc_div(v * UNIT, full as int),
        -2 * UNIT <= r <= 2 * UNIT,
{
    assert(-9223372036854775808 <= v * UNIT <= 9223372036854775807) by (nonlinear_arith)
        requires
            -2147483648 <= v <= 2147483647,
            UNIT == 4294967296,
    ;
    let p: i128 = (v as i128) * (UNIT as i128);
    let full_wide: i128 = full as i128;
    proof {
        if v >= 0 {
            assert(p <= (full + 1) * UNIT) by (nonlinear_arith)
                requires
                    p == v * UNIT,
                    0 <= v <= full,
            ;
            lemma_quotient_bound(p as int, full as int, UNIT as int);
        } else {
            assert(-p <= (full + 1) * UNIT) by (nonlinear_arith)
                requires
                    p == v * UNIT,
                    -(full + 1) <= v < 0,
            ;
            assert(p < 0) by (nonlinear_arith)
                requires
                    p == v * UNIT,
                    v < 0,
                    UNIT > 0,
            ;
            lemma_quotient_bound(-p, full as int, UNIT as int);
        }
    }
    let q = div_toward_zero(p, full_wide);
    q as i64
}

/// Checks that every sample fits `bits` bits; otherwise returns the first that does not.
fn find_misfit(samples: &Vec<i32>, bits: u16) -> (r: Option<usize>)
    requires
        valid_bit_depth(bits),
    ensures
        r is None <==> all_fit(samples@, bits),
        r matches Some(index) ==> first_misfit(samples@, bits, index as int),
{
    let full = full_scale(bits);
    let mut i: usize = 0;
    while i < samples.len()
        invariant
            i <= samples@.len(),
            full == full_scale_of(bits),
            forall|j: int| 0 <= j < i ==> fits_bit_depth(#[trigger] samples@[j] as int, bits),
        decreases samples@.len() - i,
    {
        let v = samples[i];
        if (v as i64) < -(full as i64) - 1 || (v as i64) > full as i64 {
            return Some(i);
        }
        i = i + 1;
    }
    None
}

/// Turns a decoded stream of interleaved samples into a track of two
/// fixed-point channels.
///
/// A mono stream is copied into both channels. A stream of two or more
/// channels is split by the parity of each sample's position: even positions
/// form the left channel, odd positions the right one, so channels past the
/// second are not separated.
pub fn normalize(id: String, samples: &Vec<i32>, channels: u16, bits: u16, sample_rate: u32) -> (r: Result<Track, DecodeError>)
    ensures
        channels == 0 ==> r == Err::<Track, DecodeError>(DecodeError::NoChannels),
        channels != 0 && !valid_bit_depth(bits) ==> r == Err::<Track, DecodeError>(DecodeError::UnsupportedBitDepth),
        channels != 0 && valid_bit_depth(bits) && !all_fit(samples@, bits) ==> (r matches Err(DecodeError::SampleOutOfRange { index }) && first_misfit(samples@, bits, index as int)),
        channels >= 2 && valid_bit_depth(bits) && all_fit(samples@, bits) && samples@.len() % 2 == 1 ==> r == Err::<Track, DecodeError>(DecodeError::UnpairedSample),
        r is Ok <==> (channels != 0 && valid_bit_depth(bits) && all_fit(samples@, bits) && (channels == 1 || samples@.len() % 2 == 0)),
        r matches Ok(t) ==> {
            &&& t.id@ == id@
            &&& t.sample_rate == sample_rate
            &&& channels == 1 ==> {
                &&& t.left@.len() == samples@.len()
                &&& t.right@ == t.left@
                &&& forall|i: int| 0 <= i < samples@.len() ==> #[trigger] t.left@[i] == normalized(samples@[i] as int, bits)
            }
            &&& channels >= 2 ==> {
                &&& t.left@.len() == samples@.len() / 2
                &&& t.right@.len() == samples@.len() / 2
                &&& forall|i: int| 0 <= i < t.left@.len() ==> #[trigger] t.left@[i] == normalized(samples@[2 * i] as int, bits)
                &&& forall|i: int| 0 <= i < t.right@.len() ==> #[trigger] t.right@[i] == normalized(samples@[2 * i + 1] as int, bits)
            }
        },
{
    if channels == 0 {
        return Err(DecodeError::NoChannels);
    }
    if bits < 2 || bits > 32 {
        return Err(DecodeError::UnsupportedBitDepth);
    }
    match find_misfit(samples, bits) {
        Some(index) => {
            return Err(DecodeError::SampleOutOfRange { index });
        },
        None => {},
    }
    let full = full_scale(bits);
    let n = samples.len();
    let mut left: Vec<i64> = Vec::new();
    let mut right: Vec<i64> = Vec::new();
    if channels == 1 {
        let mut i: usize = 0;
        while i < n
            invariant
                n == samples@.len(),
                i <= n,
                full >= 1,
                full == full_scale_of(bits),
                all_fit(samples@, bits),
                left@.len() == i,
                right@ == left@,
                forall|j: int| 0 <= j < i ==> #[trigger] left@[j] == normalized(samples@[j] as int, bits),
            decreases n - i,
        {
            let x = normalize_sample(samples[i], full);
            left.push(x);
            right.push(x);
            i = i + 1;
        }
    } else {
        if n % 2 == 1 {
            return Err(DecodeError::UnpairedSample);
        }
        let frames = n / 2;
        let mut i: usize = 0;
        while i < frames
            invariant
                n == samples@.len(),
                frames == n / 2,
                n % 2 == 0,
                i <= frames,
                full >= 1,
                full == full_scale_of(bits),
                all_fit(samples@, bits),
                left@.len() == i,
                right@.len() == i,
                forall|j: int| 0 <= j < i ==> #[trigger] left@[j] == normalized(samples@[2 * j] as int, bits),
                forall|j: int| 0 <= j < i ==> #[trigger] right@[j] == normalized(samples@[2 * j + 1] as int, bits),
            decreases frames - i,
        {
            let a = normalize_sample(samples[2 * i], full);
            let b = normalize_sample(samples[2 * i + 1], full);
            left.push(a);
            right.push(b);
            i = i + 1;
        }
    }
    Ok(Track { id, left, right, sample_rate })
}

} // verus!
