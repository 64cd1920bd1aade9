use wavmix::align::{align_tracks, longest_len, pad_track};
use wavmix::fixed::{div_toward_zero, full_scale, UNIT};
use wavmix::mix::{limit_sample, mixdown, MixConfig, MixError, OUTPUT_CHANNELS};
use wavmix::naming::stem_span;
use wavmix::normalize::{normalize, normalize_sample, DecodeError};
use wavmix::resample::{complete_resample, plan_resample, resampled_length, ResampleError, ResampleStep};
use wavmix::track::{fit_channel, Track};

const HALF: i64 = UNIT / 2;

fn track(id: &str, left: Vec<i64>, right: Vec<i64>, rate: u32) -> Track {
    Track { id: id.to_string(), left, right, sample_rate: rate }
}

fn mono(id: &str, samples: Vec<i64>, rate: u32) -> Track {
    track(id, samples.clone(), samples, rate)
}

fn config16() -> MixConfig {
    MixConfig { sample_rate: 44100, bit_depth: 16, ceiling: 32767, floor: 32767, average: false }
}

#[test]
fn full_scale_of_common_depths() {
    assert_eq!(full_scale(8), 127);
    assert_eq!(full_scale(16), 32767);
    assert_eq!(full_scale(24), 8388607);
    assert_eq!(full_scale(32), 2147483647);
    assert_eq!(full_scale(2), 1);
}

#[test]
fn division_rounds_toward_zero() {
    assert_eq!(div_toward_zero(7, 2), 3);
    assert_eq!(div_toward_zero(-7, 2), -3);
    assert_eq!(div_toward_zero(0, 5), 0);
}

#[test]
fn sample_normalization_values() {
    assert_eq!(normalize_sample(32767, 32767), UNIT);
    assert_eq!(normalize_sample(16384, 32767), 2147549186);
    assert_eq!(normalize_sample(-16384, 32767), -2147549186);
    assert_eq!(normalize_sample(-32768, 32767), -4295098372);
    assert_eq!(normalize_sample(0, 32767), 0);
    assert_eq!(normalize_sample(100, 127), 3381864012);
}

#[test]
fn mono_upmix_duplicates_channel() {
    let samples = vec![0, 32767, -32768, 16384, -1];
    let t = normalize("kick".to_string(), &samples, 1, 16, 48000).unwrap();
    assert_eq!(t.left.len(), 5);
    assert_eq!(t.left, t.right);
    assert_eq!(t.left, vec![0, UNIT, -4295098372, 2147549186, -131076]);
    assert_eq!(t.id, "kick");
    assert_eq!(t.sample_rate, 48000);
}

#[test]
fn stereo_split_by_parity() {
    let samples = vec![127, -128, 0, 127];
    let t = normalize("pad".to_string(), &samples, 2, 8, 44100).unwrap();
    assert_eq!(t.left, vec![UNIT, 0]);
    assert_eq!(t.right, vec![-4328785936, UNIT]);
}

#[test]
fn many_channels_split_by_parity() {
    let samples = vec![1, 2, 3, 4, 5, 6, 7, 8];
    let t = normalize("quad".to_string(), &samples, 4, 8, 44100).unwrap();
    let n = |v: i32| normalize_sample(v, 127);
    assert_eq!(t.left, vec![n(1), n(3), n(5), n(7)]);
    assert_eq!(t.right, vec![n(2), n(4), n(6), n(8)]);
}

#[test]
fn empty_stream_gives_empty_track() {
    let t = normalize("silent".to_string(), &vec![], 2, 16, 44100).unwrap();
    assert!(t.left.is_empty());
    assert!(t.right.is_empty());
}

#[test]
fn decode_errors() {
    let s = vec![1, 2, 3];
    assert_eq!(normalize("a".to_string(), &s, 0, 16, 44100).unwrap_err(), DecodeError::NoChannels);
    assert_eq!(normalize("a".to_string(), &s, 1, 1, 44100).unwrap_err(), DecodeError::UnsupportedBitDepth);
    assert_eq!(normalize("a".to_string(), &s, 1, 33, 44100).unwrap_err(), DecodeError::UnsupportedBitDepth);
    assert_eq!(normalize("a".to_string(), &s, 2, 16, 44100).unwrap_err(), DecodeError::UnpairedSample);
    let loud = vec![0, 127, 128, -129];
    assert_eq!(
        normalize("a".to_string(), &loud, 1, 8, 44100).unwrap_err(),
        DecodeError::SampleOutOfRange { index: 2 }
    );
    let low = vec![-128, -129];
    assert_eq!(
        normalize("a".to_string(), &low, 2, 8, 44100).unwrap_err(),
        DecodeError::SampleOutOfRange { index: 1 }
    );
}

#[test]
fn resampled_length_rounds_to_nearest() {
    assert_eq!(resampled_length(4, 22050, 44100), Some(8));
    assert_eq!(resampled_length(3, 44100, 22050), Some(2));
    assert_eq!(resampled_length(1000, 48000, 44100), Some(919));
    assert_eq!(resampled_length(0, 48000, 44100), Some(0));
    assert_eq!(resampled_length(usize::MAX, 1, 4), None);
}

#[test]
fn identity_resampling_keeps_track() {
    let left = vec![1, -2, 3, i64::MAX, i64::MIN];
    let right = vec![5, 6, 7, 8, 9];
    let t = track("same", left.clone(), right.clone(), 44100);
    match plan_resample(t, 44100).unwrap() {
        ResampleStep::Unchanged(u) => {
            assert_eq!(u.left, left);
            assert_eq!(u.right, right);
            assert_eq!(u.sample_rate, 44100);
            assert_eq!(u.id, "same");
        }
        ResampleStep::Convert { .. } => panic!("a track at the target rate is not converted"),
    }
}

#[test]
fn identity_resampling_of_empty_track() {
    let t = track("none", vec![], vec![], 44100);
    assert!(matches!(plan_resample(t, 44100), Ok(ResampleStep::Unchanged(_))));
}

#[test]
fn conversion_plan_and_errors() {
    let t = mono("slow", vec![1, 2, 3, 4], 22050);
    match plan_resample(t, 44100).unwrap() {
        ResampleStep::Convert { track, frames } => {
            assert_eq!(frames, 8);
            assert_eq!(track.left, vec![1, 2, 3, 4]);
        }
        ResampleStep::Unchanged(_) => panic!("rates differ"),
    }
    assert_eq!(plan_resample(mono("z", vec![1], 0), 44100).err(), Some(ResampleError::ZeroRate));
    assert_eq!(plan_resample(mono("z", vec![1], 48000), 0).err(), Some(ResampleError::ZeroRate));
    assert_eq!(plan_resample(mono("e", vec![], 48000), 44100).err(), Some(ResampleError::EmptyTrack));
}

#[test]
fn completed_resample_has_planned_length() {
    let t = mono("x", vec![1, 2, 3], 22050);
    let r = complete_resample(t, 44100, 6, vec![10, 20, 30, 40, 50, 60, 70], vec![1, 2, 3, 4]);
    assert_eq!(r.left, vec![10, 20, 30, 40, 50, 60]);
    assert_eq!(r.right, vec![1, 2, 3, 4, 0, 0]);
    assert_eq!(r.sample_rate, 44100);
    assert_eq!(r.id, "x");
}

#[test]
fn fit_channel_cuts_and_extends() {
    let mut a = vec![1, 2, 3];
    fit_channel(&mut a, 5);
    assert_eq!(a, vec![1, 2, 3, 0, 0]);
    fit_channel(&mut a, 2);
    assert_eq!(a, vec![1, 2]);
}

#[test]
fn padding_keeps_samples_and_adds_zeros() {
    let mut t = track("p", vec![7, -7, 9], vec![1], 44100);
    pad_track(&mut t, 6);
    assert_eq!(t.left, vec![7, -7, 9, 0, 0, 0]);
    assert_eq!(t.right, vec![1, 0, 0, 0, 0, 0]);
    assert_eq!(t.id, "p");
}

#[test]
fn alignment_pads_to_longest() {
    let mut ts = vec![
        mono("a", vec![1, 2], 44100),
        track("b", vec![3, 4, 5, 6], vec![3, 4, 5], 44100),
        mono("c", vec![], 44100),
    ];
    assert_eq!(longest_len(&ts), 4);
    let len = align_tracks(&mut ts);
    assert_eq!(len, 4);
    assert_eq!(ts[0].left, vec![1, 2, 0, 0]);
    assert_eq!(ts[1].left, vec![3, 4, 5, 6]);
    assert_eq!(ts[1].right, vec![3, 4, 5, 0]);
    assert_eq!(ts[2].right, vec![0, 0, 0, 0]);
    assert_eq!(ts[2].id, "c");
}

#[test]
fn two_mono_tracks_sum_without_clipping() {
    let tracks = vec![mono("long", vec![HALF, HALF, HALF, HALF], 44100), mono("short", vec![HALF, HALF], 44100)];
    let out = mixdown(tracks, &config16()).unwrap();
    assert_eq!(out, vec![32767, 32767, 32767, 32767, 16383, 16383, 16383, 16383]);
    assert_eq!(out.len(), 4 * OUTPUT_CHANNELS as usize);
}

#[test]
fn loud_sum_is_hard_clipped() {
    let v = UNIT / 10 * 9;
    let tracks = vec![mono("a", vec![v, v, -v], 44100), mono("b", vec![v, 0, -v], 44100)];
    let cfg = MixConfig::standard();
    let out = mixdown(tracks, &cfg).unwrap();
    assert_eq!(out, vec![8388580, 8388580, 7549746, 7549746, -8388580, -8388580]);
}

#[test]
fn output_length_follows_longest_track() {
    let tracks = vec![
        mono("a", vec![1; 3], 44100),
        track("b", vec![1; 7], vec![1; 2], 44100),
        mono("c", vec![1; 5], 44100),
    ];
    let out = mixdown(tracks, &config16()).unwrap();
    assert_eq!(out.len(), 14);
}

#[test]
fn clipping_stays_within_limits() {
    let big = i64::MAX;
    let small = i64::MIN;
    let tracks = vec![
        track("a", vec![big, small, HALF], vec![small, big, -HALF], 44100),
        track("b", vec![big, small, HALF], vec![small, big, -HALF], 44100),
    ];
    let cfg = MixConfig { sample_rate: 44100, bit_depth: 16, ceiling: 32000, floor: 31000, average: false };
    let out = mixdown(tracks, &cfg).unwrap();
    assert_eq!(out, vec![32000, -31000, -31000, 32000, 32000, -31000]);
    assert!(out.iter().all(|&s| (-31000..=32000).contains(&s)));
}

#[test]
fn averaging_divides_by_track_count() {
    let cfg = MixConfig { average: true, ..config16() };
    let tracks = vec![mono("a", vec![UNIT, HALF], 44100), mono("b", vec![UNIT, 0], 44100)];
    let out = mixdown(tracks, &cfg).unwrap();
    assert_eq!(out, vec![32767, 32767, 8191, 8191]);
}

#[test]
fn limiter_values() {
    let cfg = config16();
    assert_eq!(limit_sample(HALF as i128, 1, &cfg), 16383);
    assert_eq!(limit_sample(-(HALF as i128), 1, &cfg), -16383);
    assert_eq!(limit_sample(UNIT as i128 * 3, 1, &cfg), 32767);
    assert_eq!(limit_sample(i128::MIN + 1, 1, &cfg), -32767);
    let std = MixConfig::standard();
    assert_eq!(limit_sample(UNIT as i128, 1, &std), 8388580);
    assert_eq!(limit_sample(HALF as i128, 1, &std), 4194303);
}

#[test]
fn mix_errors() {
    let cfg = config16();
    assert_eq!(mixdown(vec![], &cfg), Err(MixError::NoTracks));
    let bad = MixConfig { ceiling: 40000, ..cfg };
    assert_eq!(mixdown(vec![mono("a", vec![1], 44100)], &bad), Err(MixError::InvalidConfig));
    let bad_depth = MixConfig { bit_depth: 40, ..cfg };
    assert!(!bad_depth.is_valid());
    assert!(cfg.is_valid());
    let tracks = vec![mono("a", vec![1], 44100), mono("b", vec![1], 48000), mono("c", vec![1], 22050)];
    assert_eq!(mixdown(tracks, &cfg), Err(MixError::RateMismatch { index: 1 }));
}

#[test]
fn mono_files_through_the_pipeline() {
    let a = normalize("a".to_string(), &vec![16384, 16384, 16384, 16384], 1, 16, 44100).unwrap();
    let b = normalize("b".to_string(), &vec![16384, 16384], 1, 16, 44100).unwrap();
    let a = match plan_resample(a, 44100).unwrap() {
        ResampleStep::Unchanged(t) => t,
        ResampleStep::Convert { .. } => panic!("same rate"),
    };
    let out = mixdown(vec![a, b], &config16()).unwrap();
    // 16384 / 32767 is held as 2147549186 / 2^32, a little below the exact ratio,
    // so scaling it back to 16 bits truncates to 16383.
    assert_eq!(out, vec![32767, 32767, 32767, 32767, 16383, 16383, 16383, 16383]);
}

#[test]
fn stems_of_paths() {
    let p = b"samples/organ_EM_120.wav";
    let (a, b) = stem_span(p);
    assert_eq!(&p[a..b], b"organ_EM_120");
    let (a, b) = stem_span(b"take.2.wav");
    assert_eq!((a, b), (0, 4));
    let (a, b) = stem_span(b"dir/sub/noext");
    assert_eq!((a, b), (8, 13));
    let (a, b) = stem_span(b"dir/");
    assert_eq!((a, b), (4, 4));
}
