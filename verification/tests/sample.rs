use beat_forge::level::at;
use beat_forge::resample::{interpolate, kernel, weigh, weigh_pair, Interpolator};
use beat_forge::sample::{LoadError, Sample};
use beat_forge::wav::{
    check_header, deinterleave, full_scale, levels_from, needs_more, reason_for, Contents,
    DecodeError, Refusal, SampleFormat, WavSpec, MAX_SAMPLE_RATE, MIN_SAMPLE_RATE,
};
use beat_forge::{Frame, Frames};
use hound::WavWriter;
use std::f64::consts::PI;
use std::io::Cursor;

/// Encode a WAV in memory. Everything below decodes bytes rather than files, so the loader's
/// untrusted-input paths can be exercised without touching the filesystem.
fn wav(
    spec: hound::WavSpec,
    write: impl FnOnce(&mut WavWriter<&mut Cursor<Vec<u8>>>),
) -> Vec<u8> {
    let mut cursor = Cursor::new(Vec::new());
    let mut writer = WavWriter::new(&mut cursor, spec).expect("spec is writable");
    write(&mut writer);
    writer.finalize().expect("finalize");
    cursor.into_inner()
}

fn int_wav(channels: u16, rate: u32, bits: u16, samples: &[i32]) -> Vec<u8> {
    let spec = hound::WavSpec {
        channels,
        sample_rate: rate,
        bits_per_sample: bits,
        sample_format: hound::SampleFormat::Int,
    };
    wav(spec, |w| {
        for &s in samples {
            w.write_sample(s).expect("write");
        }
    })
}

fn float_wav(channels: u16, rate: u32, samples: &[f32]) -> Vec<u8> {
    let spec = hound::WavSpec {
        channels,
        sample_rate: rate,
        bits_per_sample: 32,
        sample_format: hound::SampleFormat::Float,
    };
    wav(spec, |w| {
        for &s in samples {
            w.write_sample(s).expect("write");
        }
    })
}

fn from_int(v: i32, scale: i64) -> f32 {
    v as f32 / scale as f32
}

fn read_floats(bytes: &[u8]) -> Result<Vec<f32>, Refusal> {
    hound::WavReader::new(bytes)
        .and_then(|mut reader| reader.samples::<f32>().collect())
        .map_err(|err| match err {
            hound::Error::IoError(_) => Refusal::Short(err),
            _ => Refusal::Rejected(err),
        })
}

/// A stream that was read to its end.
fn whole(bytes: Vec<u8>) -> Contents {
    Contents { bytes, failure: None }
}

/// A stream that could not be read past `bytes`.
fn broken(bytes: Vec<u8>) -> Contents {
    Contents {
        bytes,
        failure: Some(hound::Error::FormatError("read failed")),
    }
}

fn decode(bytes: Vec<u8>) -> Result<Sample<f32>, DecodeError> {
    Sample::from_reader(whole(bytes), from_int, read_floats)
}

/// The sample a decode is expected to give.
fn decoded(bytes: Vec<u8>) -> Sample<f32> {
    match decode(bytes) {
        Ok(sample) => sample,
        Err(err) => panic!("valid file: {err:?}"),
    }
}

/// The error a decode is expected to fail with.
fn decode_err(bytes: Vec<u8>, why: &str) -> DecodeError {
    match decode(bytes) {
        Ok(_) => panic!("{why}"),
        Err(err) => err,
    }
}

fn stereo_data(s: &Sample<f32>) -> &[Frame<f32>] {
    match s.frames() {
        Frames::Stereo(d) => d,
        Frames::Mono(_) => panic!("expected stereo"),
    }
}

fn mono_data(s: &Sample<f32>) -> &[f32] {
    match s.frames() {
        Frames::Mono(d) => d,
        Frames::Stereo(_) => panic!("expected mono"),
    }
}

fn float_spec(channels: u16, rate: u32) -> WavSpec {
    WavSpec {
        channels,
        sample_rate: rate,
        bits_per_sample: 32,
        sample_format: SampleFormat::Float,
    }
}

fn pcm(channels: u16, raw: Vec<f32>, rate: u32) -> Sample<f32> {
    match Sample::from_pcm(float_spec(channels, rate), raw) {
        Ok(sample) => sample,
        Err(err) => panic!("{err:?}"),
    }
}

fn mono(data: Vec<f32>, rate: u32) -> Sample<f32> {
    pcm(1, data, rate)
}

fn blackman(t: f64) -> f64 {
    0.42 + 0.5 * (PI * t).cos() + 0.08 * (2.0 * PI * t).cos()
}

fn sinc(x: f64) -> f64 {
    if x == 0.0 {
        return 1.0;
    }
    let pi_x = PI * x;
    pi_x.sin() / pi_x
}

/// Convert with a Blackman-windowed sinc, 16 frames to either side at unity ratio.
fn resample(sample: Sample<f32>, target_rate: u32) -> Sample<f32> {
    let rate = sample.sample_rate();
    let ratio = f64::from(target_rate) / f64::from(rate);
    let scaled_len = ((sample.frames().len() as f64) * ratio).round() as usize;
    let cutoff = ratio.min(1.0);
    let half = 16.0 / cutoff;
    let step = f64::from(rate) / f64::from(target_rate);
    let host = Interpolator {
        empty: std::iter::empty::<f32>().sum(),
        reach: |i: usize| {
            let pos = i as f64 * step;
            ((pos - half).ceil() as isize, (pos + half).floor() as isize)
        },
        weight: |i: usize, j: isize| {
            let x = i as f64 * step - j as f64;
            blackman(x / half) * sinc(cutoff * x)
        },
        narrow: |weight: f64| weight as f32,
        invert: |sum: f64| (1.0 / sum) as f32,
    };
    sample.resample_to(target_rate, scaled_len, &host)
}

#[test]
fn sixteen_bit_mono_reaches_full_scale_without_exceeding_it() {
    let s = decoded(int_wav(
        1,
        44_100,
        16,
        &[i32::from(i16::MAX), 0, i32::from(i16::MIN)],
    ));
    let d = mono_data(&s);
    assert!((d[0] - 1.0).abs() < 1e-4, "peak positive: {}", d[0]);
    assert_eq!(d[1], 0.0);
    assert_eq!(d[2], -1.0, "the negative rail is exactly -1.0");
    assert_eq!(s.sample_rate(), 44_100);
    assert_eq!(s.source_channels(), 1);
}

#[test]
fn eight_bit_arrives_signed() {
    // WAV stores 8-bit PCM *unsigned* with a 128 bias; hound removes it. If that ever stopped
    // being true, silence would decode as full-scale positive.
    let s = decoded(int_wav(1, 22_050, 8, &[127, 0, -128]));
    let d = mono_data(&s);
    assert!(d[0] > 0.99, "peak positive: {}", d[0]);
    assert_eq!(d[1], 0.0, "silence must stay silence, not +1.0");
    assert_eq!(d[2], -1.0);
}

#[test]
fn twenty_four_bit_uses_the_full_depth() {
    // Guards the scale: a wrong shift here still "works" but quietly loads everything 256x too
    // loud or too quiet.
    let s = decoded(int_wav(1, 48_000, 24, &[8_388_607, 0, -8_388_608]));
    let d = mono_data(&s);
    assert!((d[0] - 1.0).abs() < 1e-6, "peak positive: {}", d[0]);
    assert_eq!(d[2], -1.0);
}

#[test]
fn float_samples_pass_through_untouched() {
    let s = decoded(float_wav(1, 48_000, &[0.25, -0.5, 0.0]));
    assert_eq!(mono_data(&s), [0.25, -0.5, 0.0]);
}

#[test]
fn stereo_is_deinterleaved_not_flattened() {
    let s = decoded(float_wav(2, 48_000, &[1.0, -1.0, 0.5, -0.5]));
    assert_eq!(stereo_data(&s), [[1.0, -1.0], [0.5, -0.5]]);
    assert_eq!(s.source_channels(), 2);
}

#[test]
fn extra_channels_are_truncated_to_the_first_pair() {
    let s = decoded(float_wav(4, 48_000, &[0.1, 0.2, 0.3, 0.4]));
    assert_eq!(
        stereo_data(&s),
        [[0.1, 0.2]],
        "surround channels are dropped"
    );
    assert_eq!(
        s.source_channels(),
        4,
        "the original count survives so the host can warn"
    );
}

#[test]
fn a_sample_rate_below_the_range_is_rejected() {
    // Not a taste call: converting scales length by `target / sample_rate`, so a 1 Hz header
    // turns a 39 KB file into a request for 192 GB.
    let err = decode_err(int_wav(1, 1, 16, &[0; 8]), "a 1 Hz header must not load");
    assert!(matches!(err, DecodeError::SampleRate(1)), "got {err:?}");
}

#[test]
fn a_sample_rate_above_the_range_is_rejected() {
    // The other end costs CPU rather than memory: the kernel widens as 1/ratio.
    let err = decode_err(int_wav(1, 4_000_000, 16, &[0; 8]), "4 MHz must not load");
    assert!(
        matches!(err, DecodeError::SampleRate(4_000_000)),
        "got {err:?}"
    );
}

#[test]
fn the_bounds_themselves_still_load() {
    // The range has to stay wide enough for real material: vintage lo-fi at the bottom, exotic
    // high-rate gear at the top. Pins the edges against a careless tightening.
    for rate in [1_000, 5_512, 8_363, 44_100, 48_000, 192_000, 768_000] {
        assert!(
            decode(int_wav(1, rate, 16, &[0; 8])).is_ok(),
            "{rate} Hz is legitimate material and must load"
        );
    }
}

#[test]
fn garbage_is_an_error_rather_than_a_panic() {
    let err = decode_err(b"NOTAWAVFILEATALL".to_vec(), "garbage must not load");
    assert!(matches!(err, DecodeError::Unreadable(_)), "got {err:?}");
}

#[test]
fn a_truncated_file_is_an_error_rather_than_a_panic() {
    let mut bytes = int_wav(1, 44_100, 16, &[100, 200, 300]);
    bytes.truncate(bytes.len() - 3);
    let err = decode_err(bytes, "a truncated file must not load");
    assert!(matches!(err, DecodeError::Unreadable(_)), "got {err:?}");
}

/// A tone at `freq`, `len` frames long, sampled at `rate`.
fn tone(freq: f64, rate: u32, len: usize) -> Vec<f32> {
    (0..len)
        .map(|i| {
            let t = i as f64 / f64::from(rate);
            (t * freq * std::f64::consts::TAU).sin() as f32
        })
        .collect()
}

#[test]
fn matching_rate_is_left_alone() {
    let out = resample(mono(vec![0.1, -0.2, 0.3], 48_000), 48_000);
    assert_eq!(mono_data(&out), [0.1, -0.2, 0.3], "must not touch the data");
}

#[test]
fn length_scales_with_the_ratio_and_the_source_rate_is_remembered() {
    let out = resample(mono(vec![0.0; 100], 44_100), 48_000);
    assert_eq!(mono_data(&out).len(), 109); // 100 * 48000 / 44100
    assert_eq!(out.sample_rate(), 48_000);
    assert_eq!(
        out.source_sample_rate(),
        44_100,
        "the host reports the conversion from this"
    );
}

#[test]
fn a_constant_stays_constant() {
    // Catches an unnormalized kernel: the weights must sum to exactly 1 at every fractional
    // phase, not just on whole samples.
    let out = resample(mono(vec![1.0; 200], 44_100), 48_000);
    for (i, &s) in mono_data(&out).iter().enumerate().take(170).skip(40) {
        assert!((s - 1.0).abs() < 1e-4, "frame {i} drifted to {s}");
    }
}

#[test]
fn a_tone_keeps_its_frequency_and_amplitude() {
    let out = resample(mono(tone(1_000.0, 44_100, 4_410), 44_100), 48_000);
    let expected = tone(1_000.0, 48_000, 4_800);
    // Interior only: the kernel runs off the ends, where a one-shot is silence anyway.
    for (i, (&got, &want)) in mono_data(&out)
        .iter()
        .zip(expected.iter())
        .enumerate()
        .take(4_000)
        .skip(800)
    {
        assert!((got - want).abs() < 0.01, "frame {i}: {got} vs {want}");
    }
}

#[test]
fn downsampling_rejects_content_above_the_new_nyquist() {
    // The reason for a windowed sinc rather than linear interpolation: 18 kHz cannot be
    // represented at 24 kHz, and without a filter it would fold back to 6 kHz at full level
    // instead of disappearing.
    let out = resample(mono(tone(18_000.0, 96_000, 9_600), 96_000), 24_000);
    let peak = mono_data(&out)[600..1_800]
        .iter()
        .fold(0.0f32, |m, s| m.max(s.abs()));
    assert!(peak < 0.05, "aliased back into the audible band at {peak}");
}

#[test]
fn stereo_channels_stay_independent() {
    let raw: Vec<f32> = (0..400).map(|i| if i % 2 == 0 { 1.0 } else { -0.5 }).collect();
    let out = resample(pcm(2, raw, 44_100), 48_000);
    let Frames::Stereo(data) = out.frames() else {
        panic!("stereo must stay stereo");
    };
    for (i, f) in data.iter().enumerate().take(170).skip(40) {
        assert!((f[0] - 1.0).abs() < 1e-4, "frame {i} left: {}", f[0]);
        assert!((f[1] + 0.5).abs() < 1e-4, "frame {i} right: {}", f[1]);
    }
}

#[test]
fn a_stereo_conversion_is_two_mono_ones() {
    let left = tone(1_000.0, 44_100, 150);
    let right = tone(3_000.0, 44_100, 150);
    let raw: Vec<f32> = left.iter().zip(&right).flat_map(|(&l, &r)| [l, r]).collect();
    for rate in [22_050, 44_100, 48_000] {
        let both = resample(pcm(2, raw.clone(), 44_100), rate);
        let a = resample(mono(left.clone(), 44_100), rate);
        let b = resample(mono(right.clone(), 44_100), rate);
        assert_eq!(both.frames().len(), a.frames().len());
        assert_eq!(both.frames().len(), b.frames().len());
        for (i, frame) in stereo_data(&both).iter().enumerate() {
            assert_eq!(*frame, [mono_data(&a)[i], mono_data(&b)[i]], "frame {i}");
        }
    }
}

#[test]
fn loading_a_file_is_reading_what_it_holds() {
    for bytes in [
        int_wav(2, 44_100, 16, &[16_384, -16_384]),
        float_wav(1, 48_000, &[0.25, -0.5]),
        int_wav(1, 7, 16, &[1]),
        b"NOTAWAVFILEATALL".to_vec(),
        b"RIFF".to_vec(),
    ] {
        let read = decode(bytes.clone());
        let opened: Result<Contents, &str> = Ok(whole(bytes));
        let loaded = Sample::<f32>::load_wav("kick.wav", opened, from_int, read_floats);
        match (read, loaded) {
            (Ok(a), Ok(b)) => {
                assert_eq!(a.frames().len(), b.frames().len());
                for i in 0..a.frames().len() {
                    assert_eq!(a.frames().frame(i), b.frames().frame(i));
                }
                assert_eq!(a.sample_rate(), b.sample_rate());
                assert_eq!(a.source_channels(), b.source_channels());
            }
            (Err(a), Err(LoadError::Decode { path: "kick.wav", source: b })) => {
                assert_eq!(format!("{a:?}"), format!("{b:?}"));
            }
            _ => panic!("one loads and the other does not"),
        }
    }
}

#[test]
fn an_empty_sample_still_arrives_at_the_target_rate() {
    let out = resample(mono(Vec::new(), 44_100), 48_000);
    assert!(out.frames().is_empty());
    assert_eq!(out.sample_rate(), 48_000);
}

#[test]
fn converting_to_a_rate_a_second_time_changes_nothing() {
    let once = resample(mono(tone(1_000.0, 44_100, 100), 44_100), 48_000);
    let data = mono_data(&once).to_vec();
    let twice = resample(once, 48_000);
    assert_eq!(mono_data(&twice), data);
}

#[test]
fn a_target_of_no_rate_changes_nothing() {
    let host = Interpolator {
        empty: std::iter::empty::<f32>().sum(),
        reach: |_: usize| (0isize, 0isize),
        weight: |_: usize, _: isize| 1.0f64,
        narrow: |weight: f64| weight as f32,
        invert: |sum: f64| sum as f32,
    };
    let out = mono(vec![0.5, 0.25], 44_100).resample_to(0, 0, &host);
    assert_eq!(mono_data(&out), [0.5, 0.25]);
    assert_eq!(out.sample_rate(), 44_100);
}

#[test]
fn at_least_one_frame_comes_out_of_a_conversion() {
    let host = Interpolator {
        empty: std::iter::empty::<f32>().sum(),
        reach: |i: usize| (i as isize, i as isize + 1),
        weight: |_: usize, j: isize| (j + 1) as f64,
        narrow: |weight: f64| weight as f32,
        invert: |sum: f64| (1.0 / sum) as f32,
    };
    let out = mono(vec![3.0, 0.75], 44_100).resample_to(1_000, 0, &host);
    assert!((mono_data(&out)[0] - 1.5).abs() < 1e-6);
    assert_eq!(out.frames().len(), 1);
    assert_eq!(out.sample_rate(), 1_000);
    assert_eq!(out.source_sample_rate(), 44_100);
}

#[test]
fn reading_outside_the_source_is_silent() {
    assert_eq!(at(&[0.5f32, 0.25], 1), 0.25);
    assert_eq!(at(&[0.5f32, 0.25], 2), 0.0);
    assert_eq!(at(&[0.5f32, 0.25], -1), 0.0);
}

#[test]
fn a_window_weighs_what_it_covers() {
    let window = vec![(-1isize, 4.0f32), (0, 2.0), (1, 0.5), (7, 3.0)];
    assert_eq!(weigh(0.0, &vec![1.0, 8.0], &window), 6.0);
    assert_eq!(weigh_pair(&vec![[1.0, 2.0], [8.0, 4.0]], &window), [6.0, 6.0]);
    let host = Interpolator {
        empty: std::iter::empty::<f32>().sum(),
        reach: |i: usize| (i as isize, i as isize),
        weight: |i: usize, j: isize| (1 + i as i64) + j as i64,
        narrow: |weight: i64| weight as f32,
        invert: |_: i64| 10.0f32,
    };
    let Frames::Mono(data) = interpolate(&Frames::Mono(vec![1.0f32, 2.0]), 3, &host) else {
        panic!("expected mono");
    };
    assert_eq!(data, [10.0, 60.0, 0.0]);
    let stereo = Frames::Stereo(vec![[1.0f32, -1.0], [2.0, 0.5]]);
    let Frames::Stereo(data) = interpolate(&stereo, 2, &host) else {
        panic!("expected stereo");
    };
    assert_eq!(data, [[10.0, -10.0], [60.0, 15.0]]);
}

#[test]
fn a_mono_sum_starts_from_the_empty_one() {
    // Every term is a negative zero: from the empty sum of floats it stays one, from silence not.
    let window = vec![(0isize, -1.0f32), (1, -0.5), (9, -2.0)];
    let empty: f32 = std::iter::empty::<f32>().sum();
    let terms = [-1.0f32 * 0.0, -0.5 * 0.0, -2.0 * 0.0];
    let sum: f32 = terms.iter().sum();
    let got = weigh(empty, &vec![0.0, 0.0], &window);
    assert_eq!(got.is_sign_negative(), sum.is_sign_negative());
    assert!(weigh(-0.0, &vec![0.0, 0.0], &window).is_sign_negative());
    let pair = weigh_pair(&vec![[0.0, 0.0]], &window);
    assert!(pair[0].is_sign_positive() && pair[1].is_sign_positive());
    assert_eq!(weigh(7.0, &vec![1.0], &Vec::new()), 7.0);
}

#[test]
fn a_kernel_is_normalized_by_its_own_sum() {
    let host = Interpolator {
        empty: 0.0f32,
        reach: (),
        weight: |i: usize, j: isize| (j + i as isize) as f64,
        narrow: |weight: f64| weight as f32,
        invert: |sum: f64| (1.0 / sum) as f32,
    };
    let window = kernel(2, -1, 2, &host);
    assert_eq!(window.len(), 4);
    assert_eq!(window[0], (-1, 0.1));
    assert_eq!(window[3].0, 2);
    assert!((window.iter().map(|tap| tap.1).sum::<f32>() - 1.0).abs() < 1e-6);
    assert!(kernel(2, 3, 2, &host).is_empty());
}

#[test]
fn a_header_is_faulted_for_the_first_thing_wrong() {
    let ok = WavSpec {
        channels: 2,
        sample_rate: 44_100,
        bits_per_sample: 16,
        sample_format: SampleFormat::Int,
    };
    let check = |spec: WavSpec| check_header(&spec, MIN_SAMPLE_RATE, MAX_SAMPLE_RATE);
    assert!(check(ok).is_ok());
    assert!(matches!(
        check(WavSpec { channels: 0, bits_per_sample: 0, sample_rate: 0, ..ok }),
        Err(DecodeError::NoChannels)
    ));
    assert!(matches!(
        check(WavSpec { bits_per_sample: 0, sample_rate: 0, ..ok }),
        Err(DecodeError::BitDepth(0))
    ));
    assert!(matches!(
        check(WavSpec { bits_per_sample: 33, ..ok }),
        Err(DecodeError::BitDepth(33))
    ));
    assert!(check(WavSpec { bits_per_sample: 1, ..ok }).is_ok());
    assert!(check(WavSpec { bits_per_sample: 32, ..ok }).is_ok());
    assert!(matches!(
        check(WavSpec { sample_rate: 999, ..ok }),
        Err(DecodeError::SampleRate(999))
    ));
    assert!(matches!(
        check(WavSpec { sample_rate: 768_001, ..ok }),
        Err(DecodeError::SampleRate(768_001))
    ));
    assert!(matches!(
        Sample::from_pcm(WavSpec { channels: 0, ..ok }, vec![1.0f32]),
        Err(DecodeError::NoChannels)
    ));
}

#[test]
fn a_trailing_partial_frame_is_dropped() {
    let Frames::Stereo(data) = deinterleave(3, vec![1, 2, 3, 4, 5, 6, 7, 8]) else {
        panic!("expected stereo");
    };
    assert_eq!(data, [[1, 2], [4, 5]]);
    let Frames::Mono(data) = deinterleave(1, vec![1, 2, 3]) else {
        panic!("expected mono");
    };
    assert_eq!(data, [1, 2, 3]);
}

#[test]
fn integer_samples_become_levels_one_for_one() {
    assert_eq!(
        levels_from(&vec![64, 0, -128], 8, from_int),
        [0.5, 0.0, -1.0]
    );
}

#[test]
fn frames_say_their_layout_and_length() {
    let mono = Frames::Mono(vec![1.0f32, 0.5]);
    let stereo = Frames::Stereo(vec![[1.0f32, 0.5]]);
    assert_eq!((mono.layout(), mono.len(), mono.is_empty()), ("Mono", 2, false));
    assert_eq!((stereo.layout(), stereo.len()), ("Stereo", 1));
    assert_eq!(mono.frame(1), [0.5, 0.5]);
    assert_eq!(stereo.frame(0), [1.0, 0.5]);
    assert!(Frames::<f32>::Mono(Vec::new()).is_empty());
}

#[test]
fn a_file_that_does_not_open_carries_its_path() {
    let r = Sample::<f32>::load_wav("kick.wav", Err("gone"), from_int, read_floats);
    assert!(matches!(
        r,
        Err(LoadError::Open { path: "kick.wav", source: "gone" })
    ));
}

#[test]
fn a_file_that_does_not_decode_carries_its_path() {
    let garbage: Result<Contents, &str> = Ok(whole(b"NOTAWAVFILEATALL".to_vec()));
    assert!(matches!(
        Sample::<f32>::load_wav("kick.wav", garbage, from_int, read_floats),
        Err(LoadError::Decode { path: "kick.wav", source: DecodeError::Unreadable(_) })
    ));
    let slow: Result<Contents, &str> = Ok(whole(int_wav(1, 7, 16, &[1])));
    assert!(matches!(
        Sample::<f32>::load_wav("kick.wav", slow, from_int, read_floats),
        Err(LoadError::Decode { path: "kick.wav", source: DecodeError::SampleRate(7) })
    ));
    let nothing: Result<Contents, &str> = Ok(broken(Vec::new()));
    let Err(LoadError::Decode { path: "kick.wav", source: DecodeError::Unreadable(cause) }) =
        Sample::<f32>::load_wav("kick.wav", nothing, from_int, read_floats)
    else {
        panic!("must not load");
    };
    assert!(matches!(cause.into_inner(), hound::Error::FormatError("read failed")));
}

#[test]
fn a_file_that_opens_and_decodes_is_loaded() {
    let bytes: Result<Contents, &str> = Ok(whole(int_wav(2, 44_100, 16, &[16_384, -16_384])));
    let Ok(s) = Sample::<f32>::load_wav("kick.wav", bytes, from_int, read_floats) else {
        panic!("must load");
    };
    assert_eq!(stereo_data(&s), [[0.5, -0.5]]);
    assert_eq!((s.sample_rate(), s.source_sample_rate(), s.source_channels()), (44_100, 44_100, 2));
}

#[test]
fn floats_that_cannot_be_read_are_unreadable() {
    let bytes = float_wav(1, 48_000, &[0.25]);
    let r = Sample::<f32>::from_reader(whole(bytes), from_int, |_: &[u8]| {
        Err(Refusal::Rejected(hound::Error::TooWide))
    });
    let Err(DecodeError::Unreadable(cause)) = r else {
        panic!("must not load");
    };
    assert!(matches!(cause.into_inner(), hound::Error::TooWide));
}

/// The text of the reason a stream was found unreadable.
fn unreadable(contents: Contents) -> String {
    match Sample::<f32>::from_reader(contents, from_int, read_floats) {
        Err(DecodeError::Unreadable(cause)) => cause.into_inner().to_string(),
        Err(err) => panic!("{err:?}"),
        Ok(_) => panic!("must not load"),
    }
}

#[test]
fn a_failure_past_what_is_needed_does_not_matter() {
    let bytes = int_wav(1, 44_100, 16, &[16_384, -16_384]);
    let Ok(s) = Sample::<f32>::from_reader(broken(bytes), from_int, read_floats) else {
        panic!("the data is complete");
    };
    assert_eq!(mono_data(&s), [0.5, -0.5]);
    let floats = float_wav(1, 44_100, &[0.25]);
    assert!(Sample::<f32>::from_reader(broken(floats), from_int, read_floats).is_ok());
    // The header alone: its rate is looked at before any sample is.
    let mut slow = int_wav(1, 7, 16, &[1, 2, 3]);
    slow.truncate(44);
    assert!(matches!(
        Sample::<f32>::from_reader(broken(slow), from_int, read_floats),
        Err(DecodeError::SampleRate(7))
    ));
}

#[test]
fn a_failure_that_is_reached_is_the_cause() {
    let failed = "Ill-formed WAVE file: read failed";
    let short = "Failed to read enough bytes.";
    let whole_file = int_wav(1, 44_100, 16, &[1, 2, 3]);
    let floats = float_wav(1, 44_100, &[0.25, 0.5]);
    for len in [0, 20, 44, 46] {
        assert_eq!(unreadable(broken(whole_file[..len].to_vec())), failed);
        assert_eq!(unreadable(whole(whole_file[..len].to_vec())), short);
    }
    assert_eq!(unreadable(broken(floats[..floats.len() - 1].to_vec())), failed);
    assert_eq!(unreadable(whole(floats[..floats.len() - 1].to_vec())), short);
    // Refused for what it holds, not for what is missing.
    assert_eq!(
        unreadable(broken(b"NOTAWAVFILEATALL".to_vec())),
        "Ill-formed WAVE file: no RIFF tag found"
    );
    assert!(matches!(
        reason_for(Refusal::Rejected(hound::Error::TooWide), Some(hound::Error::Unsupported)),
        hound::Error::TooWide
    ));
}

#[test]
fn a_stream_is_asked_for_no_more_than_it_takes() {
    let more = |bytes: &[u8]| needs_more(bytes, MIN_SAMPLE_RATE, MAX_SAMPLE_RATE, read_floats);
    let ints = int_wav(1, 44_100, 16, &[1, 2, 3]);
    let floats = float_wav(2, 44_100, &[0.25, 0.5]);
    for bytes in [&ints, &floats] {
        for len in 0..bytes.len() {
            assert!(more(&bytes[..len]), "{len}");
        }
        assert!(!more(bytes));
        let mut longer = bytes.clone();
        longer.extend([7; 100]);
        assert!(!more(&longer));
    }
    // An outcome already: not a WAV, or one that will not load.
    assert!(!more(b"NOTA"));
    assert!(!more(&int_wav(1, 7, 16, &[1, 2, 3])[..44]));
}

#[test]
fn full_scale_is_a_power_of_two() {
    assert_eq!(full_scale(1), 1);
    assert_eq!(full_scale(8), 128);
    assert_eq!(full_scale(16), 32_768);
    assert_eq!(full_scale(24), 8_388_608);
    assert_eq!(full_scale(32), 2_147_483_648);
}

#[test]
fn a_blip_lasts_a_quarter_of_a_second() {
    let s = Sample::blip(9, |i: usize| i as f32);
    assert_eq!(mono_data(&s), [0.0, 1.0]);
    assert_eq!((s.sample_rate(), s.source_sample_rate(), s.source_channels()), (9, 9, 1));
}
