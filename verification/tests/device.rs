use beat_forge::device::{clamp, fill_output, write_frame, Limits, SCRATCH_FRAMES};
use beat_forge::engine::engine;
use beat_forge::sample::Sample;
use beat_forge::stream::{
    fault_code, report_stream_error, request, stream_message, Fault, Request, ERR_DEVICE_CHANGED,
    ERR_DEVICE_LOST, ERR_NONE, ERR_OTHER, ERR_STREAM_INVALIDATED, ERR_XRUN,
};
use beat_forge::tone::{fill_tone, gain_at, Gain, Tone};
use beat_forge::wav::{SampleFormat, WavSpec};
use std::sync::atomic::{AtomicU32, Ordering};

const LIMITS: Limits<f32> = Limits {
    low: -1.0,
    high: 1.0,
    fold: 0.5,
};

fn write(out: &mut [f32], frame: [f32; 2]) {
    write_frame(out, frame, &LIMITS, &|s: f32| s);
}

#[test]
fn stereo_device_gets_the_pair_untouched() {
    let mut out = [0.0f32; 2];
    write(&mut out, [0.25, -0.5]);
    assert_eq!(out, [0.25, -0.5], "must be transparent inside the range");
}

#[test]
fn overs_are_clamped_per_channel() {
    let mut out = [0.0f32; 2];
    write(&mut out, [3.0, -7.0]);
    assert_eq!(out, [1.0, -1.0]);
}

#[test]
fn mono_device_gets_a_fold_down() {
    let mut out = [0.0f32; 1];
    write(&mut out, [1.0, 0.0]);
    assert_eq!(out, [0.5]);
}

#[test]
fn mono_fold_down_cannot_escape_the_range() {
    // Clamping happens per channel first, so the fold-down averages what a stereo device would
    // actually have heard rather than the raw sum.
    let mut out = [0.0f32; 1];
    write(&mut out, [4.0, 2.0]);
    assert_eq!(out, [1.0]);
}

#[test]
fn channels_past_the_first_pair_stay_silent() {
    let mut out = [9.0f32; 4];
    write(&mut out, [0.5, -0.5]);
    assert_eq!(out, [0.5, -0.5, 0.0, 0.0]);
}

#[test]
fn zero_channels_is_a_no_op() {
    let mut out: [f32; 0] = [];
    write(&mut out, [1.0, 1.0]);
}

#[test]
fn integer_output_reaches_full_scale_without_wrapping() {
    // Pins down the integer path, which the clamp alone does not change: an `as` cast already
    // saturates.
    let mut out = [0i16; 2];
    write_frame(&mut out, [5.0, -5.0], &LIMITS, &|s: f32| (s * 32768.0) as i16);
    assert_eq!(out, [i16::MAX, i16::MIN]);
}

#[test]
fn what_compares_as_nothing_stays() {
    assert!(clamp(f32::NAN, -1.0, 1.0).is_nan());
    assert_eq!(clamp(-2, -1, 1), -1);
    assert_eq!(clamp(2, -1, 1), 1);
    assert_eq!(clamp(0, -1, 1), 0);
}

fn ramp(len: usize) -> Sample<f32> {
    let spec = WavSpec {
        channels: 1,
        sample_rate: 48_000,
        bits_per_sample: 32,
        sample_format: SampleFormat::Float,
    };
    match Sample::from_pcm(spec, (0..len).map(|i| i as f32).collect()) {
        Ok(sample) => sample,
        Err(err) => panic!("{err:?}"),
    }
}

#[test]
fn a_long_callback_takes_several_passes() {
    let frames = 2 * SCRATCH_FRAMES + 5;
    let (mut eng, mut trig) = engine(ramp(frames), 2);
    assert!(trig.fire());
    let mut scratch = vec![[0.0f32; 2]; SCRATCH_FRAMES];
    let mut output = vec![-1i32; 3 * frames];
    let limits = Limits { low: -1.0, high: 1e9, fold: 0.5 };
    fill_output(&mut eng, &mut scratch, &mut output, 3, &limits, &|s: f32| s as i32);
    for i in 0..frames {
        assert_eq!(output[3 * i..3 * i + 3], [i as i32, i as i32, 0], "frame {i}");
    }
    assert_eq!(eng.frame(), frames as u64);
}

#[test]
fn samples_past_the_last_whole_frame_are_left_alone() {
    let (mut eng, mut trig) = engine(ramp(8), 2);
    assert!(trig.fire());
    let mut scratch = vec![[0.0f32; 2]; SCRATCH_FRAMES];
    let mut output = [7.0f32; 5];
    let limits = Limits { low: -9.0, high: 9.0, fold: 0.5 };
    fill_output(&mut eng, &mut scratch, &mut output, 2, &limits, &|s: f32| s);
    assert_eq!(output, [0.0, 0.0, 1.0, 1.0, 7.0]);
    assert_eq!(eng.frame(), 2);
    fill_output(&mut eng, &mut scratch, &mut output[..0], 2, &limits, &|s: f32| s);
    assert_eq!(eng.frame(), 2);
}

#[test]
fn every_fault_has_a_code_and_a_message() {
    let cases = [
        (Fault::DeviceNotAvailable, ERR_DEVICE_LOST, "output device went away — audio has stopped"),
        (Fault::HostUnavailable, ERR_DEVICE_LOST, "output device went away — audio has stopped"),
        (
            Fault::StreamInvalidated,
            ERR_STREAM_INVALIDATED,
            "stream config is no longer valid — restart to recover",
        ),
        (
            Fault::DeviceChanged,
            ERR_DEVICE_CHANGED,
            "audio route changed; the stream was rerouted and kept playing",
        ),
        (Fault::Xrun, ERR_XRUN, "buffer under/overrun — audio glitched"),
        (Fault::Other, ERR_OTHER, "the audio stream failed"),
    ];
    for (fault, code, message) in cases {
        assert_eq!(fault_code(fault), code);
        assert_eq!(stream_message(code), Some(message));
    }
    assert_eq!(stream_message(ERR_NONE), None);
    assert_eq!(stream_message(77), Some("the audio stream failed"));
}

#[test]
fn a_fault_is_reported_once() {
    let errors = AtomicU32::new(ERR_NONE);
    assert_eq!(report_stream_error(&errors), None);
    errors.store(fault_code(Fault::Xrun), Ordering::Relaxed);
    errors.store(fault_code(Fault::DeviceChanged), Ordering::Relaxed);
    assert_eq!(
        report_stream_error(&errors),
        Some("audio route changed; the stream was rerouted and kept playing")
    );
    assert_eq!(errors.load(Ordering::Relaxed), ERR_NONE);
    assert_eq!(report_stream_error(&errors), None);
}

#[test]
fn only_two_words_quit() {
    assert_eq!(request(b"q"), Request::Quit);
    assert_eq!(request(b"quit"), Request::Quit);
    for line in ["", "Q", "qu", "quits", "exit", "qqqq"] {
        assert_eq!(request(line.as_bytes()), Request::Fire, "{line}");
    }
}

#[test]
fn the_envelope_ramps_up_and_down() {
    assert_eq!(gain_at(0, 100, 10), Gain::Ratio { num: 0, den: 10 });
    assert_eq!(gain_at(9, 100, 10), Gain::Ratio { num: 9, den: 10 });
    assert_eq!(gain_at(10, 100, 10), Gain::Full);
    assert_eq!(gain_at(89, 100, 10), Gain::Full);
    assert_eq!(gain_at(90, 100, 10), Gain::Ratio { num: 10, den: 10 });
    assert_eq!(gain_at(99, 100, 10), Gain::Ratio { num: 1, den: 10 });
    assert_eq!(gain_at(100, 100, 10), Gain::Silence);
    assert_eq!(gain_at(u64::MAX, 100, 10), Gain::Silence);
    assert_eq!(gain_at(5, 3, 10), Gain::Ratio { num: 5, den: 10 });
    assert_eq!(gain_at(10, 3, 10), Gain::Silence);
}

#[test]
fn a_tone_goes_into_every_channel_of_a_frame() {
    let mut tone = Tone { phase: 1u32, played: 0, total: 4, fade: 1 };
    let voice = |phase: u32, gain: Gain| match gain {
        Gain::Silence => 0,
        Gain::Ratio { num, .. } => phase * num as u32,
        Gain::Full => phase,
    };
    let advance = |phase: u32| phase * 10;
    let mut output = [9i64; 5];
    fill_tone(&mut tone, &mut output, 2, &voice, &advance, &|level: u32| i64::from(level));
    // The last frame is cut short and still takes a sample of its own.
    assert_eq!(output, [0, 0, 10, 10, 100]);
    assert_eq!((tone.phase, tone.played), (1_000, 3));
    fill_tone(&mut tone, &mut output[..4], 2, &voice, &advance, &|level: u32| i64::from(level));
    assert_eq!(output, [1_000, 1_000, 0, 0, 100]);
    assert_eq!(tone.next_sample(&voice, &advance), 0);
    assert_eq!(tone.played, 6);
}
