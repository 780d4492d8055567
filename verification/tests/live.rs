use beat_forge::live::{engine, start_voice, Sample, COMMAND_CAPACITY};
use beat_forge::voices::Voice;
use beat_forge::wav::{Contents, DecodeError, Refusal};
use beat_forge::Frames;
use std::io::Cursor;

fn sample(frames: Frames<f32>) -> Sample<f32> {
    let source_channels = match &frames {
        Frames::Mono(_) => 1,
        Frames::Stereo(_) => 2,
    };
    Sample {
        frames,
        sample_rate: 48_000,
        source_channels,
    }
}

#[test]
fn lib_mono_lands_equally_in_both_channels() {
    let (mut eng, mut trig) = engine(sample(Frames::Mono(vec![1.0, 0.5])), 4);
    trig.fire();
    eng.pump();

    // Pre-filled with 9.0: the third frame is past the end of the sample, so it also checks that
    // render overwrites instead of leaving stale data.
    let mut out = [[9.0; 2]; 3];
    eng.render(&mut out);
    assert_eq!(out, [[1.0, 1.0], [0.5, 0.5], [0.0, 0.0]]);
}

#[test]
fn lib_stereo_keeps_channels_apart() {
    let (mut eng, mut trig) = engine(sample(Frames::Stereo(vec![[1.0, -1.0]])), 4);
    trig.fire();
    eng.pump();

    let mut out = [[0.0; 2]; 1];
    eng.render(&mut out);
    assert_eq!(out, [[1.0, -1.0]]);
}

#[test]
fn sub_slice_rendering_is_continuous() {
    let (mut eng, mut trig) = engine(sample(Frames::Mono(vec![1.0, 2.0, 3.0, 4.0])), 4);
    trig.fire();
    eng.pump();

    let mut out = [[0.0; 2]; 4];
    eng.render(&mut out[..1]);
    eng.render(&mut out[1..]);
    assert_eq!(out, [[1.0, 1.0], [2.0, 2.0], [3.0, 3.0], [4.0, 4.0]]);
}

#[test]
fn lib_overlapping_voices_sum() {
    let (mut eng, mut trig) = engine(sample(Frames::Mono(vec![1.0, 1.0])), 4);
    trig.fire();
    eng.pump();

    let mut out = [[0.0; 2]; 1];
    eng.render(&mut out);

    // Second voice starts while the first is still playing.
    trig.fire();
    eng.pump();
    eng.render(&mut out);
    assert_eq!(out, [[2.0, 2.0]]);
}

#[test]
fn lib_exhausted_pool_steals_instead_of_dropping() {
    const POLYPHONY: usize = 2;
    let (mut eng, mut trig) = engine(sample(Frames::Mono(vec![1.0; 8])), POLYPHONY);
    for _ in 0..POLYPHONY + 1 {
        trig.fire();
    }
    eng.pump();

    // The third trigger steals rather than being dropped: two voices sound, not three.
    let mut out = [[0.0; 2]; 1];
    eng.render(&mut out);
    assert_eq!(out, [[POLYPHONY as f32, POLYPHONY as f32]]);
}

#[test]
fn lib_empty_sample_does_not_panic() {
    let (mut eng, mut trig) = engine(sample(Frames::Mono(Vec::new())), 2);
    trig.fire();
    eng.pump();

    let mut out = [[0.0; 2]; 2];
    eng.render(&mut out);
    assert_eq!(out, [[0.0, 0.0]; 2]);
}

#[test]
fn a_full_live_pool_restarts_its_first_slot() {
    let mut pool = vec![Voice { pos: 1, active: true }, Voice { pos: 5, active: true }];
    start_voice(&mut pool);
    assert_eq!(pool[0], Voice { pos: 0, active: true });
    assert_eq!(pool[1], Voice { pos: 5, active: true });
}

#[test]
fn triggers_past_a_full_live_queue_are_dropped() {
    let (mut eng, mut trig) = engine(sample(Frames::Mono(vec![1.0; 2])), 100);
    for _ in 0..COMMAND_CAPACITY + 5 {
        trig.fire();
    }
    eng.pump();
    let mut out = [[0.0; 2]; 1];
    eng.render(&mut out);
    assert_eq!(out, [[COMMAND_CAPACITY as f32; 2]]);
}

#[test]
fn pumping_empties_the_queue() {
    let (mut eng, mut trig) = engine(sample(Frames::Mono(vec![1.0; 2])), 100);
    for _ in 0..5 {
        trig.fire();
    }
    eng.pump();
    // Nothing is left in the queue, so that all of it can be filled again.
    for _ in 0..COMMAND_CAPACITY {
        trig.fire();
    }
    eng.pump();
    eng.pump();
    let mut out = [[0.0; 2]; 1];
    eng.render(&mut out);
    assert_eq!(out, [[(COMMAND_CAPACITY + 5) as f32; 2]]);
}

#[test]
fn a_live_engine_knows_the_rate_of_its_sample() {
    let (eng, _trig) = engine(sample(Frames::Mono(vec![1.0])), 1);
    assert_eq!(eng.sample_rate(), 48_000);
}

fn load(opened: Result<Vec<u8>, hound::Error>) -> Result<Sample<f32>, DecodeError> {
    Sample::load_wav(
        opened.map(|bytes| Contents { bytes, failure: None }),
        |v: i32, scale: i64| v as f32 / scale as f32,
        |b: &[u8]| {
            hound::WavReader::new(b)
                .and_then(|mut reader| reader.samples::<f32>().collect())
                .map_err(Refusal::Rejected)
        },
    )
}

fn sixteen_bit(channels: u16, rate: u32, samples: &[i16]) -> Vec<u8> {
    let spec = hound::WavSpec {
        channels,
        sample_rate: rate,
        bits_per_sample: 16,
        sample_format: hound::SampleFormat::Int,
    };
    let mut cursor = Cursor::new(Vec::new());
    let mut writer = hound::WavWriter::new(&mut cursor, spec).expect("spec is writable");
    for &s in samples {
        writer.write_sample(s).expect("write");
    }
    writer.finalize().expect("finalize");
    cursor.into_inner()
}

#[test]
fn a_live_sample_loads_at_any_rate_but_zero() {
    let Ok(s) = load(Ok(sixteen_bit(3, 1, &[16_384, -16_384, 7, 0, -32_768, 7]))) else {
        panic!("a rate of 1 Hz is no fault here");
    };
    let Frames::Stereo(data) = &s.frames else {
        panic!("expected stereo");
    };
    assert_eq!(data[..], [[0.5, -0.5], [0.0, -1.0]]);
    assert_eq!(s.sample_rate, 1);
    assert_eq!(s.source_channels, 3);
    let mut stopped = sixteen_bit(1, 1, &[1]);
    // The header's sample rate and the byte rate that goes with it.
    stopped[24..32].fill(0);
    assert!(matches!(load(Ok(stopped)), Err(DecodeError::SampleRate(0))));
}

#[test]
fn a_live_file_that_cannot_be_read_is_unreadable() {
    let refused = Err(hound::Error::FormatError("no such file"));
    let Err(DecodeError::Unreadable(cause)) = load(refused) else {
        panic!("must not load");
    };
    assert!(matches!(
        cause.into_inner(),
        hound::Error::FormatError("no such file")
    ));
}

#[test]
fn a_live_blip_lasts_a_quarter_of_a_second() {
    let s = Sample::blip(8, |i: usize| i as f32);
    let Frames::Mono(data) = &s.frames else {
        panic!("expected mono");
    };
    assert_eq!(data[..], [0.0, 1.0]);
    assert_eq!(s.sample_rate, 8);
    assert_eq!(s.source_channels, 1);
}
