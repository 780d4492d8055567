use beat_forge::engine::{engine, new_pool, COMMAND_CAPACITY};
use beat_forge::queue::Command;
use beat_forge::sample::Sample;
use beat_forge::timeline::PENDING_CAPACITY;
use beat_forge::voices::{mix_span, start_voice, Voice};
use beat_forge::wav::{SampleFormat, WavSpec};
use beat_forge::Frames;

fn pcm(channels: u16, raw: Vec<f32>) -> Sample<f32> {
    let spec = WavSpec {
        channels,
        sample_rate: 48_000,
        bits_per_sample: 32,
        sample_format: SampleFormat::Float,
    };
    match Sample::from_pcm(spec, raw) {
        Ok(sample) => sample,
        Err(err) => panic!("{err:?}"),
    }
}

fn mono(raw: Vec<f32>) -> Sample<f32> {
    pcm(1, raw)
}

#[test]
fn engine_mono_lands_equally_in_both_channels() {
    let (mut eng, mut trig) = engine(mono(vec![1.0, 0.5]), 4);
    assert!(trig.fire());

    // Pre-filled with 9.0: the third frame is past the end of the sample, so it also checks that
    // render overwrites instead of leaving stale data.
    let mut out = [[9.0; 2]; 3];
    eng.process(&mut out);
    assert_eq!(out, [[1.0, 1.0], [0.5, 0.5], [0.0, 0.0]]);
}

#[test]
fn engine_stereo_keeps_channels_apart() {
    let (mut eng, mut trig) = engine(pcm(2, vec![1.0, -1.0]), 4);
    assert!(trig.fire());

    let mut out = [[0.0; 2]; 1];
    eng.process(&mut out);
    assert_eq!(out, [[1.0, -1.0]]);
}

#[test]
fn playback_is_continuous_across_blocks() {
    let (mut eng, mut trig) = engine(mono(vec![1.0, 2.0, 3.0, 4.0]), 4);
    assert!(trig.fire());

    let mut out = [[0.0; 2]; 4];
    eng.process(&mut out[..1]);
    eng.process(&mut out[1..]);
    assert_eq!(out, [[1.0, 1.0], [2.0, 2.0], [3.0, 3.0], [4.0, 4.0]]);
}

#[test]
fn engine_overlapping_voices_sum() {
    let (mut eng, mut trig) = engine(mono(vec![1.0, 1.0]), 4);
    assert!(trig.fire());

    let mut out = [[0.0; 2]; 1];
    eng.process(&mut out);

    // Second voice starts while the first is still playing.
    assert!(trig.fire());
    eng.process(&mut out);
    assert_eq!(out, [[2.0, 2.0]]);
}

#[test]
fn engine_exhausted_pool_steals_instead_of_dropping() {
    const POLYPHONY: usize = 2;
    let (mut eng, mut trig) = engine(mono(vec![1.0; 8]), POLYPHONY);
    for _ in 0..=POLYPHONY {
        assert!(trig.fire());
    }

    // The third trigger steals rather than being dropped: two voices sound, not three.
    let mut out = [[0.0; 2]; 1];
    eng.process(&mut out);
    assert_eq!(out, [[POLYPHONY as f32, POLYPHONY as f32]]);
}

#[test]
fn stealing_takes_the_oldest_voice_not_a_fixed_slot() {
    // Built so that the oldest voice is *not* slot 0, so that stealing a fixed slot would not
    // pass.
    let (mut eng, mut trig) = engine(mono(vec![1.0; 10]), 2);

    assert!(trig.fire()); // -> slot 0
    eng.process(&mut [[0.0; 2]; 3]);
    assert!(trig.fire()); // -> slot 1
    eng.process(&mut [[0.0; 2]; 8]); // slot 0 runs out and frees up here
    assert!(trig.fire()); // -> slot 0 again, now the *fresh* one
    eng.process(&mut [[0.0; 2]; 1]);

    assert_eq!(eng.voices()[0].pos, 1, "just started");
    assert_eq!(eng.voices()[1].pos, 9, "nearly finished");

    // Pool is full: the near-finished voice must go, not the one that just started.
    assert!(trig.fire());
    eng.process(&mut [[0.0; 2]; 1]);
    assert_eq!(eng.voices()[0].pos, 2, "kept playing");
    assert_eq!(eng.voices()[1].pos, 1, "stolen and restarted");
}

#[test]
fn engine_empty_sample_does_not_panic() {
    let (mut eng, mut trig) = engine(mono(Vec::new()), 2);
    assert!(trig.fire());

    let mut out = [[0.0; 2]; 2];
    eng.process(&mut out);
    assert_eq!(out, [[0.0, 0.0]; 2]);
}

#[test]
fn frame_counter_advances_by_block_length() {
    let (mut eng, _trig) = engine(mono(vec![1.0]), 2);
    assert_eq!(eng.frame(), 0);
    eng.process(&mut [[0.0; 2]; 3]);
    eng.process(&mut [[0.0; 2]; 5]);
    assert_eq!(eng.frame(), 8);
}

#[test]
fn scheduled_trigger_starts_on_its_exact_frame() {
    // The whole point of splitting the block: not quantized to frame 0.
    let (mut eng, mut trig) = engine(mono(vec![1.0; 2]), 4);
    assert!(trig.fire_at(2));

    let mut out = [[0.0; 2]; 5];
    eng.process(&mut out);
    assert_eq!(
        out,
        [[0.0, 0.0], [0.0, 0.0], [1.0, 1.0], [1.0, 1.0], [0.0, 0.0]]
    );
}

#[test]
fn scheduled_trigger_waits_for_a_later_block() {
    let (mut eng, mut trig) = engine(mono(vec![1.0; 2]), 4);
    assert!(trig.fire_at(5));

    let mut first = [[0.0; 2]; 3];
    eng.process(&mut first);
    assert_eq!(first, [[0.0, 0.0]; 3], "must stay silent until frame 5");

    // Second block covers frames 3..7, so the event lands on its index 2.
    let mut second = [[0.0; 2]; 4];
    eng.process(&mut second);
    assert_eq!(second, [[0.0, 0.0], [0.0, 0.0], [1.0, 1.0], [1.0, 1.0]]);
}

#[test]
fn several_events_in_one_block_each_land_separately() {
    let (mut eng, mut trig) = engine(mono(vec![1.0]), 4);
    assert!(trig.fire_at(1));
    assert!(trig.fire_at(3));

    let mut out = [[0.0; 2]; 5];
    eng.process(&mut out);
    assert_eq!(
        out,
        [[0.0, 0.0], [1.0, 1.0], [0.0, 0.0], [1.0, 1.0], [0.0, 0.0]]
    );
}

#[test]
fn schedule_in_the_past_plays_now_rather_than_never() {
    let (mut eng, mut trig) = engine(mono(vec![1.0]), 4);
    eng.process(&mut [[0.0; 2]; 10]);

    assert!(trig.fire_at(4)); // already gone
    let mut out = [[0.0; 2]; 2];
    eng.process(&mut out);
    assert_eq!(out, [[1.0, 1.0], [0.0, 0.0]]);
}

#[test]
fn full_queue_reports_the_drop() {
    let (_eng, mut trig) = engine(mono(vec![1.0]), 4);
    for _ in 0..COMMAND_CAPACITY {
        assert!(trig.fire());
    }
    assert!(
        !trig.fire(),
        "queue is full — the caller must be able to see it"
    );
}

#[test]
fn free_slots_count_down_and_come_back() {
    let (mut eng, mut trig) = engine(mono(vec![1.0]), 4);
    assert_eq!(trig.free_slots(), COMMAND_CAPACITY);
    assert!(trig.fire());
    assert!(trig.fire_at(9));
    assert_eq!(trig.free_slots(), COMMAND_CAPACITY - 2);
    eng.process(&mut [[0.0; 2]; 1]);
    assert_eq!(trig.free_slots(), COMMAND_CAPACITY);
}

#[test]
fn a_full_queue_leaves_what_was_sent_alone() {
    let (mut eng, mut trig) = engine(mono(vec![1.0]), 1);
    for at in 0..COMMAND_CAPACITY as u64 {
        assert!(trig.fire_at(2 * at));
    }
    assert!(!trig.fire_at(1));
    let mut out = [[0.0; 2]; 4];
    eng.process(&mut out);
    assert_eq!(out, [[1.0, 1.0], [0.0, 0.0], [1.0, 1.0], [0.0, 0.0]]);
}

#[test]
fn pending_events_past_the_capacity_are_dropped() {
    let (mut eng, mut trig) = engine(mono(vec![1.0]), 1);
    for _ in 0..PENDING_CAPACITY {
        assert!(trig.fire_at(1_000));
    }
    eng.process(&mut [[0.0; 2]; 1]);
    assert_eq!(eng.summary().pending, PENDING_CAPACITY);
    assert!(trig.fire_at(2));
    let mut out = [[0.0; 2]; 3];
    eng.process(&mut out);
    assert_eq!(out, [[0.0, 0.0]; 3]);
    assert_eq!(eng.summary().pending, PENDING_CAPACITY);
}

#[test]
fn cutting_a_stream_into_blocks_changes_nothing() {
    let events = [0u64, 3, 3, 4, 9, 13];
    let whole = {
        let (mut eng, mut trig) = engine(mono(vec![1.0, 2.0, 4.0, 8.0, 16.0]), 3);
        for at in events {
            assert!(trig.fire_at(at));
        }
        let mut out = [[0.0; 2]; 20];
        eng.process(&mut out);
        out
    };
    for cut in 0..=20 {
        let (mut eng, mut trig) = engine(mono(vec![1.0, 2.0, 4.0, 8.0, 16.0]), 3);
        for at in events {
            assert!(trig.fire_at(at));
        }
        let mut out = [[0.0; 2]; 20];
        // Everything is scheduled before the first block, which may be empty.
        let (first, second) = out.split_at_mut(cut);
        eng.process(first);
        eng.process(second);
        assert_eq!(out, whole, "cut at {cut}");
    }
}

#[test]
fn a_block_is_the_sum_of_its_notes() {
    let data = [1.0, 10.0, 100.0, 1000.0];
    // At most three under way at a time, and asked for out of order.
    let starts = [7u64, 0, 2, 2, 9, 6];
    let (mut eng, mut trig) = engine(pcm(2, data.iter().flat_map(|&x| [x, -2.0 * x]).collect()), 3);
    for at in starts {
        assert!(trig.fire_at(at));
    }
    let mut out = [[5.0f32; 2]; 16];
    eng.process(&mut out);
    for (i, frame) in out.iter().enumerate() {
        let sum: f32 = starts
            .iter()
            .filter(|&&at| at as usize <= i && i < at as usize + data.len())
            .map(|&at| data[i - at as usize])
            .sum();
        assert_eq!(*frame, [sum, -2.0 * sum], "frame {i}");
    }
}

#[test]
fn a_late_fire_at_plays_like_fire() {
    for at in [0, 3, 5] {
        let (mut late, mut late_trig) = engine(mono(vec![1.0, 2.0]), 4);
        let (mut live, mut live_trig) = engine(mono(vec![1.0, 2.0]), 4);
        late.process(&mut [[0.0; 2]; 5]);
        live.process(&mut [[0.0; 2]; 5]);
        assert!(late_trig.fire_at(at));
        assert!(live_trig.fire());
        let mut a = [[0.0; 2]; 3];
        let mut b = [[9.0; 2]; 3];
        late.process(&mut a);
        live.process(&mut b);
        assert_eq!(a, b);
        assert_eq!(late.summary(), live.summary());
    }
}

#[test]
fn a_refused_trigger_leaves_no_trace() {
    let (mut eng, mut trig) = engine(mono(vec![1.0]), 100);
    for _ in 0..COMMAND_CAPACITY {
        assert!(trig.fire());
    }
    assert!(!trig.fire());
    assert!(!trig.fire_at(1));
    let mut out = [[0.0; 2]; 2];
    // Even an empty block empties the queue.
    eng.process(&mut out[..0]);
    assert!(trig.fire_at(1));
    eng.process(&mut out);
    // The pending events were full, so that the last one found no room.
    assert_eq!(out, [[COMMAND_CAPACITY as f32; 2], [0.0; 2]]);
}

#[test]
fn events_on_the_same_frame_each_start_a_voice() {
    let (mut eng, mut trig) = engine(mono(vec![1.0, 2.0]), 4);
    for _ in 0..3 {
        assert!(trig.fire_at(1));
    }
    let mut out = [[0.0; 2]; 3];
    eng.process(&mut out);
    assert_eq!(out, [[0.0, 0.0], [3.0, 3.0], [6.0, 6.0]]);
}

#[test]
fn an_event_at_the_block_end_belongs_to_the_next_block() {
    let (mut eng, mut trig) = engine(mono(vec![1.0]), 4);
    assert!(trig.fire_at(2));
    let mut out = [[9.0; 2]; 2];
    eng.process(&mut out);
    assert_eq!(out, [[0.0, 0.0]; 2]);
    assert_eq!(eng.summary().pending, 1);
    eng.process(&mut out);
    assert_eq!(out, [[1.0, 1.0], [0.0, 0.0]]);
    assert_eq!(eng.summary().pending, 0);
}

#[test]
fn a_pool_has_at_least_one_voice() {
    let (mut eng, mut trig) = engine(mono(vec![1.0]), 0);
    assert_eq!(eng.summary().polyphony, 1);
    assert!(trig.fire());
    let mut out = [[0.0; 2]; 1];
    eng.process(&mut out);
    assert_eq!(out, [[1.0, 1.0]]);
    assert_eq!(new_pool(3).len(), 3);
}

#[test]
fn the_summary_counts_what_is_going_on() {
    let (mut eng, mut trig) = engine(mono(vec![1.0; 4]), 3);
    assert!(trig.fire());
    assert!(trig.fire());
    assert!(trig.fire_at(7));
    eng.process(&mut [[0.0; 2]; 2]);
    let summary = eng.summary();
    assert_eq!(summary.frame, 2);
    assert_eq!(summary.active_voices, 2);
    assert_eq!(summary.polyphony, 3);
    assert_eq!(summary.pending, 1);
    assert_eq!(eng.sample_ref().frames().len(), 4);
}

#[test]
fn scheduling_on_the_engine_itself_is_seen_at_once() {
    let (mut eng, _trig) = engine(mono(vec![1.0]), 2);
    eng.schedule(Command::TriggerAt(1));
    eng.schedule(Command::Trigger);
    let mut out = [[0.0; 2]; 3];
    eng.render_block(&mut out);
    assert_eq!(out, [[1.0, 1.0], [1.0, 1.0], [0.0, 0.0]]);
}

#[test]
fn a_voice_plays_the_sample_through_and_is_released() {
    let (mut eng, mut trig) = engine(mono(vec![1.0, 2.0, 3.0]), 1);
    assert!(trig.fire());
    for k in 1..=3usize {
        eng.process(&mut [[0.0; 2]; 1]);
        assert_eq!(eng.voices()[0], Voice { pos: k, active: k < 3 });
    }
}

#[test]
fn the_highest_of_level_voices_is_stolen() {
    let mut pool = vec![
        Voice { pos: 4, active: true },
        Voice { pos: 7, active: true },
        Voice { pos: 7, active: true },
    ];
    start_voice(&mut pool);
    assert_eq!(pool[0], Voice { pos: 4, active: true });
    assert_eq!(pool[1], Voice { pos: 7, active: true });
    assert_eq!(pool[2], Voice { pos: 0, active: true });
}

#[test]
fn the_lowest_free_slot_is_taken_first() {
    let mut pool = vec![
        Voice { pos: 4, active: true },
        Voice { pos: 9, active: false },
        Voice { pos: 0, active: false },
    ];
    start_voice(&mut pool);
    assert_eq!(pool[1], Voice { pos: 0, active: true });
    assert_eq!(pool[2], Voice { pos: 0, active: false });
}

#[test]
fn a_span_is_mixed_where_it_was_asked_for() {
    let mut pool = vec![Voice { pos: 1, active: true }];
    let mut out = [[9.0f32; 2]; 5];
    mix_span(&mut pool, &Frames::Mono(vec![1.0, 2.0, 3.0]), &mut out, 1, 4);
    assert_eq!(out, [[9.0, 9.0], [2.0, 2.0], [3.0, 3.0], [0.0, 0.0], [9.0, 9.0]]);
    assert_eq!(pool[0], Voice { pos: 3, active: false });
}
