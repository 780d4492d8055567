//! Which calls can be made: everything that is meant to work may be asked for, and what one call leaves
//! behind the next one takes.
use core::ops::{Add, Mul};
use vstd::arithmetic::power2::pow2;
use vstd::prelude::*;

use crate::device::{fill_output, write_frame, Limits};
use crate::engine::{engine, Engine, Trigger};
use crate::frames::{Frame, Frames};
use crate::live;
use crate::queue::Command;
use crate::resample::{interpolate, kernel, weigh, weigh_pair, Interpolator};
use crate::sample::{render_wave, LoadError, Sample};
use crate::tone::{fill_tone, Gain, Tone};
use crate::voices::{mix_span, start_voice, Voice};
use crate::wav::{
    decode, deinterleave, full_scale, levels_from, needs_more, Contents, DecodeError, Refusal,
    WavSpec,
};
#[allow(unused_imports)]
use crate::wav::scale_of;

verus! {

/// Any two levels may be added.
pub open spec fn can_add<T: Add<Output = T>>() -> bool {
    forall|a: T, b: T| #[trigger] call_requires(<T as Add>::add, (a, b))
}

/// Any two levels may be multiplied.
pub open spec fn can_multiply<T: Mul<Output = T>>() -> bool {
    forall|a: T, b: T| #[trigger] call_requires(<T as Mul>::mul, (a, b))
}

/// `from_int` takes every sample that a depth of one to 32 bits can hold, with its full scale.
pub open spec fn takes_samples<T, I: Fn(i32, i64) -> T>(from_int: I) -> bool {
    forall|value: i32, bits: u16|
        1 <= bits <= 32 && -pow2((bits - 1) as nat) <= value < pow2((bits - 1) as nat)
            ==> #[trigger] call_requires(from_int, (value, scale_of(bits)))
}

/// A voice can be started in any pool that has a slot.
pub proof fn a_voice_can_be_started_in_any_pool(pool: &mut Vec<Voice>)
    requires
        old(pool)@.len() >= 1,
    ensures
        call_requires(start_voice, (old(pool),)),
        call_requires(live::start_voice, (old(pool),)),
{
}

/// A pool can be mixed onto any span, as long as no voice is past the end of the sample and none that
/// plays is at the end of one that has frames.
pub proof fn a_pool_can_be_mixed_onto_any_span<T: Copy + Default + Add<Output = T>>(
    pool: &mut Vec<Voice>,
    frames: &Frames<T>,
    out: &mut [Frame<T>],
    from: usize,
    to: usize,
    len: usize,
)
    requires
        call_ensures(Frames::<T>::len, (frames,), len),
        old(pool)@.len() >= 1,
        forall|i: int| 0 <= i < old(pool)@.len() ==> (#[trigger] old(pool)@[i]).pos <= len,
        forall|i: int|
            0 <= i < old(pool)@.len() && (#[trigger] old(pool)@[i]).active && len > 0 ==> old(
                pool
            )@[i].pos < len,
        from <= to <= old(out)@.len(),
        can_add::<T>(),
    ensures
        call_requires(mix_span::<T>, (old(pool), frames, old(out), from, to)),
{
}

/// Every stored frame can be asked for.
pub proof fn every_stored_frame_can_be_read<T: Copy>(frames: &Frames<T>, pos: usize, len: usize)
    requires
        call_ensures(Frames::<T>::len, (frames,), len),
        pos < len,
    ensures
        call_requires(Frames::<T>::frame, (frames, pos)),
{
}

/// Any stream can be read, whatever it holds and however far it could be read.
pub proof fn any_stream_can_be_read<
    T: Copy,
    P,
    E,
    I: Fn(i32, i64) -> T,
    F: Fn(&[u8]) -> Result<Vec<T>, Refusal>,
>(
    contents: Contents,
    path: P,
    opened: Result<Contents, E>,
    live_opened: Result<Contents, hound::Error>,
    low: u32,
    high: u32,
    from_int: I,
    read_floats: F,
    bytes: &[u8],
)
    requires
        takes_samples(from_int),
        forall|bytes: &[u8]| #[trigger] call_requires(read_floats, (bytes,)),
    ensures
        call_requires(Sample::<T>::from_reader::<I, F>, (contents, from_int, read_floats)),
        call_requires(Sample::<T>::load_wav::<P, E, I, F>, (path, opened, from_int, read_floats)),
        call_requires(
            live::Sample::<T>::load_wav::<I, F>,
            (live_opened, from_int, read_floats),
        ),
        call_requires(decode::<T, I, F>, (contents, low, high, from_int, read_floats)),
        call_requires(needs_more::<T, F>, (bytes, low, high, read_floats)),
{
}

/// Any levels can be split over any number of channels from one upwards, made into a sample with any
/// header, and any depth from one to 32 bits has a full scale to set integer samples against.
pub proof fn any_levels_can_be_made_into_a_sample<T: Copy, I: Fn(i32, i64) -> T>(
    spec: WavSpec,
    raw: Vec<T>,
    values: &Vec<i32>,
    bits: u16,
    from_int: I,
)
    ensures
        spec.channels >= 1 ==> call_requires(deinterleave::<T>, (spec.channels, raw)),
        call_requires(Sample::<T>::from_pcm, (spec, raw)),
        1 <= bits <= 32 ==> call_requires(full_scale, (bits,)),
        1 <= bits <= 32 && (forall|i: int|
            0 <= i < values@.len() ==> call_requires(
                from_int,
                (#[trigger] values@[i], pow2((bits - 1) as nat) as i64),
            )) ==> call_requires(levels_from::<T, I>, (values, bits, from_int)),
{
}

/// A blip can be made at any rate, of a wave that has a level for every frame of a quarter of a second.
pub proof fn a_blip_can_be_made_at_any_rate<T: Copy, W: Fn(usize) -> T>(sample_rate: u32, wave: W)
    requires
        forall|i: usize| i < sample_rate / 4 ==> #[trigger] call_requires(wave, (i,)),
    ensures
        call_requires(Sample::<T>::blip::<W>, (sample_rate, wave)),
        call_requires(live::Sample::<T>::blip::<W>, (sample_rate, wave)),
        call_requires(render_wave::<T, W>, (sample_rate, wave)),
{
}

/// The host's functions may be called with anything.
pub open spec fn takes_anything<
    W,
    T,
    R: Fn(usize) -> (isize, isize),
    F: Fn(usize, isize) -> W,
    N: Fn(W) -> T,
    I: Fn(W) -> T,
>(host: Interpolator<T, R, F, N, I>) -> bool {
    &&& forall|i: usize| #[trigger] call_requires(host.reach, (i,))
    &&& forall|i: usize, j: isize| #[trigger] call_requires(host.weight, (i, j))
    &&& forall|w: W| #[trigger] call_requires(host.narrow, (w,))
    &&& forall|w: W| #[trigger] call_requires(host.invert, (w,))
}

/// What can be read can be converted to any rate, and converted again, through windows of any reach.
pub proof fn what_was_read_can_be_converted<
    W: Copy + Default + Add<Output = W>,
    T: Copy + Default + Add<Output = T> + Mul<Output = T>,
    R: Fn(usize) -> (isize, isize),
    F: Fn(usize, isize) -> W,
    N: Fn(W) -> T,
    I: Fn(W) -> T,
    Q: Fn(i32, i64) -> T,
    L: Fn(&[u8]) -> Result<Vec<T>, Refusal>,
>(
    contents: Contents,
    from_int: Q,
    read_floats: L,
    sample: Sample<T>,
    target_rate: u32,
    scaled_len: usize,
    host: &Interpolator<T, R, F, N, I>,
    converted: Sample<T>,
    polyphony: usize,
)
    requires
        call_ensures(
            Sample::<T>::from_reader::<Q, L>,
            (contents, from_int, read_floats),
            Ok(sample),
        ),
        call_ensures(
            Sample::<T>::resample_to::<W, R, F, N, I>,
            (sample, target_rate, scaled_len, host),
            converted,
        ),
        takes_anything::<W, T, R, F, N, I>(*host),
        can_add::<W>(),
        can_add::<T>(),
        can_multiply::<T>(),
    ensures
        call_requires(
            Sample::<T>::resample_to::<W, R, F, N, I>,
            (sample, target_rate, scaled_len, host),
        ),
        call_requires(
            Sample::<T>::resample_to::<W, R, F, N, I>,
            (converted, target_rate, scaled_len, host),
        ),
        call_requires(engine::<T>, (sample, polyphony)),
        call_requires(engine::<T>, (converted, polyphony)),
{
}

/// However a sample was made, an engine takes it.
pub proof fn any_sample_can_be_played<
    T: Copy,
    P,
    E,
    I: Fn(i32, i64) -> T,
    F: Fn(&[u8]) -> Result<Vec<T>, Refusal>,
    W: Fn(usize) -> T,
>(
    spec: WavSpec,
    raw: Vec<T>,
    path: P,
    opened: Result<Contents, E>,
    from_int: I,
    read_floats: F,
    sample_rate: u32,
    wave: W,
    sample: Sample<T>,
    polyphony: usize,
)
    requires
        ({
            ||| call_ensures(Sample::<T>::from_pcm, (spec, raw), Ok::<Sample<T>, DecodeError>(sample))
            ||| call_ensures(
                Sample::<T>::load_wav::<P, E, I, F>,
                (path, opened, from_int, read_floats),
                Ok::<Sample<T>, LoadError<P, E>>(sample),
            )
            ||| call_ensures(Sample::<T>::blip::<W>, (sample_rate, wave), sample)
        }),
    ensures
        call_requires(engine::<T>, (sample, polyphony)),
{
}

/// A source of any length can be read through windows of any reach.
pub proof fn any_source_can_be_interpolated<
    W: Copy + Default + Add<Output = W>,
    T: Copy + Default + Add<Output = T> + Mul<Output = T>,
    R: Fn(usize) -> (isize, isize),
    F: Fn(usize, isize) -> W,
    N: Fn(W) -> T,
    I: Fn(W) -> T,
>(
    frames: &Frames<T>,
    count: usize,
    i: usize,
    first: isize,
    last: isize,
    host: &Interpolator<T, R, F, N, I>,
    start: T,
    mono: &Vec<T>,
    stereo: &Vec<Frame<T>>,
    window: &Vec<(isize, T)>,
)
    requires
        takes_anything::<W, T, R, F, N, I>(*host),
        can_add::<W>(),
        can_add::<T>(),
        can_multiply::<T>(),
    ensures
        call_requires(interpolate::<W, T, R, F, N, I>, (frames, count, host)),
        call_requires(kernel::<W, T, R, F, N, I>, (i, first, last, host)),
        call_requires(weigh::<T>, (start, mono, window)),
        call_requires(weigh_pair::<T>, (stereo, window)),
{
}

/// A frame can be written to a device with any number of channels.
pub proof fn a_frame_can_be_written_to_any_device<
    S: Copy + Default + PartialOrd + Add<Output = S> + Mul<Output = S>,
    D,
    C: Fn(S) -> D,
>(out: &mut [D], frame: Frame<S>, limits: &Limits<S>, convert: &C)
    requires
        can_add::<S>(),
        can_multiply::<S>(),
        forall|s: S| #[trigger] call_requires(*convert, (s,)),
    ensures
        call_requires(write_frame::<S, D, C>, (old(out), frame, limits, convert)),
{
}

/// A tone gives samples as long as they can be counted, onto a device with any number of channels from
/// one upwards.
pub proof fn a_tone_can_go_on<
    P: Copy,
    S,
    D: Copy,
    V: Fn(P, Gain) -> S,
    A: Fn(P) -> P,
    C: Fn(S) -> D,
>(tone: &mut Tone<P>, output: &mut [D], channels: u16, voice: &V, advance: &A, convert: &C)
    requires
        forall|phase: P, gain: Gain| #[trigger] call_requires(*voice, (phase, gain)),
        forall|phase: P| #[trigger] call_requires(*advance, (phase,)),
        forall|level: S| #[trigger] call_requires(*convert, (level,)),
    ensures
        old(tone).played < u64::MAX ==> call_requires(
            Tone::<P>::next_sample::<S, V, A>,
            (old(tone), voice, advance),
        ),
        channels >= 1 && old(tone).played + (old(output)@.len() + channels - 1) as nat
            / channels as nat <= u64::MAX ==> call_requires(
            fill_tone::<P, S, D, V, A, C>,
            (old(tone), old(output), channels, voice, advance, convert),
        ),
{
}

/// A new engine can process a block of any length, be asked for a callback of any length, and be handed
/// any command; and anything can be fired through its handle.
pub proof fn a_new_engine_can_play<
    S: Copy + Default + PartialOrd + Add<Output = S> + Mul<Output = S>,
    D,
    C: Fn(S) -> D,
>(
    sample: Sample<S>,
    polyphony: usize,
    pair: (Engine<S>, Trigger),
    playing: &mut Engine<S>,
    trigger: &mut Trigger,
    out: &mut [Frame<S>],
    command: Command,
    frame: u64,
    scratch: &mut [Frame<S>],
    output: &mut [D],
    channels: u16,
    limits: &Limits<S>,
    convert: &C,
)
    requires
        call_ensures(engine::<S>, (sample, polyphony), pair),
        *old(playing) == pair.0,
        *old(trigger) == pair.1,
        old(out)@.len() <= usize::MAX,
        old(scratch)@.len() == 2048,
        old(output)@.len() / channels as nat <= u64::MAX,
        channels >= 1,
        can_add::<S>(),
        can_multiply::<S>(),
        forall|s: S| #[trigger] call_requires(*convert, (s,)),
    ensures
        call_requires(Engine::<S>::process, (old(playing), old(out))),
        call_requires(Engine::<S>::render_block, (old(playing), old(out))),
        call_requires(Engine::<S>::schedule, (old(playing), command)),
        call_requires(
            fill_output::<S, D, C>,
            (old(playing), old(scratch), old(output), channels, limits, convert),
        ),
        call_requires(Trigger::fire, (old(trigger),)),
        call_requires(Trigger::fire_at, (old(trigger), frame)),
{
}

/// What an engine can do, it can do again after any call, as long as its frames can be counted.
pub proof fn an_engine_can_go_on_playing<
    S: Copy + Default + PartialOrd + Add<Output = S> + Mul<Output = S>,
    D,
    C: Fn(S) -> D,
>(
    engine: &mut Engine<S>,
    first: &mut [Frame<S>],
    command: Command,
    scratch: &mut [Frame<S>],
    output: &mut [D],
    channels: u16,
    limits: &Limits<S>,
    convert: &C,
    next: &mut Engine<S>,
    out: &mut [Frame<S>],
    now: u64,
)
    requires
        ({
            ||| call_ensures(Engine::<S>::process, (engine, first), ())
            ||| call_ensures(Engine::<S>::render_block, (engine, first), ())
            ||| call_ensures(Engine::<S>::schedule, (engine, command), ())
            ||| call_ensures(
                fill_output::<S, D, C>,
                (engine, scratch, output, channels, limits, convert),
                (),
            )
        }),
        *old(next) == *final(engine),
        call_ensures(Engine::<S>::frame, (&*old(next),), now),
        now + old(out)@.len() <= u64::MAX,
        can_add::<S>(),
    ensures
        call_requires(Engine::<S>::process, (old(next), old(out))),
        call_requires(Engine::<S>::render_block, (old(next), old(out))),
        call_requires(Engine::<S>::schedule, (old(next), command)),
{
}

/// And a handle can fire again after firing.
pub proof fn a_handle_can_go_on_firing(
    trigger: &mut Trigger,
    frame: u64,
    accepted: bool,
    next: &mut Trigger,
)
    requires
        call_ensures(Trigger::fire, (trigger,), accepted) || call_ensures(
            Trigger::fire_at,
            (trigger, frame),
            accepted,
        ),
        *old(next) == *final(trigger),
    ensures
        call_requires(Trigger::fire, (old(next),)),
        call_requires(Trigger::fire_at, (old(next), frame)),
{
}

/// The engine without a timeline takes any sample, and goes on pumping and rendering; and its handle goes
/// on firing.
pub proof fn a_live_engine_can_play<T: Copy + Default + Add<Output = T>>(
    sample: live::Sample<T>,
    polyphony: usize,
    pair: (live::Engine<T>, live::Trigger),
    playing: &mut live::Engine<T>,
    trigger: &mut live::Trigger,
    next: &mut live::Engine<T>,
    next_trigger: &mut live::Trigger,
    out: &mut [Frame<T>],
)
    requires
        ({
            ||| call_ensures(live::engine::<T>, (sample, polyphony), pair) && *old(next) == pair.0
            ||| call_ensures(live::Engine::<T>::pump, (playing,), ()) && *old(next) == *final(playing)
            ||| call_ensures(live::Engine::<T>::render, (playing, out), ()) && *old(next) == *final(
                playing
            )
        }),
        ({
            ||| call_ensures(live::engine::<T>, (sample, polyphony), pair) && *old(next_trigger)
                == pair.1
            ||| call_ensures(live::Trigger::fire, (trigger,), ()) && *old(next_trigger) == *final(
                trigger
            )
        }),
        can_add::<T>(),
    ensures
        call_requires(live::engine::<T>, (sample, polyphony)),
        call_requires(live::Engine::<T>::pump, (old(next),)),
        call_requires(live::Engine::<T>::render, (old(next), old(out))),
        call_requires(live::Trigger::fire, (old(next_trigger),)),
{
}

} // verus!
