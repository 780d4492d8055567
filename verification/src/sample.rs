//! A decoded audio sample, and the ways to get one.
//!
//! Nothing here runs under real-time constraints: loading happens on the control thread and is
//! free to allocate and to fail. The engine only ever reads what this module produced.
//!
//! Levels are the host's numbers, so what only the host's arithmetic can do is handed in:
//! turning an integer sample into a level, reading a file of levels, and weighing frames for
//! interpolation.
use core::ops::{Add, Mul};
use vstd::prelude::*;

use crate::frames::Frames;
#[allow(unused_imports)]
use crate::level::{add_is_total, mul_is_total};
use crate::resample::{interpolate, Interpolator};
#[allow(unused_imports)]
use crate::resample::{can_interpolate, is_interpolated};
use crate::wav::{
    check_header, decode, deinterleave, Contents, DecodeError, Refusal, WavSpec, MAX_SAMPLE_RATE,
    MIN_SAMPLE_RATE,
};
#[allow(unused_imports)]
use crate::wav::{header_fault, header_ok, is_decoding, is_deinterleaved, takes_every_depth};

verus! {

/// What can go wrong loading a sample from a path.
///
/// Both variants carry the path: by the time this reaches a user, *which* file failed is the
/// first thing they need. The host says what a path is and why it could not be opened.
#[allow(inconsistent_fields)]
#[derive(Debug)]
#[non_exhaustive]
pub enum LoadError<P, E> {
    /// The file could not be opened at all: missing, unreadable, not a file.
    Open {
        /// The path that was asked for.
        path: P,
        /// Why the operating system refused it.
        source: E,
    },
    /// The file opened, but its contents are not a sample this engine will load.
    Decode {
        /// The path that was asked for.
        path: P,
        /// What the decoder rejected.
        source: DecodeError,
    },
}

/// A decoded audio sample.
///
/// The fields are private because the type carries an invariant: a sample that has frames has a
/// rate that [`Sample::resample_to`] can scale by, and a layout that goes with its channel count.
/// That is checked once, where untrusted data enters, and public fields would make the check
/// optional.
pub struct Sample<T> {
    pub(crate) frames: Frames<T>,
    pub(crate) sample_rate: u32,
    pub(crate) source_channels: u16,
    pub(crate) source_sample_rate: u32,
}

/// `sample` is what a file with header `spec` and interleaved levels `raw` decodes to.
pub open spec fn is_decoded<T>(spec: WavSpec, raw: Seq<T>, sample: Sample<T>) -> bool {
    &&& sample.wf()
    &&& is_deinterleaved(spec.channels, raw, sample.data())
    &&& sample.rate() == spec.sample_rate
    &&& sample.channels() == spec.channels
    &&& sample.source_rate() == spec.sample_rate
}

/// `result` is what a sample read from `contents` comes to.
pub open spec fn is_read<T, I: Fn(i32, i64) -> T, F: Fn(&[u8]) -> Result<Vec<T>, Refusal>>(
    contents: Contents,
    from_int: I,
    read_floats: F,
    result: Result<Sample<T>, DecodeError>,
) -> bool {
    exists|bytes: &[u8], decoded: Result<(WavSpec, Vec<T>), DecodeError>|
        bytes@ == contents.bytes@ && #[trigger] is_decoding(
            bytes,
            contents.failure,
            MIN_SAMPLE_RATE,
            MAX_SAMPLE_RATE,
            from_int,
            read_floats,
            decoded,
        ) && match decoded {
            Ok((spec, raw)) => result matches Ok(sample) && is_decoded(spec, raw@, sample),
            Err(fault) => result == Err::<Sample<T>, DecodeError>(fault),
        }
}

/// `result` is what loading a sample from `path` comes to, where `opened` came of opening it: the
/// failure to open it, or what reading it gives, and the path with either failure.
pub open spec fn is_loaded<
    T,
    P,
    E,
    I: Fn(i32, i64) -> T,
    F: Fn(&[u8]) -> Result<Vec<T>, Refusal>,
>(
    path: P,
    opened: Result<Contents, E>,
    from_int: I,
    read_floats: F,
    result: Result<Sample<T>, LoadError<P, E>>,
) -> bool {
    match opened {
        Err(source) => result == Err::<Sample<T>, LoadError<P, E>>(
            LoadError::Open { path, source },
        ),
        Ok(contents) => exists|read: Result<Sample<T>, DecodeError>| #[trigger]
            is_read(contents, from_int, read_floats, read) && result == match read {
                Ok(sample) => Ok::<Sample<T>, LoadError<P, E>>(sample),
                Err(fault) => Err(LoadError::Decode { path, source: fault }),
            },
    }
}

/// 250 ms of `wave` at `sample_rate`, as mono frames. `wave` gives the level at each frame.
pub fn render_wave<T, W: Fn(usize) -> T>(sample_rate: u32, wave: W) -> (frames: Frames<T>)
    requires
        forall|i: usize| i < sample_rate / 4 ==> call_requires(wave, (i,)),
    ensures
        frames is Mono,
        frames.count() == sample_rate / 4,
        forall|i: int|
            0 <= i < sample_rate / 4 ==> call_ensures(
                wave,
                (i as usize,),
                #[trigger] frames.level(i, 0),
            ),
{
    let len: usize = (sample_rate / 4) as usize;
    let mut data: Vec<T> = Vec::new();
    let mut i: usize = 0;
    while i < len
        invariant
            0 <= i <= len,
            len == sample_rate / 4,
            data@.len() == i,
            forall|i: usize| i < sample_rate / 4 ==> call_requires(wave, (i,)),
            forall|k: int| 0 <= k < i ==> call_ensures(wave, (k as usize,), #[trigger] data@[k]),
        decreases len - i,
    {
        data.push(wave(i));
        i = i + 1;
    }
    let frames = Frames::Mono(data);
    proof {
        assert forall|k: int| 0 <= k < sample_rate / 4 implies call_ensures(
            wave,
            (k as usize,),
            #[trigger] frames.level(k, 0),
        ) by {}
    }
    frames
}

impl<T> Sample<T> {
    /// The frames the sample holds.
    pub closed spec fn data(self) -> Frames<T> {
        self.frames
    }

    /// The rate the frames are at, in Hz.
    pub closed spec fn rate(self) -> u32 {
        self.sample_rate
    }

    /// The channel count of the source.
    pub closed spec fn channels(self) -> u16 {
        self.source_channels
    }

    /// The rate the source was at, in Hz.
    pub closed spec fn source_rate(self) -> u32 {
        self.source_sample_rate
    }

    /// What holds of every sample: one that has frames has a rate above zero, and it is mono
    /// exactly if its source was.
    pub open spec fn wf(self) -> bool {
        &&& self.data().count() > 0 ==> self.rate() > 0
        &&& self.channels() >= 1
        &&& self.data() is Mono <==> self.channels() == 1
    }

    /// The frames the sample holds.
    pub fn frames(&self) -> (frames: &Frames<T>)
        ensures
            *frames == self.data(),
    {
        &self.frames
    }

    /// Sample rate the data is *currently* at, in Hz, after any resampling.
    #[must_use]
    pub fn sample_rate(&self) -> (rate: u32)
        ensures
            rate == self.rate(),
    {
        self.sample_rate
    }

    /// Channel count of the source file, kept only so the host can warn about material that was
    /// reduced on load.
    #[must_use]
    pub fn source_channels(&self) -> (channels: u16)
        ensures
            channels == self.channels(),
    {
        self.source_channels
    }

    /// Sample rate of the source file, kept only so the host can report a conversion.
    #[must_use]
    pub fn source_sample_rate(&self) -> (rate: u32)
        ensures
            rate == self.source_rate(),
    {
        self.source_sample_rate
    }
}

impl<T: Copy> Sample<T> {
    /// Build a sample from what a header declares and the interleaved levels that go with it.
    pub fn from_pcm(spec: WavSpec, raw: Vec<T>) -> (r: Result<Self, DecodeError>)
        ensures
            r is Ok <==> header_ok(spec, MIN_SAMPLE_RATE, MAX_SAMPLE_RATE),
            r matches Err(fault) ==> fault == header_fault(spec),
            r matches Ok(sample) ==> is_decoded(spec, raw@, sample),
    {
        match check_header(&spec, MIN_SAMPLE_RATE, MAX_SAMPLE_RATE) {
            Ok(()) => {},
            Err(fault) => return Err(fault),
        }
        Ok(
            Sample {
                frames: deinterleave(spec.channels, raw),
                sample_rate: spec.sample_rate,
                source_channels: spec.channels,
                source_sample_rate: spec.sample_rate,
            },
        )
    }

    /// Decode a WAV from what could be read of a stream: the parsing half of
    /// [`Sample::load_wav`].
    ///
    /// Files with more than two channels are truncated to the first two.
    pub fn from_reader<I: Fn(i32, i64) -> T, F: Fn(&[u8]) -> Result<Vec<T>, Refusal>>(
        contents: Contents,
        from_int: I,
        read_floats: F,
    ) -> (r: Result<Self, DecodeError>)
        requires
            takes_every_depth(from_int),
            forall|bytes: &[u8]| call_requires(read_floats, (bytes,)),
        ensures
            is_read(contents, from_int, read_floats, r),
    {
        let decoded = decode(contents, MIN_SAMPLE_RATE, MAX_SAMPLE_RATE, from_int, read_floats);
        match decoded {
            Ok((spec, raw)) => Sample::from_pcm(spec, raw),
            Err(fault) => Err(fault),
        }
    }

    /// Load a WAV file, preserving mono/stereo layout. The host does the opening and reading:
    /// `opened` is what came of opening `path`, and inside it how far reading it came.
    pub fn load_wav<P, E, I: Fn(i32, i64) -> T, F: Fn(&[u8]) -> Result<Vec<T>, Refusal>>(
        path: P,
        opened: Result<Contents, E>,
        from_int: I,
        read_floats: F,
    ) -> (r: Result<Self, LoadError<P, E>>)
        requires
            takes_every_depth(from_int),
            forall|bytes: &[u8]| call_requires(read_floats, (bytes,)),
        ensures
            is_loaded(path, opened, from_int, read_floats, r),
    {
        let contents = match opened {
            Ok(contents) => contents,
            Err(source) => return Err(LoadError::Open { path, source }),
        };
        match Sample::from_reader(contents, from_int, read_floats) {
            Ok(sample) => Ok(sample),
            Err(fault) => Err(LoadError::Decode { path, source: fault }),
        }
    }

    /// Synthesize a short percussive blip, 250 ms of `wave`, so the engine can be tested without
    /// a real audio file on hand. `wave` gives the level at each frame.
    #[must_use]
    pub fn blip<W: Fn(usize) -> T>(sample_rate: u32, wave: W) -> (r: Self)
        requires
            forall|i: usize| i < sample_rate / 4 ==> call_requires(wave, (i,)),
        ensures
            r.wf(),
            r.data() is Mono,
            r.data().count() == sample_rate / 4,
            forall|i: int|
                0 <= i < sample_rate / 4 ==> call_ensures(
                    wave,
                    (i as usize,),
                    #[trigger] r.data().level(i, 0),
                ),
            r.rate() == sample_rate,
            r.channels() == 1,
            r.source_rate() == sample_rate,
    {
        Sample {
            frames: render_wave(sample_rate, wave),
            sample_rate,
            source_channels: 1,
            source_sample_rate: sample_rate,
        }
    }
}

/// Whether converting `sample` to `target_rate` has frames to interpolate: there are some, and
/// they are not at the target rate already.
pub open spec fn needs_interpolation<T>(sample: Sample<T>, target_rate: u32) -> bool {
    target_rate != 0 && target_rate != sample.rate() && sample.data().count() > 0
}

/// `after` is `before` converted to `target_rate`.
///
/// A sample that is there already is untouched, and so is any where the target is no rate at
/// all. Otherwise the rate is the target's; the frames, where there are any, are read anew through
/// the host's kernels, `scaled_len` of them and at least one; and where the sample came from stays
/// as it was.
pub open spec fn is_resampled<
    W: Default + Add<Output = W>,
    T: Default + Add<Output = T> + Mul<Output = T>,
    R: Fn(usize) -> (isize, isize),
    F: Fn(usize, isize) -> W,
    N: Fn(W) -> T,
    I: Fn(W) -> T,
>(
    before: Sample<T>,
    target_rate: u32,
    scaled_len: usize,
    host: Interpolator<T, R, F, N, I>,
    after: Sample<T>,
) -> bool {
    &&& after.wf()
    &&& target_rate == 0 || target_rate == before.rate() ==> after == before
    &&& target_rate != 0 ==> after.rate() == target_rate
    &&& after.channels() == before.channels()
    &&& after.source_rate() == before.source_rate()
    &&& if needs_interpolation(before, target_rate) {
        &&& after.data().count() == at_least_one(scaled_len)
        &&& is_interpolated::<W, T, R, F, N, I>(before.data(), host, after.data())
    } else {
        after.data() == before.data()
    }
}

/// `n`, or one in place of none.
pub open spec fn at_least_one(n: usize) -> nat {
    if n == 0 {
        1
    } else {
        n as nat
    }
}

impl<T: Copy + Default + Add<Output = T> + Mul<Output = T>> Sample<T> {
    /// Convert the sample to `target_rate`, or return it untouched if it is already there.
    ///
    /// The engine reads exactly one source frame per output frame, so material at the wrong rate
    /// plays at the wrong pitch. Samples are static, so the fix belongs here: convert once, on
    /// the control thread, rather than dragging a resampler into the audio callback.
    ///
    /// `scaled_len` is the frame count scaled by the ratio of the rates and rounded; at least one
    /// frame comes out in any case. `host` says which source frames each output frame is made of
    /// and how much they weigh.
    #[must_use]
    pub fn resample_to<
        W: Copy + Default + Add<Output = W>,
        R: Fn(usize) -> (isize, isize),
        F: Fn(usize, isize) -> W,
        N: Fn(W) -> T,
        I: Fn(W) -> T,
    >(self, target_rate: u32, scaled_len: usize, host: &Interpolator<T, R, F, N, I>) -> (r: Self)
        requires
            self.wf(),
            needs_interpolation(self, target_rate) ==> can_interpolate::<W, T, R, F, N, I>(
                *host,
                at_least_one(scaled_len),
            ),
            add_is_total::<W>(),
            add_is_total::<T>(),
            mul_is_total::<T>(),
        ensures
            is_resampled::<W, T, R, F, N, I>(self, target_rate, scaled_len, *host, r),
    {
        if target_rate == 0 || target_rate == self.sample_rate {
            return self;
        }
        // Nothing to interpolate, but the result still has to *be* at the target rate.
        if self.frames.is_empty() {
            return Sample {
                frames: self.frames,
                sample_rate: target_rate,
                source_channels: self.source_channels,
                source_sample_rate: self.source_sample_rate,
            };
        }
        let count: usize = if scaled_len == 0 {
            1
        } else {
            scaled_len
        };
        let frames = interpolate(&self.frames, count, host);
        Sample {
            frames,
            sample_rate: target_rate,
            source_channels: self.source_channels,
            source_sample_rate: self.source_sample_rate,
        }
    }
}

} // verus!
