//! Reading WAV files: what the `hound` decoder reports, and what of it this crate accepts.
//!
//! Decoding faces untrusted input. `hound` turns bytes into a header and raw samples; everything
//! the header claims is checked here before a sample is built from it.
use vstd::arithmetic::power2::{
    lemma2_to64, lemma_pow2_strictly_increases, lemma_pow2_unfold, pow2,
};
use vstd::prelude::*;

use crate::frames::{Frame, Frames};

verus! {

/// What the decoder reports when it refuses a stream.
#[verifier::external_type_specification]
#[verifier::external_body]
pub struct ExHoundError(hound::Error);

/// How a WAV stores its samples.
#[derive(Clone, Copy, Debug, PartialEq, Eq, Structural)]
pub enum SampleFormat {
    /// IEEE floats.
    Float,
    /// Signed integers of the header's bit depth.
    Int,
}

/// What a WAV header declares. Untrusted until [`check_header`] has passed it.
#[derive(Clone, Copy, Debug, PartialEq, Eq, Structural)]
pub struct WavSpec {
    pub channels: u16,
    pub sample_rate: u32,
    pub bits_per_sample: u16,
    pub sample_format: SampleFormat,
}

/// The reason a decoder gave for refusing a stream.
///
/// [`DecodeError`] names this type rather than the decoder's own error, so that matching on a failure
/// does not involve the decoder. The decoder's error is part of this crate's surface all the same:
/// [`Cause::into_inner`] hands it out, and it comes in through [`DecodeError::from_hound`],
/// [`Contents`], [`Refusal`] and `load_wav` in [`live`](crate::live).
#[derive(Debug)]
pub struct Cause {
    inner: hound::Error,
}

/// How far reading a stream came: the bytes up to its end, or up to where reading it failed, and
/// then why. From there on nothing more can be read.
pub struct Contents {
    pub bytes: Vec<u8>,
    pub failure: Option<hound::Error>,
}

/// Why the decoder refused the bytes it was given.
#[derive(Debug)]
pub enum Refusal {
    /// It needed more bytes than there were.
    Short(hound::Error),
    /// It had all the bytes it asked for, and would not have them.
    Rejected(hound::Error),
}

/// What comes of having the decoder read something, leaving out the text of a refusal.
pub enum Outcome<A> {
    Read(A),
    Short,
    Rejected,
}

/// What can go wrong turning a byte stream into a sample.
#[derive(Debug)]
#[non_exhaustive]
pub enum DecodeError {
    /// The decoder rejected the stream: a missing tag, a data chunk that ends early, a read
    /// failure underneath. The cause carries the specific reason.
    Unreadable(Cause),
    /// The header parsed but claims no channels, so there is no audio to read.
    NoChannels,
    /// Bit depth outside `1..=32`.
    BitDepth(u16),
    /// Sample rate outside the accepted range.
    SampleRate(u32),
}

impl Cause {
    /// The decoder's own error.
    pub closed spec fn error(self) -> hound::Error {
        self.inner
    }

    /// Take the decoder's own error out.
    pub fn into_inner(self) -> (err: hound::Error)
        ensures
            err == self.error(),
    {
        self.inner
    }
}

impl DecodeError {
    /// Keep a decoder failure as the cause of [`DecodeError::Unreadable`].
    pub fn from_hound(err: hound::Error) -> (r: Self)
        ensures
            r matches DecodeError::Unreadable(cause) && cause.error() == err,
    {
        DecodeError::Unreadable(Cause { inner: err })
    }
}

/// The header that the decoder finds in `bytes`.
pub uninterp spec fn wav_header(bytes: Seq<u8>) -> Outcome<WavSpec>;

/// The integer samples that the decoder reads from `bytes`, channels interleaved.
pub uninterp spec fn wav_int_samples(bytes: Seq<u8>) -> Outcome<Seq<i32>>;

/// `value` is one that a signed integer of `bits` bits can hold.
pub open spec fn fits_depth(value: i32, bits: u16) -> bool {
    -pow2((bits - 1) as nat) <= value < pow2((bits - 1) as nat)
}

/// Calls `hound::WavReader::new` and `hound::WavReader::spec`: parses the header at the start of
/// `bytes`. Trusted: the outcome is a function of the bytes alone, named [`wav_header`], and the
/// decoder reports an I/O error exactly where it needed more bytes than there were.
#[verifier::external_body]
pub(crate) fn read_header(bytes: &[u8]) -> (r: Result<WavSpec, Refusal>)
    ensures
        r matches Ok(spec) ==> wav_header(bytes@) == Outcome::Read(spec),
        r matches Err(Refusal::Short(_)) ==> wav_header(bytes@) is Short,
        r matches Err(Refusal::Rejected(_)) ==> wav_header(bytes@) is Rejected,
{
    let spec = match hound::WavReader::new(bytes) {
        Ok(reader) => reader.spec(),
        Err(err @ hound::Error::IoError(_)) => return Err(Refusal::Short(err)),
        Err(err) => return Err(Refusal::Rejected(err)),
    };
    let sample_format = match spec.sample_format {
        hound::SampleFormat::Float => SampleFormat::Float,
        hound::SampleFormat::Int => SampleFormat::Int,
    };
    let (channels, sample_rate) = (spec.channels, spec.sample_rate);
    Ok(WavSpec { channels, sample_rate, bits_per_sample: spec.bits_per_sample, sample_format })
}

/// Calls `hound::WavReader::new` and `hound::WavReader::samples` at `i32`: reads every sample of
/// the file in `bytes`, stopping at the first that cannot be read. Trusted: the outcome is a
/// function of the bytes alone, named [`wav_int_samples`]; the decoder reports an I/O error exactly
/// where it needed more bytes than there were; and each value is one that the depth in the header
/// can hold.
#[verifier::external_body]
pub(crate) fn read_int_samples(bytes: &[u8]) -> (r: Result<Vec<i32>, Refusal>)
    ensures
        r matches Ok(samples) ==> wav_int_samples(bytes@) == Outcome::Read(samples@),
        r matches Err(Refusal::Short(_)) ==> wav_int_samples(bytes@) is Short,
        r matches Err(Refusal::Rejected(_)) ==> wav_int_samples(bytes@) is Rejected,
        r matches Ok(samples) ==> (wav_header(bytes@) matches Outcome::Read(spec) ==> forall|
            i: int,
        |
            0 <= i < samples@.len() ==> fits_depth(#[trigger] samples@[i], spec.bits_per_sample)),
{
    let read: Result<Vec<i32>, hound::Error> = match hound::WavReader::new(bytes) {
        Ok(mut reader) => reader.samples::<i32>().collect(),
        Err(err) => Err(err),
    };
    match read {
        Ok(samples) => Ok(samples),
        Err(err @ hound::Error::IoError(_)) => Err(Refusal::Short(err)),
        Err(err) => Err(Refusal::Rejected(err)),
    }
}

/// `refusal` is one that the decoder gave for the header in `bytes`.
pub closed spec fn refuses_header(bytes: &[u8], refusal: Refusal) -> bool {
    call_ensures(read_header, (bytes,), Err::<WavSpec, Refusal>(refusal))
}

/// `refusal` is one that the decoder gave for the integer samples in `bytes`.
pub closed spec fn refuses_int_samples(bytes: &[u8], refusal: Refusal) -> bool {
    call_ensures(read_int_samples, (bytes,), Err::<Vec<i32>, Refusal>(refusal))
}

/// What is behind a refusal: where the decoder ran out of bytes because reading had failed, that
/// failure, and the decoder's own error otherwise.
pub open spec fn reason(refusal: Refusal, failure: Option<hound::Error>) -> hound::Error {
    match refusal {
        Refusal::Short(err) => match failure {
            Some(failed) => failed,
            None => err,
        },
        Refusal::Rejected(err) => err,
    }
}

/// What is behind a refusal of the decoder, when reading failed with `failure` or not at all.
pub fn reason_for(refusal: Refusal, failure: Option<hound::Error>) -> (err: hound::Error)
    ensures
        err == reason(refusal, failure),
{
    match refusal {
        Refusal::Short(err) => match failure {
            Some(failed) => failed,
            None => err,
        },
        Refusal::Rejected(err) => err,
    }
}

/// The lowest and highest sample rates a file may declare.
///
/// Resampling scales by `target / sample_rate`: a low rate inflates the sample, a high one widens
/// the resampling kernel by that same factor. The range is deliberately wider than anything
/// musical; lo-fi material at 5512 Hz is what a groovebox is for, not a corrupt header.
pub const MIN_SAMPLE_RATE: u32 = 1_000;

pub const MAX_SAMPLE_RATE: u32 = 768_000;

/// Whether a header declares something that will load, with sample rates of `low..=high`.
pub open spec fn header_ok(spec: WavSpec, low: u32, high: u32) -> bool {
    &&& spec.channels >= 1
    &&& 1 <= spec.bits_per_sample <= 32
    &&& low <= spec.sample_rate <= high
}

/// The first thing wrong with a header that will not load.
pub open spec fn header_fault(spec: WavSpec) -> DecodeError {
    if spec.channels == 0 {
        DecodeError::NoChannels
    } else if !(1 <= spec.bits_per_sample <= 32) {
        DecodeError::BitDepth(spec.bits_per_sample)
    } else {
        DecodeError::SampleRate(spec.sample_rate)
    }
}

/// Check what a header declares, accepting sample rates of `low..=high`.
pub fn check_header(spec: &WavSpec, low: u32, high: u32) -> (r: Result<(), DecodeError>)
    ensures
        r is Ok <==> header_ok(*spec, low, high),
        r matches Err(fault) ==> fault == header_fault(*spec),
{
    if spec.channels == 0 {
        return Err(DecodeError::NoChannels);
    }
    if !(1 <= spec.bits_per_sample && spec.bits_per_sample <= 32) {
        return Err(DecodeError::BitDepth(spec.bits_per_sample));
    }
    if !(low <= spec.sample_rate && spec.sample_rate <= high) {
        return Err(DecodeError::SampleRate(spec.sample_rate));
    }
    Ok(())
}

/// `frames` holds what `raw`, interleaved over `channels` channels, says: one channel stays mono,
/// of more than one the first two are kept, and a trailing partial frame is dropped.
pub open spec fn is_deinterleaved<T>(channels: u16, raw: Seq<T>, frames: Frames<T>) -> bool {
    match frames {
        Frames::Mono(data) => channels == 1 && data@ == raw,
        Frames::Stereo(data) => {
            &&& channels >= 2
            &&& data@.len() == raw.len() / channels as nat
            &&& forall|i: int|
                #![trigger data@[i]]
                0 <= i < data@.len() ==> {
                    &&& data@[i]@[0] == raw[i * channels]
                    &&& data@[i]@[1] == raw[i * channels + 1]
                }
        },
    }
}

/// Split interleaved levels into frames, keeping at most the first two channels.
///
/// A correct surround downmix needs per-format coefficients and is not worth it yet.
pub fn deinterleave<T: Copy>(channels: u16, raw: Vec<T>) -> (frames: Frames<T>)
    requires
        channels >= 1,
    ensures
        is_deinterleaved(channels, raw@, frames),
{
    if channels == 1 {
        return Frames::Mono(raw);
    }
    let stride: usize = channels as usize;
    let total: usize = raw.len();
    let count: usize = total / stride;
    let mut data: Vec<Frame<T>> = Vec::new();
    let mut i: usize = 0;
    while i < count
        invariant
            0 <= i <= count,
            stride == channels,
            stride >= 2,
            total == raw@.len(),
            count == total / stride,
            data@.len() == i,
            forall|k: int|
                #![trigger data@[k]]
                0 <= k < i ==> {
                    &&& data@[k]@[0] == raw@[k * channels]
                    &&& data@[k]@[1] == raw@[k * channels + 1]
                },
        decreases count - i,
    {
        proof {
            assert(0 <= i * stride && i * stride + stride <= total) by (nonlinear_arith)
                requires
                    i < count,
                    count == total / stride,
                    stride >= 2,
            ;
        }
        let start: usize = i * stride;
        data.push([raw[start], raw[start + 1]]);
        i = i + 1;
    }
    Frames::Stereo(data)
}

/// The largest magnitude of an integer sample of `bits` bits: what stands for full level.
pub open spec fn scale_of(bits: u16) -> i64 {
    pow2((bits - 1) as nat) as i64
}

/// The largest magnitude of an integer sample of `bits` bits. A level is the sample divided by it,
/// which puts the negative rail at full level exactly.
pub fn full_scale(bits: u16) -> (scale: i64)
    requires
        1 <= bits <= 32,
    ensures
        scale == pow2((bits - 1) as nat),
        scale == scale_of(bits),
{
    let mut scale: i64 = 1;
    let mut k: u16 = 1;
    proof {
        lemma2_to64();
    }
    while k < bits
        invariant
            1 <= k <= bits <= 32,
            scale == pow2((k - 1) as nat),
            scale <= 0x8000_0000,
            pow2(31) == 0x8000_0000,
        decreases bits - k,
    {
        proof {
            lemma_pow2_unfold(k as nat);
            if k < 31 {
                lemma_pow2_strictly_increases(k as nat, 31);
            }
        }
        scale = scale * 2;
        k = k + 1;
    }
    scale
}

/// `raw` are the levels that `from_int` gave for integer samples of `bits` bits, one for one, each
/// with the magnitude of full level.
pub open spec fn are_levels<T, I: Fn(i32, i64) -> T>(
    values: Seq<i32>,
    bits: u16,
    from_int: I,
    raw: Seq<T>,
) -> bool {
    &&& raw.len() == values.len()
    &&& forall|i: int|
        0 <= i < raw.len() ==> call_ensures(
            from_int,
            (values[i], scale_of(bits)),
            #[trigger] raw[i],
        )
}

/// `from_int` may be called for every sample that some accepted depth can hold.
pub open spec fn takes_every_depth<T, I: Fn(i32, i64) -> T>(from_int: I) -> bool {
    forall|value: i32, bits: u16|
        1 <= bits <= 32 && #[trigger] fits_depth(value, bits) ==> call_requires(
            from_int,
            (value, scale_of(bits)),
        )
}

/// Turn integer samples of `bits` bits into levels, one for one.
pub fn levels_from<T, I: Fn(i32, i64) -> T>(values: &Vec<i32>, bits: u16, from_int: I) -> (raw: Vec<
    T,
>)
    requires
        1 <= bits <= 32,
        forall|i: int|
            0 <= i < values@.len() ==> call_requires(
                from_int,
                (#[trigger] values@[i], scale_of(bits)),
            ),
    ensures
        are_levels(values@, bits, from_int, raw@),
{
    let scale: i64 = full_scale(bits);
    let mut raw: Vec<T> = Vec::new();
    let mut i: usize = 0;
    while i < values.len()
        invariant
            0 <= i <= values@.len(),
            raw@.len() == i,
            scale == scale_of(bits),
            forall|i: int|
                0 <= i < values@.len() ==> call_requires(
                    from_int,
                    (#[trigger] values@[i], scale_of(bits)),
                ),
            forall|k: int|
                0 <= k < i ==> call_ensures(
                    from_int,
                    (values@[k], scale_of(bits)),
                    #[trigger] raw@[k],
                ),
        decreases values@.len() - i,
    {
        raw.push(from_int(values[i], scale));
        i = i + 1;
    }
    raw
}

/// `result` is that the bytes were unreadable, for the reason behind `refusal`.
pub open spec fn is_unreadable<A>(
    result: Result<A, DecodeError>,
    refusal: Refusal,
    failure: Option<hound::Error>,
) -> bool {
    result matches Err(DecodeError::Unreadable(cause)) && cause.error() == reason(refusal, failure)
}

/// `result` is what decoding a stream gives, of which `bytes` could be read before it ended or
/// reading it failed with `failure`, where sample rates of `low..=high` are accepted:
///
/// - bytes the decoder refuses are unreadable, for the reason it gave, or for why there were not
///   more of them;
/// - a header that declares something that will not load is reported before any sample is read;
/// - integer samples become levels through `from_int`, each with the magnitude of full level at the
///   depth in the header;
/// - float samples are whatever `read_floats` made of the same bytes.
pub open spec fn is_decoding<T, I: Fn(i32, i64) -> T, F: Fn(&[u8]) -> Result<Vec<T>, Refusal>>(
    bytes: &[u8],
    failure: Option<hound::Error>,
    low: u32,
    high: u32,
    from_int: I,
    read_floats: F,
    result: Result<(WavSpec, Vec<T>), DecodeError>,
) -> bool {
    match wav_header(bytes@) {
        Outcome::Read(spec) => if !header_ok(spec, low, high) {
            result == Err::<(WavSpec, Vec<T>), DecodeError>(header_fault(spec))
        } else if spec.sample_format is Int {
            match wav_int_samples(bytes@) {
                Outcome::Read(values) => result matches Ok(decoded) && decoded.0 == spec
                    && are_levels(values, spec.bits_per_sample, from_int, decoded.1@),
                refused => exists|refusal: Refusal| #[trigger]
                    refuses_int_samples(bytes, refusal) && (refusal is Short <==> refused is Short)
                        && is_unreadable(result, refusal, failure),
            }
        } else {
            exists|floats: Result<Vec<T>, Refusal>| #[trigger]
                call_ensures(read_floats, (bytes,), floats) && match floats {
                    Ok(raw) => result == Ok::<(WavSpec, Vec<T>), DecodeError>((spec, raw)),
                    Err(refusal) => is_unreadable(result, refusal, failure),
                }
        },
        refused => exists|refusal: Refusal| #[trigger]
            refuses_header(bytes, refusal) && (refusal is Short <==> refused is Short)
                && is_unreadable(result, refusal, failure),
    }
}

/// Whether the decoder, given `bytes`, ran out of them before it came to an outcome, where sample
/// rates of `low..=high` are accepted. A header that will not load is an outcome, and no sample is
/// asked for after it.
pub open spec fn is_short<T, F: Fn(&[u8]) -> Result<Vec<T>, Refusal>>(
    bytes: &[u8],
    low: u32,
    high: u32,
    read_floats: F,
    short: bool,
) -> bool {
    match wav_header(bytes@) {
        Outcome::Read(spec) => if !header_ok(spec, low, high) {
            !short
        } else if spec.sample_format is Int {
            short == (wav_int_samples(bytes@) is Short)
        } else {
            exists|floats: Result<Vec<T>, Refusal>| #[trigger]
                call_ensures(read_floats, (bytes,), floats) && short == (floats matches Err(
                    Refusal::Short(_),
                ))
        },
        refused => short == (refused is Short),
    }
}

/// Whether decoding needs more of a stream than `bytes`. A host that reads a stream piece by piece
/// can stop once it does not, and so never waits for what the decoder would not ask for.
pub fn needs_more<T, F: Fn(&[u8]) -> Result<Vec<T>, Refusal>>(
    bytes: &[u8],
    low: u32,
    high: u32,
    read_floats: F,
) -> (short: bool)
    requires
        call_requires(read_floats, (bytes,)),
    ensures
        is_short(bytes, low, high, read_floats, short),
{
    let spec = match read_header(bytes) {
        Ok(spec) => spec,
        Err(refusal) => return matches!(refusal, Refusal::Short(_)),
    };
    if check_header(&spec, low, high).is_err() {
        return false;
    }
    match spec.sample_format {
        SampleFormat::Float => match read_floats(bytes) {
            Err(Refusal::Short(_)) => true,
            _ => false,
        },
        SampleFormat::Int => match read_int_samples(bytes) {
            Err(Refusal::Short(_)) => true,
            _ => false,
        },
    }
}

/// Decode a WAV, as far as it could be read, into its header and interleaved levels, accepting
/// sample rates of `low..=high`.
///
/// The decoder asks for no byte that it does not need: a failure to read comes up only where the
/// decoder runs out of bytes because of it.
pub fn decode<T, I: Fn(i32, i64) -> T, F: Fn(&[u8]) -> Result<Vec<T>, Refusal>>(
    contents: Contents,
    low: u32,
    high: u32,
    from_int: I,
    read_floats: F,
) -> (r: Result<(WavSpec, Vec<T>), DecodeError>)
    requires
        takes_every_depth(from_int),
        forall|bytes: &[u8]| call_requires(read_floats, (bytes,)),
    ensures
        exists|bytes: &[u8]|
            bytes@ == contents.bytes@ && #[trigger] is_decoding(
                bytes,
                contents.failure,
                low,
                high,
                from_int,
                read_floats,
                r,
            ),
{
    let bytes = contents.bytes.as_slice();
    let spec = match read_header(bytes) {
        Ok(spec) => spec,
        Err(refusal) => {
            assert(refuses_header(bytes, refusal));
            let err = reason_for(refusal, contents.failure);
            let r = Err(DecodeError::from_hound(err));
            assert(is_decoding(bytes, contents.failure, low, high, from_int, read_floats, r));
            return r;
        },
    };
    match check_header(&spec, low, high) {
        Ok(()) => {},
        Err(fault) => {
            let r = Err(fault);
            assert(is_decoding(bytes, contents.failure, low, high, from_int, read_floats, r));
            return r;
        },
    }
    let r = match spec.sample_format {
        SampleFormat::Float => match read_floats(bytes) {
            Ok(raw) => Ok((spec, raw)),
            Err(refusal) => Err(DecodeError::from_hound(reason_for(refusal, contents.failure))),
        },
        SampleFormat::Int => match read_int_samples(bytes) {
            Ok(values) => Ok((spec, levels_from(&values, spec.bits_per_sample, from_int))),
            Err(refusal) => {
                assert(refuses_int_samples(bytes, refusal));
                Err(DecodeError::from_hound(reason_for(refusal, contents.failure)))
            },
        },
    };
    assert(is_decoding(bytes, contents.failure, low, high, from_int, read_floats, r));
    r
}

} // verus!
