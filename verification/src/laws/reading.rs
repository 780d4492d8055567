//! What a file's header and samples come to, said of the calls themselves.
use vstd::arithmetic::power2::pow2;
use vstd::prelude::*;

use crate::frames::Frames;
use crate::live;
use crate::sample::{LoadError, Sample};
#[allow(unused_imports)]
use crate::sample::{is_decoded, is_read};
use crate::wav::{
    check_header, decode, deinterleave, full_scale, levels_from, needs_more, reason_for, Cause,
    Contents, DecodeError, Refusal, SampleFormat, WavSpec,
};
#[allow(unused_imports)]
use crate::wav::{
    is_decoding, is_deinterleaved, refuses_header, refuses_int_samples, scale_of, wav_header,
    wav_int_samples, Outcome,
};

verus! {

/// For every file that loads, the sample's current rate and the rate of its source are both the one the
/// header declares, whichever that is, and its channel count is the header's too.
pub proof fn a_loaded_sample_is_at_the_rate_of_its_file<
    T: Copy,
    I: Fn(i32, i64) -> T,
    F: Fn(&[u8]) -> Result<Vec<T>, Refusal>,
>(
    contents: Contents,
    from_int: I,
    read_floats: F,
    sample: Sample<T>,
    rate: u32,
    source_rate: u32,
    channels: u16,
)
    requires
        call_ensures(
            Sample::<T>::from_reader::<I, F>,
            (contents, from_int, read_floats),
            Ok(sample),
        ),
        call_ensures(Sample::<T>::sample_rate, (&sample,), rate),
        call_ensures(Sample::<T>::source_sample_rate, (&sample,), source_rate),
        call_ensures(Sample::<T>::source_channels, (&sample,), channels),
    ensures
        rate == source_rate,
        wav_header(contents.bytes@) matches Outcome::Read(spec) && rate == spec.sample_rate
            && source_rate == spec.sample_rate && channels == spec.channels && channels >= 1
            && 1_000 <= rate <= 768_000,
{
}

/// A header is taken or refused for what it declares alone: a file that declares no channels, a depth
/// outside one to 32 bits, or a rate outside 1,000 to 768,000 is refused for the first of these, and
/// any other header is never what stops a file from loading.
pub proof fn a_header_is_refused_for_what_it_declares<
    T: Copy,
    I: Fn(i32, i64) -> T,
    F: Fn(&[u8]) -> Result<Vec<T>, Refusal>,
>(
    contents: Contents,
    from_int: I,
    read_floats: F,
    result: Result<Sample<T>, DecodeError>,
    spec: WavSpec,
)
    requires
        call_ensures(
            Sample::<T>::from_reader::<I, F>,
            (contents, from_int, read_floats),
            result,
        ),
        wav_header(contents.bytes@) == Outcome::Read(spec),
    ensures
        spec.channels == 0 ==> result == Err::<Sample<T>, DecodeError>(DecodeError::NoChannels),
        spec.channels > 0 && (spec.bits_per_sample == 0 || spec.bits_per_sample > 32) ==> result
            == Err::<Sample<T>, DecodeError>(DecodeError::BitDepth(spec.bits_per_sample)),
        spec.channels > 0 && 0 < spec.bits_per_sample <= 32 && (spec.sample_rate < 1_000
            || spec.sample_rate > 768_000) ==> result == Err::<Sample<T>, DecodeError>(
            DecodeError::SampleRate(spec.sample_rate),
        ),
        spec.channels > 0 && 0 < spec.bits_per_sample <= 32 && 1_000 <= spec.sample_rate <= 768_000
            ==> result is Ok || result matches Err(DecodeError::Unreadable(_)),
{
}

/// A file with a header that will load and integer samples that can be read loads, as mono exactly if
/// it has one channel: frame by frame, each level is what the host makes of the sample on that channel
/// and of two to the power of one less than the depth. Only the first two channels are kept, and only
/// whole frames.
pub proof fn integer_samples_become_levels<
    T: Copy,
    I: Fn(i32, i64) -> T,
    F: Fn(&[u8]) -> Result<Vec<T>, Refusal>,
>(
    contents: Contents,
    from_int: I,
    read_floats: F,
    result: Result<Sample<T>, DecodeError>,
    spec: WavSpec,
    values: Seq<i32>,
    frames: &Frames<T>,
)
    requires
        call_ensures(
            Sample::<T>::from_reader::<I, F>,
            (contents, from_int, read_floats),
            result,
        ),
        wav_header(contents.bytes@) == Outcome::Read(spec),
        wav_int_samples(contents.bytes@) == Outcome::Read(values),
        spec.sample_format is Int,
        spec.channels >= 1,
        1 <= spec.bits_per_sample <= 32,
        1_000 <= spec.sample_rate <= 768_000,
        result matches Ok(sample) ==> call_ensures(Sample::<T>::frames, (&sample,), frames),
    ensures
        result is Ok,
        spec.channels == 1 ==> (frames matches Frames::Mono(data) && data@.len() == values.len() && (
        forall|i: int|
            0 <= i < values.len() ==> call_ensures(
                from_int,
                (values[i], pow2((spec.bits_per_sample - 1) as nat) as i64),
                #[trigger] data@[i],
            ))),
        spec.channels >= 2 ==> (frames matches Frames::Stereo(data) && data@.len() == values.len()
            / spec.channels as nat && (forall|i: int, side: int|
            0 <= i < data@.len() && 0 <= side < 2 ==> call_ensures(
                from_int,
                (
                    values[i * spec.channels + side],
                    pow2((spec.bits_per_sample - 1) as nat) as i64,
                ),
                #[trigger] data@[i]@[side],
            ))),
{
    let (bytes, decoded) = choose|bytes: &[u8], decoded: Result<(WavSpec, Vec<T>), DecodeError>|
        bytes@ == contents.bytes@ && #[trigger] is_decoding(
            bytes,
            contents.failure,
            1_000,
            768_000,
            from_int,
            read_floats,
            decoded,
        ) && match decoded {
            Ok((spec, raw)) => result matches Ok(sample) && is_decoded(spec, raw@, sample),
            Err(fault) => result == Err::<Sample<T>, DecodeError>(fault),
        };
    let raw = decoded->Ok_0.1@;
    match frames {
        Frames::Mono(data) => {
            assert forall|i: int| 0 <= i < values.len() implies call_ensures(
                from_int,
                (values[i], pow2((spec.bits_per_sample - 1) as nat) as i64),
                #[trigger] data@[i],
            ) by {
                let level = raw[i];
            }
        },
        Frames::Stereo(data) => {
            assert forall|i: int, side: int|
                0 <= i < data@.len() && 0 <= side < 2 implies call_ensures(
                from_int,
                (
                    values[i * spec.channels + side],
                    pow2((spec.bits_per_sample - 1) as nat) as i64,
                ),
                #[trigger] data@[i]@[side],
            ) by {
                let frame = data@[i];
                let place = i * spec.channels + side;
                lemma_place_is_there(values.len(), spec.channels, i, side);
                assert(raw[place] == frame@[side]);
            }
        },
    }
}

/// The first two samples of every whole frame are there.
proof fn lemma_place_is_there(len: nat, channels: u16, i: int, side: int)
    requires
        channels >= 2,
        0 <= side < 2,
        0 <= i < len / channels as nat,
    ensures
        0 <= i * channels + side < len,
{
    let stride = channels as int;
    let whole = (len / channels as nat) as int;
    assert(whole * stride <= len) by (nonlinear_arith)
        requires
            whole == len as int / stride,
            stride >= 2,
    ;
    assert(0 <= i * stride && i * stride + stride <= whole * stride) by (nonlinear_arith)
        requires
            0 <= i < whole,
            stride >= 2,
    ;
}

/// A file of floats with a header that will load is what the host reads of it: its levels frame by
/// frame, as mono exactly if it has one channel, or unreadable where the host refuses it.
pub proof fn float_samples_are_what_the_host_reads<
    T: Copy,
    I: Fn(i32, i64) -> T,
    F: Fn(&[u8]) -> Result<Vec<T>, Refusal>,
>(
    contents: Contents,
    from_int: I,
    read_floats: F,
    result: Result<Sample<T>, DecodeError>,
    spec: WavSpec,
    frames: &Frames<T>,
)
    requires
        call_ensures(
            Sample::<T>::from_reader::<I, F>,
            (contents, from_int, read_floats),
            result,
        ),
        wav_header(contents.bytes@) == Outcome::Read(spec),
        spec.sample_format is Float,
        spec.channels >= 1,
        1 <= spec.bits_per_sample <= 32,
        1_000 <= spec.sample_rate <= 768_000,
        result matches Ok(sample) ==> call_ensures(Sample::<T>::frames, (&sample,), frames),
    ensures
        exists|bytes: &[u8], floats: Result<Vec<T>, Refusal>|
            bytes@ == contents.bytes@ && #[trigger] call_ensures(read_floats, (bytes,), floats)
                && match floats {
                Ok(raw) => {
                    &&& result is Ok
                    &&& spec.channels == 1 ==> (frames matches Frames::Mono(data) && data@ == raw@)
                    &&& spec.channels >= 2 ==> (frames matches Frames::Stereo(data) && data@.len()
                        == raw@.len() / spec.channels as nat && (forall|i: int|
                        0 <= i < data@.len() ==> (#[trigger] data@[i])@[0] == raw@[i * spec.channels]
                            && data@[i]@[1] == raw@[i * spec.channels + 1]))
                },
                Err(_) => result matches Err(DecodeError::Unreadable(_)),
            },
{
    let (bytes, decoded) = choose|bytes: &[u8], decoded: Result<(WavSpec, Vec<T>), DecodeError>|
        bytes@ == contents.bytes@ && #[trigger] is_decoding(
            bytes,
            contents.failure,
            1_000,
            768_000,
            from_int,
            read_floats,
            decoded,
        ) && match decoded {
            Ok((spec, raw)) => result matches Ok(sample) && is_decoded(spec, raw@, sample),
            Err(fault) => result == Err::<Sample<T>, DecodeError>(fault),
        };
    let floats = choose|floats: Result<Vec<T>, Refusal>| #[trigger]
        call_ensures(read_floats, (bytes,), floats) && match floats {
            Ok(raw) => decoded == Ok::<(WavSpec, Vec<T>), DecodeError>((spec, raw)),
            Err(refusal) => decoded matches Err(DecodeError::Unreadable(_)),
        };
}

/// What the decoder refuses is unreadable; and where it ran out of bytes because reading had failed,
/// that failure is the cause.
pub proof fn what_the_decoder_refuses_is_unreadable<
    T: Copy,
    I: Fn(i32, i64) -> T,
    F: Fn(&[u8]) -> Result<Vec<T>, Refusal>,
>(
    contents: Contents,
    from_int: I,
    read_floats: F,
    result: Result<Sample<T>, DecodeError>,
    cause: Cause,
    err: hound::Error,
)
    requires
        call_ensures(
            Sample::<T>::from_reader::<I, F>,
            (contents, from_int, read_floats),
            result,
        ),
        result matches Err(DecodeError::Unreadable(found)) ==> found == cause,
        call_ensures(Cause::into_inner, (cause,), err),
    ensures
        wav_header(contents.bytes@) is Short || wav_header(contents.bytes@) is Rejected ==> (
        result matches Err(DecodeError::Unreadable(_))),
        wav_header(contents.bytes@) is Short ==> (contents.failure matches Some(failed) ==> err
            == failed),
        wav_header(contents.bytes@) matches Outcome::Read(spec) ==> (spec.sample_format is Int
            && spec.channels >= 1 && 1 <= spec.bits_per_sample <= 32 && 1_000 <= spec.sample_rate
            <= 768_000 && !(wav_int_samples(contents.bytes@) is Read) ==> {
            &&& result matches Err(DecodeError::Unreadable(_))
            &&& wav_int_samples(contents.bytes@) is Short ==> (
            contents.failure matches Some(failed) ==> err == failed)
        }),
{
}

/// A path that does not open is reported with the path and the reason; one that does comes to what
/// reading its contents comes to, the path with any failure.
pub proof fn a_failure_to_load_names_its_path<
    T: Copy,
    P,
    E,
    I: Fn(i32, i64) -> T,
    F: Fn(&[u8]) -> Result<Vec<T>, Refusal>,
>(
    path: P,
    opened: Result<Contents, E>,
    from_int: I,
    read_floats: F,
    result: Result<Sample<T>, LoadError<P, E>>,
)
    requires
        call_ensures(
            Sample::<T>::load_wav::<P, E, I, F>,
            (path, opened, from_int, read_floats),
            result,
        ),
    ensures
        opened matches Err(source) ==> (result matches Err(LoadError::Open { path: named, source: why })
            && named == path && why == source),
        opened is Ok ==> (result matches Err(fault) ==> (fault matches LoadError::Decode {
            path: named,
            source,
        } && named == path)),
{
}

/// A sample that loads from a path is at the rate its header declares, now and at its source.
pub proof fn a_sample_from_a_path_is_at_the_rate_of_its_file<
    T: Copy,
    P,
    E,
    I: Fn(i32, i64) -> T,
    F: Fn(&[u8]) -> Result<Vec<T>, Refusal>,
>(
    path: P,
    contents: Contents,
    from_int: I,
    read_floats: F,
    result: Result<Sample<T>, LoadError<P, E>>,
    spec: WavSpec,
    rate: u32,
    source_rate: u32,
    channels: u16,
)
    requires
        call_ensures(
            Sample::<T>::load_wav::<P, E, I, F>,
            (path, Ok(contents), from_int, read_floats),
            result,
        ),
        wav_header(contents.bytes@) == Outcome::Read(spec),
        result matches Ok(sample) ==> {
            &&& call_ensures(Sample::<T>::sample_rate, (&sample,), rate)
            &&& call_ensures(Sample::<T>::source_sample_rate, (&sample,), source_rate)
            &&& call_ensures(Sample::<T>::source_channels, (&sample,), channels)
        },
    ensures
        result is Ok ==> rate == spec.sample_rate && source_rate == spec.sample_rate && channels
            == spec.channels,
        spec.channels == 0 ==> (result matches Err(LoadError::Decode { source, .. })
            && source is NoChannels),
        spec.channels > 0 && !(1 <= spec.bits_per_sample <= 32) ==> (result matches Err(
            LoadError::Decode { source, .. },
        ) && source == DecodeError::BitDepth(spec.bits_per_sample)),
        spec.channels > 0 && 1 <= spec.bits_per_sample <= 32 && !(1_000 <= spec.sample_rate
            <= 768_000) ==> (result matches Err(LoadError::Decode { source, .. }) && source
            == DecodeError::SampleRate(spec.sample_rate)),
        spec.channels > 0 && 1 <= spec.bits_per_sample <= 32 && 1_000 <= spec.sample_rate <= 768_000
            && spec.sample_format is Int && wav_int_samples(contents.bytes@) is Read ==> result
            is Ok,
{
}

/// A sample made from a header and levels is at the header's rate, now and at its source, and holds the
/// levels it was given: all of them where there is one channel, and the first two of every whole frame
/// where there are more.
pub proof fn a_sample_holds_the_levels_it_was_made_from<T: Copy>(
    spec: WavSpec,
    raw: Vec<T>,
    result: Result<Sample<T>, DecodeError>,
    rate: u32,
    source_rate: u32,
    channels: u16,
    frames: &Frames<T>,
)
    requires
        call_ensures(Sample::<T>::from_pcm, (spec, raw), result),
        result matches Ok(sample) ==> {
            &&& call_ensures(Sample::<T>::sample_rate, (&sample,), rate)
            &&& call_ensures(Sample::<T>::source_sample_rate, (&sample,), source_rate)
            &&& call_ensures(Sample::<T>::source_channels, (&sample,), channels)
            &&& call_ensures(Sample::<T>::frames, (&sample,), frames)
        },
    ensures
        result is Ok <==> spec.channels >= 1 && 1 <= spec.bits_per_sample <= 32 && 1_000
            <= spec.sample_rate <= 768_000,
        spec.channels == 0 ==> result == Err::<Sample<T>, DecodeError>(DecodeError::NoChannels),
        spec.channels > 0 && !(1 <= spec.bits_per_sample <= 32) ==> result == Err::<
            Sample<T>,
            DecodeError,
        >(DecodeError::BitDepth(spec.bits_per_sample)),
        spec.channels > 0 && 1 <= spec.bits_per_sample <= 32 && !(1_000 <= spec.sample_rate
            <= 768_000) ==> result == Err::<Sample<T>, DecodeError>(
            DecodeError::SampleRate(spec.sample_rate),
        ),
        result is Ok ==> {
            &&& rate == spec.sample_rate
            &&& source_rate == spec.sample_rate
            &&& channels == spec.channels
            &&& spec.channels == 1 ==> (frames matches Frames::Mono(data) && data@ == raw@)
            &&& spec.channels >= 2 ==> (frames matches Frames::Stereo(data) && data@.len()
                == raw@.len() / spec.channels as nat && (forall|i: int|
                0 <= i < data@.len() ==> (#[trigger] data@[i])@[0] == raw@[i * spec.channels]
                    && data@[i]@[1] == raw@[i * spec.channels + 1]))
        },
{
}

/// A header is checked for its channels, then its depth, then its rate.
pub proof fn a_header_is_checked_in_order(
    spec: WavSpec,
    low: u32,
    high: u32,
    result: Result<(), DecodeError>,
)
    requires
        call_ensures(check_header, (&spec, low, high), result),
    ensures
        spec.channels == 0 ==> result == Err::<(), DecodeError>(DecodeError::NoChannels),
        spec.channels > 0 && (spec.bits_per_sample == 0 || spec.bits_per_sample > 32) ==> result
            == Err::<(), DecodeError>(DecodeError::BitDepth(spec.bits_per_sample)),
        spec.channels > 0 && 0 < spec.bits_per_sample <= 32 && (spec.sample_rate < low
            || spec.sample_rate > high) ==> result == Err::<(), DecodeError>(
            DecodeError::SampleRate(spec.sample_rate),
        ),
        spec.channels > 0 && 0 < spec.bits_per_sample <= 32 && low <= spec.sample_rate <= high
            ==> result is Ok,
{
}

/// Splitting keeps every level of a single channel, and of several the first two of each whole frame.
pub proof fn splitting_keeps_the_first_two_channels<T: Copy>(
    channels: u16,
    raw: Vec<T>,
    frames: Frames<T>,
)
    requires
        call_ensures(deinterleave::<T>, (channels, raw), frames),
        channels >= 1,
    ensures
        channels == 1 ==> (frames matches Frames::Mono(data) && data@ == raw@),
        channels >= 2 ==> (frames matches Frames::Stereo(data) && data@.len() == raw@.len()
            / channels as nat && (forall|i: int|
            0 <= i < data@.len() ==> (#[trigger] data@[i])@[0] == raw@[i * channels] && data@[i]@[1]
                == raw@[i * channels + 1])),
{
}

/// Full scale is two to the power of one less than the depth, and every integer sample becomes a level
/// against it, one for one.
pub proof fn levels_are_against_full_scale<T, I: Fn(i32, i64) -> T>(
    values: &Vec<i32>,
    bits: u16,
    from_int: I,
    raw: Vec<T>,
    scale: i64,
    i: int,
)
    requires
        call_ensures(levels_from::<T, I>, (values, bits, from_int), raw),
        call_ensures(full_scale, (bits,), scale),
    ensures
        scale == pow2((bits - 1) as nat),
        raw@.len() == values@.len(),
        0 <= i < values@.len() ==> call_ensures(from_int, (values@[i], scale), raw@[i]),
{
}

/// A failure to read is behind a refusal exactly where the decoder ran out of bytes.
pub proof fn a_failure_is_behind_running_short(
    refusal: Refusal,
    failure: Option<hound::Error>,
    err: hound::Error,
)
    requires
        call_ensures(reason_for, (refusal, failure), err),
    ensures
        refusal matches Refusal::Rejected(own) ==> err == own,
        refusal matches Refusal::Short(own) ==> (failure is None ==> err == own),
        refusal is Short ==> (failure matches Some(failed) ==> err == failed),
{
}

/// The decoder's error comes out of a failure as it went in.
pub proof fn the_cause_is_kept(err: hound::Error, fault: DecodeError, cause: Cause, inner: hound::Error)
    requires
        call_ensures(DecodeError::from_hound, (err,), fault),
        fault matches DecodeError::Unreadable(found) ==> found == cause,
        call_ensures(Cause::into_inner, (cause,), inner),
    ensures
        fault is Unreadable,
        inner == err,
{
}

/// A file decodes to its header and its levels, or to the same failure that reading a sample gives.
pub proof fn decoding_gives_the_header_and_the_levels<
    T,
    I: Fn(i32, i64) -> T,
    F: Fn(&[u8]) -> Result<Vec<T>, Refusal>,
>(
    contents: Contents,
    low: u32,
    high: u32,
    from_int: I,
    read_floats: F,
    result: Result<(WavSpec, Vec<T>), DecodeError>,
    i: int,
)
    requires
        call_ensures(decode::<T, I, F>, (contents, low, high, from_int, read_floats), result),
    ensures
        result matches Ok((spec, raw)) ==> {
            &&& wav_header(contents.bytes@) == Outcome::Read(spec)
            &&& spec.channels >= 1
            &&& 1 <= spec.bits_per_sample <= 32
            &&& low <= spec.sample_rate <= high
            &&& spec.sample_format is Int ==> (wav_int_samples(contents.bytes@) matches Outcome::Read(
                values,
            ) && values.len() == raw@.len() && (0 <= i < raw@.len() ==> call_ensures(
                from_int,
                (values[i], pow2((spec.bits_per_sample - 1) as nat) as i64),
                raw@[i],
            )))
            &&& spec.sample_format is Float ==> exists|bytes: &[u8]|
                bytes@ == contents.bytes@ && #[trigger] call_ensures(
                    read_floats,
                    (bytes,),
                    Ok::<Vec<T>, Refusal>(raw),
                )
        },
        wav_header(contents.bytes@) matches Outcome::Read(spec) ==> (spec.channels == 0 ==> result
            == Err::<(WavSpec, Vec<T>), DecodeError>(DecodeError::NoChannels)),
        wav_header(contents.bytes@) matches Outcome::Read(spec) ==> (spec.channels > 0 && !(1
            <= spec.bits_per_sample <= 32) ==> result == Err::<(WavSpec, Vec<T>), DecodeError>(
            DecodeError::BitDepth(spec.bits_per_sample),
        )),
        wav_header(contents.bytes@) matches Outcome::Read(spec) ==> (spec.channels > 0 && 1
            <= spec.bits_per_sample <= 32 && !(low <= spec.sample_rate <= high) ==> result == Err::<
            (WavSpec, Vec<T>),
            DecodeError,
        >(DecodeError::SampleRate(spec.sample_rate))),
        wav_header(contents.bytes@) matches Outcome::Read(spec) ==> (spec.channels > 0 && 1
            <= spec.bits_per_sample <= 32 && low <= spec.sample_rate <= high && spec.sample_format
            is Int && wav_int_samples(contents.bytes@) is Read ==> result is Ok),
        !(wav_header(contents.bytes@) is Read) ==> (result matches Err(DecodeError::Unreadable(_))),
{
    let bytes = choose|bytes: &[u8]|
        bytes@ == contents.bytes@ && #[trigger] is_decoding(
            bytes,
            contents.failure,
            low,
            high,
            from_int,
            read_floats,
            result,
        );
    match result {
        Ok((spec, raw)) => {
            if spec.sample_format is Int {
                if 0 <= i < raw@.len() {
                    let level = raw@[i];
                    assert(scale_of(spec.bits_per_sample) == pow2(
                        (spec.bits_per_sample - 1) as nat,
                    ) as i64);
                }
            } else {
                assert(call_ensures(read_floats, (bytes,), Ok::<Vec<T>, Refusal>(raw)));
            }
        },
        Err(_) => {},
    }
}

/// More bytes are asked for exactly where decoding ran out of them: in the header, or, behind one that
/// will load, in the samples.
pub proof fn more_is_needed_where_the_decoder_runs_short<T, F: Fn(&[u8]) -> Result<Vec<T>, Refusal>>(
    bytes: &[u8],
    low: u32,
    high: u32,
    read_floats: F,
    short: bool,
)
    requires
        call_ensures(needs_more::<T, F>, (bytes, low, high, read_floats), short),
    ensures
        wav_header(bytes@) is Short ==> short,
        wav_header(bytes@) is Rejected ==> !short,
        wav_header(bytes@) matches Outcome::Read(spec) ==> (spec.channels == 0 || !(1
            <= spec.bits_per_sample <= 32) || !(low <= spec.sample_rate <= high) ==> !short),
        wav_header(bytes@) matches Outcome::Read(spec) ==> (spec.channels > 0 && 1
            <= spec.bits_per_sample <= 32 && low <= spec.sample_rate <= high && spec.sample_format
            is Int ==> (short <==> wav_int_samples(bytes@) is Short)),
        wav_header(bytes@) matches Outcome::Read(spec) ==> (spec.channels > 0 && 1
            <= spec.bits_per_sample <= 32 && low <= spec.sample_rate <= high && spec.sample_format
            is Float ==> exists|floats: Result<Vec<T>, Refusal>| #[trigger]
            call_ensures(read_floats, (bytes,), floats) && (short <==> floats matches Err(
                Refusal::Short(_),
            ))),
{
}

/// A blip is a quarter of a second of its wave, mono, at the rate it was asked for.
pub proof fn a_blip_is_a_quarter_of_a_second<T: Copy, W: Fn(usize) -> T>(
    sample_rate: u32,
    wave: W,
    sample: Sample<T>,
    rate: u32,
    source_rate: u32,
    channels: u16,
    frames: &Frames<T>,
    i: int,
)
    requires
        call_ensures(Sample::<T>::blip::<W>, (sample_rate, wave), sample),
        call_ensures(Sample::<T>::sample_rate, (&sample,), rate),
        call_ensures(Sample::<T>::source_sample_rate, (&sample,), source_rate),
        call_ensures(Sample::<T>::source_channels, (&sample,), channels),
        call_ensures(Sample::<T>::frames, (&sample,), frames),
    ensures
        rate == sample_rate,
        source_rate == sample_rate,
        channels == 1,
        frames matches Frames::Mono(data) && data@.len() == sample_rate / 4 && (0 <= i < data@.len()
            ==> call_ensures(wave, (i as usize,), data@[i])),
{
    if 0 <= i < frames.count() {
        let level = frames.level(i, 0);
        assert(call_ensures(wave, (i as usize,), sample.data().level(i, 0)));
    }
}

/// Loading for playback by hand takes any rate but zero, and gives a sample at the rate the header
/// declares; the header is checked, and integer samples become levels, as for any other file.
pub proof fn a_sample_for_live_play_is_at_the_rate_of_its_file<
    T: Copy,
    I: Fn(i32, i64) -> T,
    F: Fn(&[u8]) -> Result<Vec<T>, Refusal>,
>(
    contents: Contents,
    from_int: I,
    read_floats: F,
    result: Result<live::Sample<T>, DecodeError>,
    spec: WavSpec,
)
    requires
        call_ensures(
            live::Sample::<T>::load_wav::<I, F>,
            (Ok(contents), from_int, read_floats),
            result,
        ),
        wav_header(contents.bytes@) == Outcome::Read(spec),
    ensures
        spec.channels == 0 ==> result == Err::<live::Sample<T>, DecodeError>(
            DecodeError::NoChannels,
        ),
        spec.channels > 0 && !(1 <= spec.bits_per_sample <= 32) ==> result == Err::<
            live::Sample<T>,
            DecodeError,
        >(DecodeError::BitDepth(spec.bits_per_sample)),
        spec.channels > 0 && 1 <= spec.bits_per_sample <= 32 && spec.sample_rate == 0 ==> result
            == Err::<live::Sample<T>, DecodeError>(DecodeError::SampleRate(0)),
        result matches Ok(sample) ==> sample.sample_rate == spec.sample_rate
            && sample.source_channels == spec.channels,
        spec.channels > 0 && 1 <= spec.bits_per_sample <= 32 && spec.sample_rate > 0
            && spec.sample_format is Int ==> match wav_int_samples(contents.bytes@) {
            Outcome::Read(values) => result matches Ok(sample) && match sample.frames {
                Frames::Mono(data) => spec.channels == 1 && data@.len() == values.len() && (forall|
                    i: int,
                |
                    0 <= i < values.len() ==> call_ensures(
                        from_int,
                        (values[i], pow2((spec.bits_per_sample - 1) as nat) as i64),
                        #[trigger] data@[i],
                    )),
                Frames::Stereo(data) => spec.channels >= 2 && data@.len() == values.len()
                    / spec.channels as nat && (forall|i: int, side: int|
                    0 <= i < data@.len() && 0 <= side < 2 ==> call_ensures(
                        from_int,
                        (
                            values[i * spec.channels + side],
                            pow2((spec.bits_per_sample - 1) as nat) as i64,
                        ),
                        #[trigger] data@[i]@[side],
                    )),
            },
            _ => result matches Err(DecodeError::Unreadable(_)),
        },
{
    let (bytes, decoded) = choose|bytes: &[u8], decoded: Result<(WavSpec, Vec<T>), DecodeError>|
        bytes@ == contents.bytes@ && #[trigger] is_decoding(
            bytes,
            contents.failure,
            1,
            u32::MAX,
            from_int,
            read_floats,
            decoded,
        ) && match decoded {
            Ok((spec, raw)) => {
                &&& result matches Ok(sample)
                &&& is_deinterleaved(spec.channels, raw@, sample.frames)
                &&& sample.sample_rate == spec.sample_rate
                &&& sample.source_channels == spec.channels
            },
            Err(fault) => result == Err::<live::Sample<T>, DecodeError>(fault),
        };
    if spec.channels > 0 && 1 <= spec.bits_per_sample <= 32 && spec.sample_rate > 0
        && spec.sample_format is Int && wav_int_samples(contents.bytes@) is Read {
        let raw = decoded->Ok_0.1@;
        let values = wav_int_samples(contents.bytes@)->Read_0;
        match result->Ok_0.frames {
            Frames::Mono(data) => {
                assert forall|i: int| 0 <= i < values.len() implies call_ensures(
                    from_int,
                    (values[i], pow2((spec.bits_per_sample - 1) as nat) as i64),
                    #[trigger] data@[i],
                ) by {
                    let level = raw[i];
                }
            },
            Frames::Stereo(data) => {
                assert forall|i: int, side: int|
                    0 <= i < data@.len() && 0 <= side < 2 implies call_ensures(
                    from_int,
                    (
                        values[i * spec.channels + side],
                        pow2((spec.bits_per_sample - 1) as nat) as i64,
                    ),
                    #[trigger] data@[i]@[side],
                ) by {
                    let frame = data@[i];
                    let place = i * spec.channels + side;
                    lemma_place_is_there(values.len(), spec.channels, i, side);
                    assert(raw[place] == frame@[side]);
                }
            },
        }
    }
}

/// `frames` hold `raw` as a file of `channels` channels lays it out: all of it, mono, for one channel, and
/// for more the first two levels of every whole frame.
pub open spec fn lays_out<T>(raw: Seq<T>, channels: u16, frames: Frames<T>) -> bool {
    match frames {
        Frames::Mono(data) => channels == 1 && data@ == raw,
        Frames::Stereo(data) => {
            &&& channels >= 2
            &&& data@.len() == raw.len() / channels as nat
            &&& forall|i: int|
                0 <= i < data@.len() ==> (#[trigger] data@[i])@[0] == raw[i * channels]
                    && data@[i]@[1] == raw[i * channels + 1]
        },
    }
}

/// `err` is behind `refusal`: the failure to read where the decoder ran short because of it, and the
/// decoder's own error in all other cases.
pub open spec fn is_behind(
    refusal: Refusal,
    failure: Option<hound::Error>,
    err: hound::Error,
) -> bool {
    match (refusal, failure) {
        (Refusal::Short(own), Some(failed)) => err == failed,
        (Refusal::Short(own), None) => err == own,
        (Refusal::Rejected(own), _) => err == own,
    }
}

/// `result` is what `contents` come to, where rates of `low..=high` are taken: the rate, the channel count
/// and the frames, or what is wrong.
pub open spec fn comes_to<T, I: Fn(i32, i64) -> T, F: Fn(&[u8]) -> Result<Vec<T>, Refusal>>(
    contents: Contents,
    low: u32,
    high: u32,
    from_int: I,
    read_floats: F,
    result: Result<(u32, u16, Frames<T>), DecodeError>,
) -> bool {
    match wav_header(contents.bytes@) {
        Outcome::Read(spec) => if spec.channels == 0 {
            result matches Err(DecodeError::NoChannels)
        } else if spec.bits_per_sample == 0 || spec.bits_per_sample > 32 {
            result matches Err(DecodeError::BitDepth(bits)) && bits == spec.bits_per_sample
        } else if spec.sample_rate < low || spec.sample_rate > high {
            result matches Err(DecodeError::SampleRate(rate)) && rate == spec.sample_rate
        } else {
            match spec.sample_format {
                SampleFormat::Int => match wav_int_samples(contents.bytes@) {
                    Outcome::Read(values) => {
                        &&& result matches Ok((rate, channels, frames))
                        &&& rate == spec.sample_rate
                        &&& channels == spec.channels
                        &&& exists|raw: Seq<T>| #[trigger]
                            lays_out(raw, channels, frames) && raw.len() == values.len() && (forall|
                                i: int,
                            |
                                0 <= i < raw.len() ==> call_ensures(
                                    from_int,
                                    (values[i], pow2((spec.bits_per_sample - 1) as nat) as i64),
                                    #[trigger] raw[i],
                                ))
                    },
                    refused => {
                        &&& result matches Err(DecodeError::Unreadable(cause))
                        &&& exists|bytes: &[u8], refusal: Refusal|
                            bytes@ == contents.bytes@ && #[trigger] refuses_int_samples(
                                bytes,
                                refusal,
                            ) && (refusal is Short <==> refused is Short) && is_behind(
                                refusal,
                                contents.failure,
                                cause.error(),
                            )
                    },
                },
                SampleFormat::Float => exists|bytes: &[u8], floats: Result<Vec<T>, Refusal>|
                    bytes@ == contents.bytes@ && #[trigger] call_ensures(
                        read_floats,
                        (bytes,),
                        floats,
                    ) && match floats {
                        Ok(raw) => result matches Ok((rate, channels, frames)) && rate
                            == spec.sample_rate && channels == spec.channels && lays_out(
                            raw@,
                            channels,
                            frames,
                        ),
                        Err(refusal) => result matches Err(DecodeError::Unreadable(cause))
                            && is_behind(refusal, contents.failure, cause.error()),
                    },
            }
        },
        refused => {
            &&& result matches Err(DecodeError::Unreadable(cause))
            &&& exists|bytes: &[u8], refusal: Refusal|
                bytes@ == contents.bytes@ && #[trigger] refuses_header(bytes, refusal) && (
                refusal is Short <==> refused is Short) && is_behind(
                    refusal,
                    contents.failure,
                    cause.error(),
                )
        },
    }
}

/// What decoding gives, once laid out, is what the contents come to.
proof fn lemma_comes_to<T, I: Fn(i32, i64) -> T, F: Fn(&[u8]) -> Result<Vec<T>, Refusal>>(
    contents: Contents,
    bytes: &[u8],
    low: u32,
    high: u32,
    from_int: I,
    read_floats: F,
    decoded: Result<(WavSpec, Vec<T>), DecodeError>,
    result: Result<(u32, u16, Frames<T>), DecodeError>,
)
    requires
        bytes@ == contents.bytes@,
        is_decoding(bytes, contents.failure, low, high, from_int, read_floats, decoded),
        match decoded {
            Ok((spec, raw)) => result matches Ok((rate, channels, frames)) && rate
                == spec.sample_rate && channels == spec.channels && is_deinterleaved(
                spec.channels,
                raw@,
                frames,
            ),
            Err(fault) => result matches Err(found) && found == fault,
        },
    ensures
        comes_to(contents, low, high, from_int, read_floats, result),
{
    match decoded {
        Ok((spec, raw)) => {
            let frames = result->Ok_0.2;
            assert(lays_out(raw@, spec.channels, frames));
            match spec.sample_format {
                SampleFormat::Int => {
                    assert(scale_of(spec.bits_per_sample) == pow2(
                        (spec.bits_per_sample - 1) as nat,
                    ) as i64);
                },
                SampleFormat::Float => {
                    assert(call_ensures(read_floats, (bytes,), Ok::<Vec<T>, Refusal>(raw)));
                },
            }
        },
        Err(fault) => {},
    }
}

/// Reading a sample gives what the contents come to, at rates from 1,000 to 768,000: the rate, which is
/// that of the source too, the channel count and the frames, or what is wrong.
pub proof fn reading_gives_what_the_contents_come_to<
    T: Copy,
    I: Fn(i32, i64) -> T,
    F: Fn(&[u8]) -> Result<Vec<T>, Refusal>,
>(
    contents: Contents,
    from_int: I,
    read_floats: F,
    result: Result<Sample<T>, DecodeError>,
    rate: u32,
    source_rate: u32,
    channels: u16,
    frames: &Frames<T>,
)
    requires
        call_ensures(
            Sample::<T>::from_reader::<I, F>,
            (contents, from_int, read_floats),
            result,
        ),
        result matches Ok(sample) ==> {
            &&& call_ensures(Sample::<T>::sample_rate, (&sample,), rate)
            &&& call_ensures(Sample::<T>::source_sample_rate, (&sample,), source_rate)
            &&& call_ensures(Sample::<T>::source_channels, (&sample,), channels)
            &&& call_ensures(Sample::<T>::frames, (&sample,), frames)
        },
    ensures
        result is Ok ==> source_rate == rate,
        comes_to(
            contents,
            1_000,
            768_000,
            from_int,
            read_floats,
            match result {
                Ok(_) => Ok((rate, channels, *frames)),
                Err(fault) => Err(fault),
            },
        ),
{
    let (bytes, decoded) = choose|bytes: &[u8], decoded: Result<(WavSpec, Vec<T>), DecodeError>|
        bytes@ == contents.bytes@ && #[trigger] is_decoding(
            bytes,
            contents.failure,
            1_000,
            768_000,
            from_int,
            read_floats,
            decoded,
        ) && match decoded {
            Ok((spec, raw)) => result matches Ok(sample) && is_decoded(spec, raw@, sample),
            Err(fault) => result == Err::<Sample<T>, DecodeError>(fault),
        };
    lemma_comes_to(
        contents,
        bytes,
        1_000,
        768_000,
        from_int,
        read_floats,
        decoded,
        match result {
            Ok(_) => Ok((rate, channels, *frames)),
            Err(fault) => Err(fault),
        },
    );
}

/// Loading from a path that opens gives what the contents come to, the path with any failure.
pub proof fn loading_gives_what_the_contents_come_to<
    T: Copy,
    P,
    E,
    I: Fn(i32, i64) -> T,
    F: Fn(&[u8]) -> Result<Vec<T>, Refusal>,
>(
    path: P,
    contents: Contents,
    from_int: I,
    read_floats: F,
    result: Result<Sample<T>, LoadError<P, E>>,
    fault: DecodeError,
    rate: u32,
    source_rate: u32,
    channels: u16,
    frames: &Frames<T>,
)
    requires
        call_ensures(
            Sample::<T>::load_wav::<P, E, I, F>,
            (path, Ok(contents), from_int, read_floats),
            result,
        ),
        result matches Ok(sample) ==> {
            &&& call_ensures(Sample::<T>::sample_rate, (&sample,), rate)
            &&& call_ensures(Sample::<T>::source_sample_rate, (&sample,), source_rate)
            &&& call_ensures(Sample::<T>::source_channels, (&sample,), channels)
            &&& call_ensures(Sample::<T>::frames, (&sample,), frames)
        },
        result matches Err(LoadError::Decode { source, .. }) ==> source == fault,
    ensures
        result is Ok ==> source_rate == rate,
        result matches Err(failed) ==> (failed matches LoadError::Decode { path: named, .. } && named
            == path),
        comes_to(
            contents,
            1_000,
            768_000,
            from_int,
            read_floats,
            match result {
                Ok(_) => Ok((rate, channels, *frames)),
                Err(_) => Err(fault),
            },
        ),
{
    let read = choose|read: Result<Sample<T>, DecodeError>| #[trigger]
        is_read(contents, from_int, read_floats, read) && result == match read {
            Ok(sample) => Ok::<Sample<T>, LoadError<P, E>>(sample),
            Err(fault) => Err(LoadError::Decode { path, source: fault }),
        };
    let (bytes, decoded) = choose|bytes: &[u8], decoded: Result<(WavSpec, Vec<T>), DecodeError>|
        bytes@ == contents.bytes@ && #[trigger] is_decoding(
            bytes,
            contents.failure,
            1_000,
            768_000,
            from_int,
            read_floats,
            decoded,
        ) && match decoded {
            Ok((spec, raw)) => read matches Ok(sample) && is_decoded(spec, raw@, sample),
            Err(fault) => read == Err::<Sample<T>, DecodeError>(fault),
        };
    lemma_comes_to(
        contents,
        bytes,
        1_000,
        768_000,
        from_int,
        read_floats,
        decoded,
        match result {
            Ok(_) => Ok((rate, channels, *frames)),
            Err(_) => Err(fault),
        },
    );
}

/// Loading for playback by hand gives what the contents come to, at any rate but zero.
pub proof fn loading_live_gives_what_the_contents_come_to<
    T: Copy,
    I: Fn(i32, i64) -> T,
    F: Fn(&[u8]) -> Result<Vec<T>, Refusal>,
>(
    contents: Contents,
    from_int: I,
    read_floats: F,
    result: Result<live::Sample<T>, DecodeError>,
)
    requires
        call_ensures(
            live::Sample::<T>::load_wav::<I, F>,
            (Ok(contents), from_int, read_floats),
            result,
        ),
    ensures
        comes_to(
            contents,
            1,
            u32::MAX,
            from_int,
            read_floats,
            match result {
                Ok(sample) => Ok((sample.sample_rate, sample.source_channels, sample.frames)),
                Err(fault) => Err(fault),
            },
        ),
{
    let (bytes, decoded) = choose|bytes: &[u8], decoded: Result<(WavSpec, Vec<T>), DecodeError>|
        bytes@ == contents.bytes@ && #[trigger] is_decoding(
            bytes,
            contents.failure,
            1,
            u32::MAX,
            from_int,
            read_floats,
            decoded,
        ) && match decoded {
            Ok((spec, raw)) => {
                &&& result matches Ok(sample)
                &&& is_deinterleaved(spec.channels, raw@, sample.frames)
                &&& sample.sample_rate == spec.sample_rate
                &&& sample.source_channels == spec.channels
            },
            Err(fault) => result == Err::<live::Sample<T>, DecodeError>(fault),
        };
    lemma_comes_to(
        contents,
        bytes,
        1,
        u32::MAX,
        from_int,
        read_floats,
        decoded,
        match result {
            Ok(sample) => Ok((sample.sample_rate, sample.source_channels, sample.frames)),
            Err(fault) => Err(fault),
        },
    );
}

/// A file that does not open for live play is unreadable, for the reason it did not open.
pub proof fn a_file_that_does_not_open_is_unreadable<
    T: Copy,
    I: Fn(i32, i64) -> T,
    F: Fn(&[u8]) -> Result<Vec<T>, Refusal>,
>(
    err: hound::Error,
    from_int: I,
    read_floats: F,
    result: Result<live::Sample<T>, DecodeError>,
    cause: Cause,
    inner: hound::Error,
)
    requires
        call_ensures(
            live::Sample::<T>::load_wav::<I, F>,
            (Err(err), from_int, read_floats),
            result,
        ),
        result matches Err(DecodeError::Unreadable(found)) ==> found == cause,
        call_ensures(Cause::into_inner, (cause,), inner),
    ensures
        result matches Err(DecodeError::Unreadable(_)),
        inner == err,
{
}

/// A blip for live play is a quarter of a second of its wave, mono, at the rate it was asked for.
pub proof fn a_live_blip_is_a_quarter_of_a_second<T: Copy, W: Fn(usize) -> T>(
    sample_rate: u32,
    wave: W,
    sample: live::Sample<T>,
    i: int,
)
    requires
        call_ensures(live::Sample::<T>::blip::<W>, (sample_rate, wave), sample),
    ensures
        sample.sample_rate == sample_rate,
        sample.source_channels == 1,
        sample.frames matches Frames::Mono(data) && data@.len() == sample_rate / 4 && (0 <= i
            < data@.len() ==> call_ensures(wave, (i as usize,), data@[i])),
{
    if 0 <= i < sample.frames.count() {
        assert(call_ensures(wave, (i as usize,), sample.frames.level(i, 0)));
    }
}

} // verus!
