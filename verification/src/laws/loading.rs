//! Laws of loading: what comes of a file, however far it could be read.
use vstd::prelude::*;

use crate::frames::Frames;
use crate::sample::{LoadError, Sample};
#[allow(unused_imports)]
use crate::sample::{is_decoded, is_loaded, is_read};
use crate::wav::{Contents, DecodeError, Refusal, WavSpec};
#[allow(unused_imports)]
use crate::wav::{
    header_ok, is_decoding, is_deinterleaved, refuses_header, refuses_int_samples, scale_of,
    wav_header, wav_int_samples, Outcome, MAX_SAMPLE_RATE, MIN_SAMPLE_RATE,
};

verus! {

/// A failure to read a stream comes up only where it is reached. Whatever was decoded, or found wrong
/// with the header, stays so whether reading failed past the bytes it took or not; and where the
/// decoder runs out of bytes because reading failed, that failure is the cause.
pub proof fn a_failure_matters_only_where_it_is_reached<
    T,
    I: Fn(i32, i64) -> T,
    F: Fn(&[u8]) -> Result<Vec<T>, Refusal>,
>(
    bytes: &[u8],
    failure: Option<hound::Error>,
    other: Option<hound::Error>,
    low: u32,
    high: u32,
    from_int: I,
    read_floats: F,
    result: Result<(WavSpec, Vec<T>), DecodeError>,
)
    requires
        is_decoding(bytes, failure, low, high, from_int, read_floats, result),
    ensures
        !(result matches Err(DecodeError::Unreadable(_))) ==> is_decoding(
            bytes,
            other,
            low,
            high,
            from_int,
            read_floats,
            result,
        ),
        wav_header(bytes@) is Short ==> (failure matches Some(failed) ==> (result matches Err(
            DecodeError::Unreadable(cause),
        ) && cause.error() == failed)),
        wav_header(bytes@) matches Outcome::Read(spec) ==> (header_ok(spec, low, high)
            && spec.sample_format is Int && wav_int_samples(bytes@) is Short ==> (
        failure matches Some(failed) ==> (result matches Err(DecodeError::Unreadable(cause))
            && cause.error() == failed))),
{
}

/// Each of the functions that decoding is handed has one result for one argument.
pub open spec fn decodes_in_one_way<
    T,
    I: Fn(i32, i64) -> T,
    F: Fn(&[u8]) -> Result<Vec<T>, Refusal>,
>(from_int: I, read_floats: F) -> bool {
    &&& forall|value: i32, scale: i64, a: T, b: T| #[trigger]
        call_ensures(from_int, (value, scale), a) && #[trigger] call_ensures(
            from_int,
            (value, scale),
            b,
        ) ==> a == b
    &&& forall|bytes: &[u8], a: Result<Vec<T>, Refusal>, b: Result<Vec<T>, Refusal>| #[trigger]
        call_ensures(read_floats, (bytes,), a) && #[trigger] call_ensures(read_floats, (bytes,), b)
            ==> a == b
}

/// The decoder has one error for the same bytes.
pub open spec fn refuses_in_one_way() -> bool {
    &&& forall|bytes: &[u8], a: Refusal, b: Refusal| #[trigger]
        refuses_header(bytes, a) && #[trigger] refuses_header(bytes, b) ==> a == b
    &&& forall|bytes: &[u8], a: Refusal, b: Refusal| #[trigger]
        refuses_int_samples(bytes, a) && #[trigger] refuses_int_samples(bytes, b) ==> a == b
}

/// Two samples hold the same material.
pub open spec fn same_sample<T>(a: Sample<T>, b: Sample<T>) -> bool {
    &&& a.data() is Mono <==> b.data() is Mono
    &&& a.data().channel(0) == b.data().channel(0)
    &&& a.data().channel(1) == b.data().channel(1)
    &&& a.rate() == b.rate()
    &&& a.channels() == b.channels()
    &&& a.source_rate() == b.source_rate()
}

/// Two failures to decode are the same in what they say, and, where the decoder has one error for the
/// same bytes, down to the cause.
pub open spec fn same_fault(a: DecodeError, b: DecodeError) -> bool {
    match a {
        DecodeError::Unreadable(cause) => b matches DecodeError::Unreadable(other) && (
        refuses_in_one_way() ==> other.error() == cause.error()),
        _ => a == b,
    }
}

/// Two attempts to read a sample came to the same.
pub open spec fn same_reading<T>(
    a: Result<Sample<T>, DecodeError>,
    b: Result<Sample<T>, DecodeError>,
) -> bool {
    match a {
        Ok(sample) => b matches Ok(other) && same_sample(sample, other),
        Err(fault) => b matches Err(other) && same_fault(fault, other),
    }
}

/// The same contents come to the same sample, or to the same failure: of the same kind, and with the
/// same depth or rate where it names one.
pub proof fn reading_the_same_contents_agrees<
    T,
    I: Fn(i32, i64) -> T,
    F: Fn(&[u8]) -> Result<Vec<T>, Refusal>,
>(
    contents: Contents,
    from_int: I,
    read_floats: F,
    a: Result<Sample<T>, DecodeError>,
    b: Result<Sample<T>, DecodeError>,
)
    requires
        decodes_in_one_way(from_int, read_floats),
        is_read(contents, from_int, read_floats, a),
        is_read(contents, from_int, read_floats, b),
    ensures
        same_reading(a, b),
{
    let (x, p) = choose|bytes: &[u8], decoded: Result<(WavSpec, Vec<T>), DecodeError>|
        bytes@ == contents.bytes@ && #[trigger] is_decoding(
            bytes,
            contents.failure,
            MIN_SAMPLE_RATE,
            MAX_SAMPLE_RATE,
            from_int,
            read_floats,
            decoded,
        ) && match decoded {
            Ok((spec, raw)) => a matches Ok(sample) && is_decoded(spec, raw@, sample),
            Err(fault) => a == Err::<Sample<T>, DecodeError>(fault),
        };
    let (y, q) = choose|bytes: &[u8], decoded: Result<(WavSpec, Vec<T>), DecodeError>|
        bytes@ == contents.bytes@ && #[trigger] is_decoding(
            bytes,
            contents.failure,
            MIN_SAMPLE_RATE,
            MAX_SAMPLE_RATE,
            from_int,
            read_floats,
            decoded,
        ) && match decoded {
            Ok((spec, raw)) => b matches Ok(sample) && is_decoded(spec, raw@, sample),
            Err(fault) => b == Err::<Sample<T>, DecodeError>(fault),
        };
    assert(x@ =~= y@);
    assert(x =~= y);
    lemma_decoding_agrees(x, contents.failure, from_int, read_floats, p, q);
    match (p, q) {
        (Ok((spec, raw)), Ok((_, other))) => {
            lemma_deinterleaving_agrees(
                spec.channels,
                raw@,
                a.unwrap().data(),
                b.unwrap().data(),
            );
        },
        _ => {},
    }
}

/// The same bytes, decoded in one way, come to the same header and levels or the same failure.
proof fn lemma_decoding_agrees<
    T,
    I: Fn(i32, i64) -> T,
    F: Fn(&[u8]) -> Result<Vec<T>, Refusal>,
>(
    bytes: &[u8],
    failure: Option<hound::Error>,
    from_int: I,
    read_floats: F,
    p: Result<(WavSpec, Vec<T>), DecodeError>,
    q: Result<(WavSpec, Vec<T>), DecodeError>,
)
    requires
        decodes_in_one_way(from_int, read_floats),
        is_decoding(
            bytes,
            failure,
            MIN_SAMPLE_RATE,
            MAX_SAMPLE_RATE,
            from_int,
            read_floats,
            p,
        ),
        is_decoding(
            bytes,
            failure,
            MIN_SAMPLE_RATE,
            MAX_SAMPLE_RATE,
            from_int,
            read_floats,
            q,
        ),
    ensures
        match p {
            Ok((spec, raw)) => q matches Ok(other) && other.0 == spec && other.1@ == raw@,
            Err(fault) => q matches Err(other) && same_fault(fault, other),
        },
{
    match (p, q) {
        (Ok((spec, raw)), Ok((_, other))) => {
            match wav_int_samples(bytes@) {
                Outcome::Read(values) => {
                    if spec.sample_format is Int {
                        assert forall|i: int| 0 <= i < raw@.len() implies raw@[i] == other@[i] by {
                            let scale = scale_of(spec.bits_per_sample);
                            assert(call_ensures(from_int, (values[i], scale), raw@[i]));
                            assert(call_ensures(from_int, (values[i], scale), other@[i]));
                        }
                        assert(raw@ =~= other@);
                    }
                },
                _ => {},
            }
        },
        _ => {},
    }
}

/// The same interleaved levels come apart into the same frames.
proof fn lemma_deinterleaving_agrees<T>(
    channels: u16,
    raw: Seq<T>,
    a: Frames<T>,
    b: Frames<T>,
)
    requires
        is_deinterleaved(channels, raw, a),
        is_deinterleaved(channels, raw, b),
    ensures
        a is Mono <==> b is Mono,
        a.channel(0) == b.channel(0),
        a.channel(1) == b.channel(1),
{
    assert(a.count() == b.count());
    assert forall|i: int| 0 <= i < a.count() implies a.level(i, 0) == b.level(i, 0) && a.level(i, 1)
        == b.level(i, 1) by {}
    assert(a.channel(0) =~= b.channel(0));
    assert(a.channel(1) =~= b.channel(1));
}

/// Loading a file is decoding what it holds: where the path opens, [`Sample::load_wav`] gives the
/// sample that [`Sample::from_reader`] gives for the same contents, or its failure together with the
/// path. Only the cause of an unreadable file is the decoder's to choose each time.
pub proof fn loading_is_reading_what_opened<
    T,
    P,
    E,
    I: Fn(i32, i64) -> T,
    F: Fn(&[u8]) -> Result<Vec<T>, Refusal>,
>(
    path: P,
    contents: Contents,
    from_int: I,
    read_floats: F,
    read: Result<Sample<T>, DecodeError>,
    loaded: Result<Sample<T>, LoadError<P, E>>,
)
    requires
        decodes_in_one_way(from_int, read_floats),
        is_read(contents, from_int, read_floats, read),
        is_loaded(path, Ok::<Contents, E>(contents), from_int, read_floats, loaded),
    ensures
        match read {
            Ok(sample) => loaded matches Ok(other) && same_sample(sample, other),
            Err(fault) => loaded matches Err(LoadError::Decode { path: p, source }) && p == path
                && same_fault(fault, source),
        },
{
    let again = choose|again: Result<Sample<T>, DecodeError>| #[trigger]
        is_read(contents, from_int, read_floats, again) && loaded == match again {
            Ok(sample) => Ok::<Sample<T>, LoadError<P, E>>(sample),
            Err(fault) => Err(LoadError::Decode { path, source: fault }),
        };
    reading_the_same_contents_agrees(contents, from_int, read_floats, read, again);
}

} // verus!
