//! What a rate conversion makes of a sample, said of the calls themselves.
use core::ops::{Add, Mul};
use vstd::prelude::*;

use crate::frames::{Frame, Frames};
#[allow(unused_imports)]
use crate::laws::arithmetic::{
    a_sum_from_elsewhere_takes_in_every_level, a_sum_takes_in_every_level, adds_like,
    multiplies_like,
};
#[allow(unused_imports)]
use crate::level::{multiplies, reads_as, sums_from, sums_to};
use crate::resample::{interpolate, kernel, weigh, weigh_pair, Interpolator};
#[allow(unused_imports)]
use crate::resample::{
    are_terms, are_weights, is_kernel, is_scaled, is_term, reads_level, reads_pair, tap_count,
    weighs_from, weighs_to,
};
use crate::sample::Sample;

verus! {

/// What the host's functions come to, as functions: the source frames in reach of an output frame, how
/// much each of them weighs there, a weight as a level, and one over a sum of weights as a level.
#[verifier::reject_recursive_types(W)]
#[verifier::reject_recursive_types(T)]
pub struct Exact<W, T> {
    pub reach: spec_fn(usize) -> (isize, isize),
    pub weight: spec_fn(usize, isize) -> W,
    pub narrow: spec_fn(W) -> T,
    pub invert: spec_fn(W) -> T,
    pub wzero: W,
    pub wplus: spec_fn(W, W) -> W,
    pub zero: T,
    pub plus: spec_fn(T, T) -> T,
    pub times: spec_fn(T, T) -> T,
}

/// The host and the two number types come to what `exact` says.
pub open spec fn computes_like<
    W: Default + Add<Output = W>,
    T: Default + Add<Output = T> + Mul<Output = T>,
    R: Fn(usize) -> (isize, isize),
    F: Fn(usize, isize) -> W,
    N: Fn(W) -> T,
    I: Fn(W) -> T,
>(host: Interpolator<T, R, F, N, I>, exact: Exact<W, T>) -> bool {
    &&& forall|i: usize, r: (isize, isize)| #[trigger]
        call_ensures(host.reach, (i,), r) ==> r == (exact.reach)(i)
    &&& forall|i: usize, j: isize, r: W| #[trigger]
        call_ensures(host.weight, (i, j), r) ==> r == (exact.weight)(i, j)
    &&& forall|w: W, r: T| #[trigger] call_ensures(host.narrow, (w,), r) ==> r == (exact.narrow)(w)
    &&& forall|w: W, r: T| #[trigger] call_ensures(host.invert, (w,), r) ==> r == (exact.invert)(w)
    &&& adds_like(exact.wzero, exact.wplus)
    &&& adds_like(exact.zero, exact.plus)
    &&& multiplies_like(exact.times)
}

/// The weights of source frames `first..=last` in output frame `i`, as the host gives them.
pub open spec fn raw_weights<W, T>(exact: Exact<W, T>, i: usize, first: isize, last: isize) -> Seq<
    W,
> {
    Seq::new(
        (if first <= last {
            last - first + 1
        } else {
            0
        }) as nat,
        |k: int| (exact.weight)(i, (first + k) as isize),
    )
}

/// The weights that are applied: each one as a level, times one over the sum of them all.
pub open spec fn applied_weights<W, T>(
    exact: Exact<W, T>,
    i: usize,
    first: isize,
    last: isize,
) -> Seq<T> {
    let raw = raw_weights(exact, i, first, last);
    let norm = (exact.invert)(raw.fold_left(exact.wzero, exact.wplus));
    raw.map_values(|w: W| (exact.times)((exact.narrow)(w), norm))
}

/// What output frame `i` reads of one channel of a source, added up from `start`: every source frame in
/// reach, silence outside the source, times its weight.
pub open spec fn level_read<W, T>(exact: Exact<W, T>, i: usize, src: Seq<T>, start: T) -> T {
    let first = (exact.reach)(i).0;
    let weights = applied_weights(exact, i, first, (exact.reach)(i).1);
    weights.map(
        |k: int, w: T|
            (exact.times)(
                w,
                if 0 <= first + k < src.len() {
                    src[first + k]
                } else {
                    exact.zero
                },
            ),
    ).fold_left(start, exact.plus)
}

/// A kernel has one tap for every source frame in reach, in order, and no other; and its weights are
/// those the host gives, each times one over the sum of them all, however many there are.
pub proof fn a_kernel_takes_every_frame_in_reach<
    W: Copy + Default + Add<Output = W>,
    T: Copy + Default + Add<Output = T> + Mul<Output = T>,
    R: Fn(usize) -> (isize, isize),
    F: Fn(usize, isize) -> W,
    N: Fn(W) -> T,
    I: Fn(W) -> T,
>(
    i: usize,
    first: isize,
    last: isize,
    host: &Interpolator<T, R, F, N, I>,
    window: Vec<(isize, T)>,
    exact: Exact<W, T>,
    k: int,
)
    requires
        call_ensures(kernel::<W, T, R, F, N, I>, (i, first, last, host), window),
        computes_like(*host, exact),
    ensures
        first <= last ==> window@.len() == last - first + 1,
        first > last ==> window@.len() == 0,
        0 <= k < window@.len() ==> window@[k].0 == first + k,
        window@.map_values(|tap: (isize, T)| tap.1) == applied_weights(exact, i, first, last),
{
    lemma_kernel_is_exact::<W, T, R, F, N, I>(i, first, last, *host, window@, exact);
}

proof fn lemma_kernel_is_exact<
    W: Default + Add<Output = W>,
    T: Default + Add<Output = T> + Mul<Output = T>,
    R: Fn(usize) -> (isize, isize),
    F: Fn(usize, isize) -> W,
    N: Fn(W) -> T,
    I: Fn(W) -> T,
>(
    i: usize,
    first: isize,
    last: isize,
    host: Interpolator<T, R, F, N, I>,
    window: Seq<(isize, T)>,
    exact: Exact<W, T>,
)
    requires
        is_kernel::<W, T, R, F, N, I>(i, first, last, host, window),
        computes_like(host, exact),
    ensures
        window.len() == tap_count(first, last),
        forall|k: int| 0 <= k < window.len() ==> (#[trigger] window[k]).0 == first + k,
        window.map_values(|tap: (isize, T)| tap.1) == applied_weights(exact, i, first, last),
{
    let (raw, sum, norm) = choose|raw: Seq<W>, sum: W, norm: T|
        {
            &&& #[trigger] are_weights(i, first, last, host.weight, raw)
            &&& #[trigger] sums_to(raw, sum)
            &&& #[trigger] call_ensures(host.invert, (sum,), norm)
            &&& window.len() == raw.len()
            &&& forall|k: int|
                0 <= k < window.len() ==> {
                    &&& (#[trigger] window[k]).0 == first + k
                    &&& is_scaled(raw[k], host.narrow, norm, window[k].1)
                }
        };
    assert(raw =~= raw_weights(exact, i, first, last));
    a_sum_takes_in_every_level(exact.wzero, exact.wplus, raw, sum);
    let applied = applied_weights(exact, i, first, last);
    let weights = window.map_values(|tap: (isize, T)| tap.1);
    assert forall|k: int| 0 <= k < weights.len() implies weights[k] == applied[k] by {
        assert(window[k].0 == first + k);
        let narrowed = choose|narrowed: T|
            call_ensures(host.narrow, (raw[k],), narrowed) && #[trigger] multiplies(
                narrowed,
                norm,
                window[k].1,
            );
        assert(call_ensures(<T as Mul>::mul, (narrowed, norm), window[k].1));
    }
    assert(weights =~= applied);
}

proof fn lemma_terms_are_exact<
    W: Default + Add<Output = W>,
    T: Default + Add<Output = T> + Mul<Output = T>,
    R: Fn(usize) -> (isize, isize),
    F: Fn(usize, isize) -> W,
    N: Fn(W) -> T,
    I: Fn(W) -> T,
>(
    i: usize,
    host: Interpolator<T, R, F, N, I>,
    window: Seq<(isize, T)>,
    exact: Exact<W, T>,
    src: Seq<T>,
    terms: Seq<T>,
)
    requires
        is_kernel::<W, T, R, F, N, I>(i, (exact.reach)(i).0, (exact.reach)(i).1, host, window),
        computes_like(host, exact),
        are_terms(window, src, terms),
    ensures
        forall|start: T| #[trigger]
            terms.fold_left(start, exact.plus) == level_read(exact, i, src, start),
{
    let (first, last) = (exact.reach)(i);
    lemma_kernel_is_exact::<W, T, R, F, N, I>(i, first, last, host, window, exact);
    let weights = applied_weights(exact, i, first, last);
    let written = weights.map(
        |k: int, w: T|
            (exact.times)(
                w,
                if 0 <= first + k < src.len() {
                    src[first + k]
                } else {
                    exact.zero
                },
            ),
    );
    assert forall|k: int| 0 <= k < terms.len() implies terms[k] == written[k] by {
        assert(is_term(window[k], src, terms[k]));
        assert(window.map_values(|tap: (isize, T)| tap.1)[k] == window[k].1);
        let x = choose|x: T|
            reads_as(src, window[k].0 as int, x) && #[trigger] multiplies(window[k].1, x, terms[k]);
        assert(call_ensures(<T as Mul>::mul, (window[k].1, x), terms[k]));
        if !(0 <= first + k < src.len()) {
            assert(call_ensures(T::default, (), x));
        }
    }
    assert(terms =~= written);
}

proof fn lemma_level_is_exact<
    W: Default + Add<Output = W>,
    T: Default + Add<Output = T> + Mul<Output = T>,
    R: Fn(usize) -> (isize, isize),
    F: Fn(usize, isize) -> W,
    N: Fn(W) -> T,
    I: Fn(W) -> T,
>(host: Interpolator<T, R, F, N, I>, i: int, src: Seq<T>, level: T, exact: Exact<W, T>)
    requires
        0 <= i <= usize::MAX,
        reads_level::<W, T, R, F, N, I>(host, i, src, level),
        computes_like(host, exact),
    ensures
        level == level_read(exact, i as usize, src, host.empty),
{
    let (span, window) = choose|span: (isize, isize), window: Seq<(isize, T)>|
        {
            &&& #[trigger] call_ensures(host.reach, (i as usize,), span)
            &&& #[trigger] is_kernel::<W, T, R, F, N, I>(
                i as usize,
                span.0,
                span.1,
                host,
                window,
            )
            &&& weighs_from(host.empty, window, src, level)
        };
    let terms = choose|terms: Seq<T>| #[trigger]
        are_terms(window, src, terms) && sums_from(host.empty, terms, level);
    lemma_terms_are_exact::<W, T, R, F, N, I>(i as usize, host, window, exact, src, terms);
    a_sum_from_elsewhere_takes_in_every_level(exact.zero, exact.plus, host.empty, terms, level);
}

proof fn lemma_pair_is_exact<
    W: Default + Add<Output = W>,
    T: Default + Add<Output = T> + Mul<Output = T>,
    R: Fn(usize) -> (isize, isize),
    F: Fn(usize, isize) -> W,
    N: Fn(W) -> T,
    I: Fn(W) -> T,
>(
    host: Interpolator<T, R, F, N, I>,
    i: int,
    left: Seq<T>,
    right: Seq<T>,
    frame: (T, T),
    exact: Exact<W, T>,
)
    requires
        0 <= i <= usize::MAX,
        reads_pair::<W, T, R, F, N, I>(host, i, left, right, frame),
        computes_like(host, exact),
    ensures
        frame.0 == level_read(exact, i as usize, left, exact.zero),
        frame.1 == level_read(exact, i as usize, right, exact.zero),
{
    let (span, window) = choose|span: (isize, isize), window: Seq<(isize, T)>|
        {
            &&& #[trigger] call_ensures(host.reach, (i as usize,), span)
            &&& #[trigger] is_kernel::<W, T, R, F, N, I>(
                i as usize,
                span.0,
                span.1,
                host,
                window,
            )
            &&& weighs_to(window, left, frame.0)
            &&& weighs_to(window, right, frame.1)
        };
    let lefts = choose|terms: Seq<T>| #[trigger]
        are_terms(window, left, terms) && sums_to(terms, frame.0);
    let rights = choose|terms: Seq<T>| #[trigger]
        are_terms(window, right, terms) && sums_to(terms, frame.1);
    lemma_terms_are_exact::<W, T, R, F, N, I>(i as usize, host, window, exact, left, lefts);
    lemma_terms_are_exact::<W, T, R, F, N, I>(i as usize, host, window, exact, right, rights);
    a_sum_takes_in_every_level(exact.zero, exact.plus, lefts, frame.0);
    a_sum_takes_in_every_level(exact.zero, exact.plus, rights, frame.1);
}

/// A conversion reads the source anew for every output frame: each level is the sum over every source
/// frame in reach, silence outside the source, of the frame times its weight as a level times one over
/// the sum of the weights. A mono source is added up from what the host calls an empty sum, and each
/// side of a stereo one, for itself, from silence. As many frames come out as asked for, and at least
/// one.
pub proof fn a_conversion_reads_every_frame_anew<
    W: Copy + Default + Add<Output = W>,
    T: Copy + Default + Add<Output = T> + Mul<Output = T>,
    R: Fn(usize) -> (isize, isize),
    F: Fn(usize, isize) -> W,
    N: Fn(W) -> T,
    I: Fn(W) -> T,
>(
    before: Sample<T>,
    target_rate: u32,
    scaled_len: usize,
    host: &Interpolator<T, R, F, N, I>,
    after: Sample<T>,
    rate: u32,
    source: &Frames<T>,
    converted: &Frames<T>,
    exact: Exact<W, T>,
    i: int,
)
    requires
        call_ensures(
            Sample::<T>::resample_to::<W, R, F, N, I>,
            (before, target_rate, scaled_len, host),
            after,
        ),
        call_ensures(Sample::<T>::sample_rate, (&before,), rate),
        call_ensures(Sample::<T>::frames, (&before,), source),
        call_ensures(Sample::<T>::frames, (&after,), converted),
        target_rate != 0,
        target_rate != rate,
        computes_like(*host, exact),
    ensures
        match source {
            Frames::Mono(src) => converted matches Frames::Mono(out) && if src@.len() == 0 {
                out@.len() == 0
            } else {
                &&& scaled_len >= 1 ==> out@.len() == scaled_len
                &&& scaled_len == 0 ==> out@.len() == 1
                &&& 0 <= i < out@.len() ==> out@[i] == level_read(
                    exact,
                    i as usize,
                    src@,
                    host.empty,
                )
            },
            Frames::Stereo(src) => converted matches Frames::Stereo(out) && if src@.len() == 0 {
                out@.len() == 0
            } else {
                &&& scaled_len >= 1 ==> out@.len() == scaled_len
                &&& scaled_len == 0 ==> out@.len() == 1
                &&& 0 <= i < out@.len() ==> forall|side: int|
                    0 <= side < 2 ==> #[trigger] out@[i]@[side] == level_read(
                        exact,
                        i as usize,
                        Seq::new(src@.len(), |j: int| src@[j]@[side]),
                        exact.zero,
                    )
            },
        },
{
    match source {
        Frames::Mono(src) => {
            if src@.len() > 0 {
                assert(source.channel(0) =~= src@);
                match converted {
                    Frames::Mono(out) => {
                        if 0 <= i < out@.len() {
                            assert(converted.level(i, 0) == out@[i]);
                            lemma_level_is_exact::<W, T, R, F, N, I>(
                                *host,
                                i,
                                src@,
                                out@[i],
                                exact,
                            );
                        }
                    },
                    Frames::Stereo(out) => {},
                }
            }
        },
        Frames::Stereo(src) => {
            if src@.len() > 0 {
                let lefts = Seq::new(src@.len(), |j: int| src@[j]@[0]);
                let rights = Seq::new(src@.len(), |j: int| src@[j]@[1]);
                assert(source.channel(0) =~= lefts);
                assert(source.channel(1) =~= rights);
                match converted {
                    Frames::Mono(out) => {},
                    Frames::Stereo(out) => {
                        if 0 <= i < out@.len() {
                            let frame = (converted.level(i, 0), converted.level(i, 1));
                            assert(reads_pair::<W, T, R, F, N, I>(*host, i, lefts, rights, frame));
                            lemma_pair_is_exact::<W, T, R, F, N, I>(
                                *host,
                                i,
                                lefts,
                                rights,
                                frame,
                                exact,
                            );
                            assert forall|side: int| 0 <= side < 2 implies #[trigger] out@[i]@[side]
                                == level_read(
                                exact,
                                i as usize,
                                Seq::new(src@.len(), |j: int| src@[j]@[side]),
                                exact.zero,
                            ) by {
                                let levels = Seq::new(src@.len(), |j: int| src@[j]@[side]);
                                if side == 0 {
                                    assert(levels =~= lefts);
                                } else {
                                    assert(levels =~= rights);
                                }
                            }
                        }
                    },
                }
            }
        },
    }
}

/// Interpolation reads a source as often as it is asked to, of whatever length the source is, and keeps
/// its layout: each level is what the frame it is for reads of the source.
pub proof fn interpolation_reads_a_source_as_often_as_asked<
    W: Copy + Default + Add<Output = W>,
    T: Copy + Default + Add<Output = T> + Mul<Output = T>,
    R: Fn(usize) -> (isize, isize),
    F: Fn(usize, isize) -> W,
    N: Fn(W) -> T,
    I: Fn(W) -> T,
>(
    frames: &Frames<T>,
    count: usize,
    host: &Interpolator<T, R, F, N, I>,
    converted: Frames<T>,
    exact: Exact<W, T>,
    i: int,
)
    requires
        call_ensures(interpolate::<W, T, R, F, N, I>, (frames, count, host), converted),
        computes_like(*host, exact),
    ensures
        match frames {
            Frames::Mono(src) => {
                &&& converted matches Frames::Mono(out)
                &&& out@.len() == count
                &&& 0 <= i < count ==> out@[i] == level_read(exact, i as usize, src@, host.empty)
            },
            Frames::Stereo(src) => {
                &&& converted matches Frames::Stereo(out)
                &&& out@.len() == count
                &&& 0 <= i < count ==> out@[i]@[0] == level_read(
                    exact,
                    i as usize,
                    Seq::new(src@.len(), |j: int| src@[j]@[0]),
                    exact.zero,
                ) && out@[i]@[1] == level_read(
                    exact,
                    i as usize,
                    Seq::new(src@.len(), |j: int| src@[j]@[1]),
                    exact.zero,
                )
            },
        },
{
    match frames {
        Frames::Mono(src) => {
            assert(frames.channel(0) =~= src@);
            if 0 <= i < count {
                let level = converted.level(i, 0);
                lemma_level_is_exact::<W, T, R, F, N, I>(*host, i, src@, level, exact);
            }
        },
        Frames::Stereo(src) => {
            let lefts = Seq::new(src@.len(), |j: int| src@[j]@[0]);
            let rights = Seq::new(src@.len(), |j: int| src@[j]@[1]);
            assert(frames.channel(0) =~= lefts);
            assert(frames.channel(1) =~= rights);
            if 0 <= i < count {
                let frame = (converted.level(i, 0), converted.level(i, 1));
                assert(reads_pair::<W, T, R, F, N, I>(*host, i, lefts, rights, frame));
                lemma_pair_is_exact::<W, T, R, F, N, I>(*host, i, lefts, rights, frame, exact);
            }
        },
    }
}

/// A weighted sum takes in every tap of its window once, from the first to the last: the tap's weight
/// times the source frame it names, or times silence outside the source.
pub proof fn a_weighted_sum_takes_in_every_tap<
    T: Copy + Default + Add<Output = T> + Mul<Output = T>,
>(
    start: T,
    src: &Vec<T>,
    window: &Vec<(isize, T)>,
    r: T,
    zero: T,
    plus: spec_fn(T, T) -> T,
    times: spec_fn(T, T) -> T,
)
    requires
        call_ensures(weigh::<T>, (start, src, window), r),
        adds_like(zero, plus),
        multiplies_like(times),
    ensures
        r == weighted(window@, src@, zero, times).fold_left(start, plus),
{
    let terms = choose|terms: Seq<T>| #[trigger]
        are_terms(window@, src@, terms) && sums_from(start, terms, r);
    lemma_terms_are_weighted(window@, src@, terms, zero, plus, times);
    a_sum_from_elsewhere_takes_in_every_level(zero, plus, start, terms, r);
}

/// So does the one over a stereo source, each side for itself and from silence.
pub proof fn a_weighted_pair_takes_in_every_tap<
    T: Copy + Default + Add<Output = T> + Mul<Output = T>,
>(
    src: &Vec<Frame<T>>,
    window: &Vec<(isize, T)>,
    r: Frame<T>,
    zero: T,
    plus: spec_fn(T, T) -> T,
    times: spec_fn(T, T) -> T,
)
    requires
        call_ensures(weigh_pair::<T>, (src, window), r),
        adds_like(zero, plus),
        multiplies_like(times),
    ensures
        r@[0] == weighted(
            window@,
            Seq::new(src@.len(), |i: int| src@[i]@[0]),
            zero,
            times,
        ).fold_left(zero, plus),
        r@[1] == weighted(
            window@,
            Seq::new(src@.len(), |i: int| src@[i]@[1]),
            zero,
            times,
        ).fold_left(zero, plus),
{
    let left = Seq::new(src@.len(), |i: int| src@[i]@[0]);
    let right = Seq::new(src@.len(), |i: int| src@[i]@[1]);
    let lefts = choose|terms: Seq<T>| #[trigger]
        are_terms(window@, left, terms) && sums_to(terms, r@[0]);
    let rights = choose|terms: Seq<T>| #[trigger]
        are_terms(window@, right, terms) && sums_to(terms, r@[1]);
    lemma_terms_are_weighted(window@, left, lefts, zero, plus, times);
    lemma_terms_are_weighted(window@, right, rights, zero, plus, times);
    a_sum_takes_in_every_level(zero, plus, lefts, r@[0]);
    a_sum_takes_in_every_level(zero, plus, rights, r@[1]);
}

/// The weighted source levels of a window, tap by tap.
pub open spec fn weighted<T>(
    window: Seq<(isize, T)>,
    src: Seq<T>,
    zero: T,
    times: spec_fn(T, T) -> T,
) -> Seq<T> {
    window.map_values(
        |tap: (isize, T)|
            times(
                tap.1,
                if 0 <= tap.0 < src.len() {
                    src[tap.0 as int]
                } else {
                    zero
                },
            ),
    )
}

proof fn lemma_terms_are_weighted<T: Default + Add<Output = T> + Mul<Output = T>>(
    window: Seq<(isize, T)>,
    src: Seq<T>,
    terms: Seq<T>,
    zero: T,
    plus: spec_fn(T, T) -> T,
    times: spec_fn(T, T) -> T,
)
    requires
        are_terms(window, src, terms),
        adds_like(zero, plus),
        multiplies_like(times),
    ensures
        terms == weighted(window, src, zero, times),
{
    let written = weighted(window, src, zero, times);
    assert forall|k: int| 0 <= k < terms.len() implies terms[k] == written[k] by {
        assert(is_term(window[k], src, terms[k]));
        let x = choose|x: T|
            reads_as(src, window[k].0 as int, x) && #[trigger] multiplies(window[k].1, x, terms[k]);
        assert(call_ensures(<T as Mul>::mul, (window[k].1, x), terms[k]));
        if !(0 <= window[k].0 < src.len()) {
            assert(call_ensures(T::default, (), x));
        }
    }
    assert(terms =~= written);
}

/// A conversion gives the sample the target's rate, and keeps the rate and the channel count of its
/// source. Where the target is no rate at all, or the one the sample is at, nothing changes.
pub proof fn a_conversion_arrives_at_the_target_rate<
    W: Copy + Default + Add<Output = W>,
    T: Copy + Default + Add<Output = T> + Mul<Output = T>,
    R: Fn(usize) -> (isize, isize),
    F: Fn(usize, isize) -> W,
    N: Fn(W) -> T,
    I: Fn(W) -> T,
>(
    before: Sample<T>,
    target_rate: u32,
    scaled_len: usize,
    host: &Interpolator<T, R, F, N, I>,
    after: Sample<T>,
    rate: u32,
    new_rate: u32,
    source_rate: u32,
    new_source_rate: u32,
    channels: u16,
    new_channels: u16,
)
    requires
        call_ensures(
            Sample::<T>::resample_to::<W, R, F, N, I>,
            (before, target_rate, scaled_len, host),
            after,
        ),
        call_ensures(Sample::<T>::sample_rate, (&before,), rate),
        call_ensures(Sample::<T>::sample_rate, (&after,), new_rate),
        call_ensures(Sample::<T>::source_sample_rate, (&before,), source_rate),
        call_ensures(Sample::<T>::source_sample_rate, (&after,), new_source_rate),
        call_ensures(Sample::<T>::source_channels, (&before,), channels),
        call_ensures(Sample::<T>::source_channels, (&after,), new_channels),
    ensures
        target_rate != 0 ==> new_rate == target_rate,
        target_rate == 0 ==> new_rate == rate,
        new_source_rate == source_rate,
        new_channels == channels,
        target_rate == 0 || target_rate == rate ==> after == before,
{
}

/// The arithmetic that `exact` speaks of distributes, and `one` is a one: adding to nothing changes
/// nothing, a product with a sum is the sum of the products, and a sum of weights narrows to the sum of
/// what they narrow to.
pub open spec fn distributes<W, T>(exact: Exact<W, T>, one: T) -> bool {
    &&& forall|w: W| #[trigger] (exact.wplus)(exact.wzero, w) == w
    &&& forall|x: T| #[trigger] (exact.plus)(exact.zero, x) == x
    &&& forall|x: T| #[trigger] (exact.times)(one, x) == x
    &&& forall|a: T, b: T, c: T| #[trigger]
        (exact.times)((exact.plus)(a, b), c) == (exact.plus)(
            (exact.times)(a, c),
            (exact.times)(b, c),
        )
    &&& forall|a: W, b: W| #[trigger]
        (exact.narrow)((exact.wplus)(a, b)) == (exact.plus)((exact.narrow)(a), (exact.narrow)(b))
}

/// What a window over one level adds up to, up to and with its `n`th weight.
proof fn lemma_one_level_is_read<W, T>(
    exact: Exact<W, T>,
    one: T,
    raw: Seq<W>,
    norm: T,
    level: T,
    start: T,
)
    requires
        distributes(exact, one),
        raw.len() >= 1,
        forall|x: T| #[trigger] (exact.plus)(start, x) == x,
    ensures
        raw.map_values(|w: W| (exact.times)((exact.narrow)(w), norm)).fold_left(
            exact.zero,
            exact.plus,
        ) == (exact.times)((exact.narrow)(raw.fold_left(exact.wzero, exact.wplus)), norm),
        raw.map_values(
            |w: W| (exact.times)((exact.times)((exact.narrow)(w), norm), level),
        ).fold_left(start, exact.plus) == (exact.times)(
            (exact.times)((exact.narrow)(raw.fold_left(exact.wzero, exact.wplus)), norm),
            level,
        ),
    decreases raw.len(),
{
    let scale = |w: W| (exact.times)((exact.narrow)(w), norm);
    let weigh = |w: W| (exact.times)((exact.times)((exact.narrow)(w), norm), level);
    let shorter = raw.drop_last();
    assert(raw.map_values(scale).drop_last() =~= shorter.map_values(scale));
    assert(raw.map_values(weigh).drop_last() =~= shorter.map_values(weigh));
    if raw.len() == 1 {
        assert(shorter.fold_left(exact.wzero, exact.wplus) == exact.wzero);
        assert(shorter.map_values(scale).fold_left(exact.zero, exact.plus) == exact.zero);
        assert(shorter.map_values(weigh).fold_left(start, exact.plus) == start);
    } else {
        lemma_one_level_is_read(exact, one, shorter, norm, level, start);
    }
}

/// The weights of an output frame sum to one, whatever the length of its window, where the arithmetic
/// is exact and the sum of the weights has an inverse.
pub proof fn weights_sum_to_one<
    W: Copy + Default + Add<Output = W>,
    T: Copy + Default + Add<Output = T> + Mul<Output = T>,
    R: Fn(usize) -> (isize, isize),
    F: Fn(usize, isize) -> W,
    N: Fn(W) -> T,
    I: Fn(W) -> T,
>(
    i: usize,
    first: isize,
    last: isize,
    host: &Interpolator<T, R, F, N, I>,
    window: Vec<(isize, T)>,
    exact: Exact<W, T>,
    one: T,
    sum: W,
)
    requires
        call_ensures(kernel::<W, T, R, F, N, I>, (i, first, last, host), window),
        computes_like(*host, exact),
        distributes(exact, one),
        first <= last,
        sum == Seq::new(
            (last - first + 1) as nat,
            |k: int| (exact.weight)(i, (first + k) as isize),
        ).fold_left(exact.wzero, exact.wplus),
        (exact.times)((exact.narrow)(sum), (exact.invert)(sum)) == one,
    ensures
        window@.map_values(|tap: (isize, T)| tap.1).fold_left(exact.zero, exact.plus) == one,
{
    lemma_kernel_is_exact::<W, T, R, F, N, I>(i, first, last, *host, window@, exact);
    let raw = raw_weights(exact, i, first, last);
    lemma_one_level_is_read(exact, one, raw, (exact.invert)(sum), one, exact.zero);
}

/// One side of a source holds `level` from frame `first` to frame `last`. A mono source has the same on
/// either side.
pub open spec fn holds<T>(source: Frames<T>, side: int, first: int, last: int, level: T) -> bool {
    match source {
        Frames::Mono(src) => {
            &&& 0 <= first <= last < src@.len()
            &&& forall|j: int| first <= j <= last ==> #[trigger] src@[j] == level
        },
        Frames::Stereo(src) => {
            &&& 0 <= first <= last < src@.len()
            &&& forall|j: int| first <= j <= last ==> (#[trigger] src@[j])@[side] == level
        },
    }
}

/// A source that holds one level over the whole reach of an output frame is read there as that same
/// level, whatever the length of the window, where the arithmetic is exact and the sum of the weights
/// has an inverse.
pub proof fn a_level_that_holds_is_read_as_it_is<
    W: Copy + Default + Add<Output = W>,
    T: Copy + Default + Add<Output = T> + Mul<Output = T>,
    R: Fn(usize) -> (isize, isize),
    F: Fn(usize, isize) -> W,
    N: Fn(W) -> T,
    I: Fn(W) -> T,
>(
    before: Sample<T>,
    target_rate: u32,
    scaled_len: usize,
    host: &Interpolator<T, R, F, N, I>,
    after: Sample<T>,
    rate: u32,
    source: &Frames<T>,
    converted: &Frames<T>,
    exact: Exact<W, T>,
    one: T,
    i: int,
    sum: W,
    side: int,
    level: T,
)
    requires
        call_ensures(
            Sample::<T>::resample_to::<W, R, F, N, I>,
            (before, target_rate, scaled_len, host),
            after,
        ),
        call_ensures(Sample::<T>::sample_rate, (&before,), rate),
        call_ensures(Sample::<T>::frames, (&before,), source),
        call_ensures(Sample::<T>::frames, (&after,), converted),
        target_rate != 0,
        target_rate != rate,
        computes_like(*host, exact),
        distributes(exact, one),
        forall|x: T| #[trigger] (exact.plus)(host.empty, x) == x,
        0 <= side < 2,
        0 <= i < scaled_len || i == 0,
        sum == Seq::new(
            ((exact.reach)(i as usize).1 - (exact.reach)(i as usize).0 + 1) as nat,
            |k: int| (exact.weight)(i as usize, ((exact.reach)(i as usize).0 + k) as isize),
        ).fold_left(exact.wzero, exact.wplus),
        (exact.times)((exact.narrow)(sum), (exact.invert)(sum)) == one,
        holds(
            *source,
            side,
            (exact.reach)(i as usize).0 as int,
            (exact.reach)(i as usize).1 as int,
            level,
        ),
    ensures
        converted matches Frames::Mono(out) ==> out@[i] == level,
        converted matches Frames::Stereo(out) ==> out@[i]@[side] == level,
        source is Mono <==> converted is Mono,
{
    let (first, last) = (exact.reach)(i as usize);
    let raw = raw_weights(exact, i as usize, first, last);
    a_conversion_reads_every_frame_anew::<W, T, R, F, N, I>(
        before,
        target_rate,
        scaled_len,
        host,
        after,
        rate,
        source,
        converted,
        exact,
        i,
    );
    match source {
        Frames::Mono(src) => {
            lemma_level_holds(exact, one, i as usize, src@, host.empty, level);
        },
        Frames::Stereo(src) => {
            let levels = Seq::new(src@.len(), |j: int| src@[j]@[side]);
            assert forall|j: int| first <= j <= last implies #[trigger] levels[j] == level by {
                let frame = src@[j];
            }
            lemma_level_holds(exact, one, i as usize, levels, exact.zero, level);
            match converted {
                Frames::Mono(out) => {},
                Frames::Stereo(out) => {
                    let shown = out@[i]@[side];
                },
            }
        },
    }
}

proof fn lemma_level_holds<W, T>(
    exact: Exact<W, T>,
    one: T,
    i: usize,
    src: Seq<T>,
    start: T,
    level: T,
)
    requires
        distributes(exact, one),
        forall|x: T| #[trigger] (exact.plus)(start, x) == x,
        0 <= (exact.reach)(i).0 <= (exact.reach)(i).1 < src.len(),
        ({
            let sum = raw_weights(exact, i, (exact.reach)(i).0, (exact.reach)(i).1).fold_left(
                exact.wzero,
                exact.wplus,
            );
            (exact.times)((exact.narrow)(sum), (exact.invert)(sum)) == one
        }),
        forall|j: int|
            (exact.reach)(i).0 <= j <= (exact.reach)(i).1 ==> #[trigger] src[j] == level,
    ensures
        level_read(exact, i, src, start) == level,
{
    let (first, last) = (exact.reach)(i);
    let raw = raw_weights(exact, i, first, last);
    let norm = (exact.invert)(raw.fold_left(exact.wzero, exact.wplus));
    lemma_one_level_is_read(exact, one, raw, norm, level, start);
    let weights = applied_weights(exact, i, first, last);
    let written = weights.map(
        |k: int, w: T|
            (exact.times)(
                w,
                if 0 <= first + k < src.len() {
                    src[first + k]
                } else {
                    exact.zero
                },
            ),
    );
    let plain = raw.map_values(
        |w: W| (exact.times)((exact.times)((exact.narrow)(w), norm), level),
    );
    assert forall|k: int| 0 <= k < written.len() implies written[k] == plain[k] by {
        assert(src[first + k] == level);
    }
    assert(written =~= plain);
}

} // verus!
