//! Laws of the material: what loading and converting a sample keeps.
use core::ops::{Add, Mul};
use vstd::prelude::*;

use crate::frames::Frames;
#[allow(unused_imports)]
use crate::laws::mixing::lemma_sum_unique;
#[allow(unused_imports)]
use crate::level::{
    adds, is_deterministic, mul_is_deterministic, multiplies, reads_as, silent, sums_from, sums_to,
};
use crate::resample::Interpolator;
#[allow(unused_imports)]
use crate::resample::{
    are_terms, are_weights, is_kernel, is_scaled, is_single_valued, is_term, reads_level,
    reads_pair, weighs_from, weighs_to,
};
use crate::sample::Sample;
#[allow(unused_imports)]
use crate::sample::{is_resampled, needs_interpolation};
#[allow(unused_imports)]
use crate::wav::is_deinterleaved;

verus! {

/// Every whole frame of a file becomes one frame of the sample and keeps the file's first two
/// channels, or its only one on both sides; whatever else a frame holds is dropped.
pub proof fn the_first_two_channels_are_kept<T>(
    channels: u16,
    raw: Seq<T>,
    frames: Frames<T>,
    i: int,
)
    requires
        channels >= 1,
        is_deinterleaved(channels, raw, frames),
        0 <= i < frames.count(),
    ensures
        frames.count() == raw.len() / channels as nat,
        frames.level(i, 0) == raw[i * channels],
        frames.level(i, 1) == raw[i * channels + if channels >= 2 {
            1int
        } else {
            0
        }],
{
}

/// A sample that has been converted to a rate is left alone when it is converted to it again.
pub proof fn converting_twice_is_converting_once<
    W: Default + Add<Output = W>,
    T: Default + Add<Output = T> + Mul<Output = T>,
    R: Fn(usize) -> (isize, isize),
    F: Fn(usize, isize) -> W,
    N: Fn(W) -> T,
    I: Fn(W) -> T,
>(
    source: Sample<T>,
    rate: u32,
    len: usize,
    host: Interpolator<T, R, F, N, I>,
    once: Sample<T>,
    again_len: usize,
    again_host: Interpolator<T, R, F, N, I>,
    twice: Sample<T>,
)
    requires
        is_resampled::<W, T, R, F, N, I>(source, rate, len, host, once),
        is_resampled::<W, T, R, F, N, I>(once, rate, again_len, again_host, twice),
    ensures
        twice == once,
{
}

/// Converting a sample changes neither its layout nor what is known of the file it came from, and
/// never makes frames out of nothing or loses them all.
pub proof fn converting_keeps_the_layout_and_the_source<
    W: Default + Add<Output = W>,
    T: Default + Add<Output = T> + Mul<Output = T>,
    R: Fn(usize) -> (isize, isize),
    F: Fn(usize, isize) -> W,
    N: Fn(W) -> T,
    I: Fn(W) -> T,
>(
    source: Sample<T>,
    rate: u32,
    len: usize,
    host: Interpolator<T, R, F, N, I>,
    converted: Sample<T>,
)
    requires
        source.wf(),
        is_resampled::<W, T, R, F, N, I>(source, rate, len, host, converted),
    ensures
        converted.data() is Mono <==> source.data() is Mono,
        converted.channels() == source.channels(),
        converted.source_rate() == source.source_rate(),
        converted.data().count() == 0 <==> source.data().count() == 0,
{
}

/// `same` puts levels together that differ at most as the two ways to start a sum do: silence and
/// `empty` are the same, and stay so as the same levels are added to both. For floats, being equal
/// or both no number is such a relation: the two zeros are equal, and so are sums that differ in
/// where they started.
pub open spec fn starts_alike<T: Default + Add<Output = T>>(
    empty: T,
    same: spec_fn(T, T) -> bool,
) -> bool {
    &&& forall|zero: T| #[trigger] silent(zero) ==> same(zero, empty)
    &&& forall|a: T, b: T, level: T, r: T, s: T|
        same(a, b) && #[trigger] adds(a, level, r) && #[trigger] adds(b, level, s) ==> same(r, s)
}

/// Both channels go through one kernel, each on its own: what an output frame reads of a stereo
/// source is, side by side, what it reads of two mono ones. A mono frame is added up from `empty`
/// and a stereo one from silence, so the two are the same as far as that makes no difference.
pub proof fn a_stereo_frame_is_two_mono_ones<
    W: Default + Add<Output = W>,
    T: Default + Add<Output = T> + Mul<Output = T>,
    R: Fn(usize) -> (isize, isize),
    F: Fn(usize, isize) -> W,
    N: Fn(W) -> T,
    I: Fn(W) -> T,
>(
    host: Interpolator<T, R, F, N, I>,
    same: spec_fn(T, T) -> bool,
    i: int,
    left: Seq<T>,
    right: Seq<T>,
    frame: (T, T),
    left_alone: T,
    right_alone: T,
)
    requires
        is_deterministic::<W>(),
        is_deterministic::<T>(),
        mul_is_deterministic::<T>(),
        is_single_valued::<W, T, R, F, N, I>(host),
        starts_alike(host.empty, same),
        reads_pair::<W, T, R, F, N, I>(host, i, left, right, frame),
        reads_level::<W, T, R, F, N, I>(host, i, left, left_alone),
        reads_level::<W, T, R, F, N, I>(host, i, right, right_alone),
    ensures
        same(frame.0, left_alone),
        same(frame.1, right_alone),
{
    let (a, v) = choose|span: (isize, isize), window: Seq<(isize, T)>|
        {
            &&& #[trigger] call_ensures(host.reach, (i as usize,), span)
            &&& #[trigger] is_kernel::<W, T, R, F, N, I>(i as usize, span.0, span.1, host, window)
            &&& weighs_to(window, left, frame.0)
            &&& weighs_to(window, right, frame.1)
        };
    let (b, w) = choose|span: (isize, isize), window: Seq<(isize, T)>|
        {
            &&& #[trigger] call_ensures(host.reach, (i as usize,), span)
            &&& #[trigger] is_kernel::<W, T, R, F, N, I>(i as usize, span.0, span.1, host, window)
            &&& weighs_from(host.empty, window, left, left_alone)
        };
    let (c, u) = choose|span: (isize, isize), window: Seq<(isize, T)>|
        {
            &&& #[trigger] call_ensures(host.reach, (i as usize,), span)
            &&& #[trigger] is_kernel::<W, T, R, F, N, I>(i as usize, span.0, span.1, host, window)
            &&& weighs_from(host.empty, window, right, right_alone)
        };
    assert(a == b && a == c);
    lemma_kernel_unique::<W, T, R, F, N, I>(host, i as usize, a.0, a.1, v, w);
    lemma_kernel_unique::<W, T, R, F, N, I>(host, i as usize, a.0, a.1, v, u);
    lemma_weighing_alike(host.empty, same, v, left, frame.0, left_alone);
    lemma_weighing_alike(host.empty, same, v, right, frame.1, right_alone);
}

/// A stereo conversion is two mono conversions. Where arithmetic and the host's functions have one
/// result each, the frames of a converted stereo sample are, side by side, those of two mono samples
/// that hold its channels, converted to the same rate.
pub proof fn a_stereo_conversion_is_two_mono_ones<
    W: Default + Add<Output = W>,
    T: Default + Add<Output = T> + Mul<Output = T>,
    R: Fn(usize) -> (isize, isize),
    F: Fn(usize, isize) -> W,
    N: Fn(W) -> T,
    I: Fn(W) -> T,
>(
    stereo: Sample<T>,
    left: Sample<T>,
    right: Sample<T>,
    rate: u32,
    len: usize,
    host: Interpolator<T, R, F, N, I>,
    same: spec_fn(T, T) -> bool,
    both: Sample<T>,
    left_alone: Sample<T>,
    right_alone: Sample<T>,
    i: int,
)
    requires
        is_deterministic::<W>(),
        is_deterministic::<T>(),
        mul_is_deterministic::<T>(),
        is_single_valued::<W, T, R, F, N, I>(host),
        starts_alike(host.empty, same),
        forall|level: T| #[trigger] same(level, level),
        stereo.data() is Stereo,
        left.data() is Mono,
        right.data() is Mono,
        left.rate() == stereo.rate(),
        right.rate() == stereo.rate(),
        left.data().channel(0) == stereo.data().channel(0),
        right.data().channel(0) == stereo.data().channel(1),
        is_resampled::<W, T, R, F, N, I>(stereo, rate, len, host, both),
        is_resampled::<W, T, R, F, N, I>(left, rate, len, host, left_alone),
        is_resampled::<W, T, R, F, N, I>(right, rate, len, host, right_alone),
    ensures
        left_alone.data().count() == both.data().count(),
        right_alone.data().count() == both.data().count(),
        0 <= i < both.data().count() ==> same(
            both.data().level(i, 0),
            left_alone.data().level(i, 0),
        ) && same(both.data().level(i, 1), right_alone.data().level(i, 0)),
{
    let (src, l, r) = (stereo.data(), left.data(), right.data());
    let (x, a, b) = (both.data(), left_alone.data(), right_alone.data());
    assert(src.channel(0).len() == src.count() && src.channel(1).len() == src.count());
    assert(l.channel(0).len() == l.count() && r.channel(0).len() == r.count());
    if needs_interpolation(stereo, rate) {
        if 0 <= i < x.count() {
            assert(reads_pair::<W, T, R, F, N, I>(
                host,
                i,
                src.channel(0),
                src.channel(1),
                (x.level(i, 0), x.level(i, 1)),
            ));
            assert(reads_level::<W, T, R, F, N, I>(host, i, l.channel(0), a.level(i, 0)));
            assert(reads_level::<W, T, R, F, N, I>(host, i, r.channel(0), b.level(i, 0)));
            a_stereo_frame_is_two_mono_ones::<W, T, R, F, N, I>(
                host,
                same,
                i,
                src.channel(0),
                src.channel(1),
                (x.level(i, 0), x.level(i, 1)),
                a.level(i, 0),
                b.level(i, 0),
            );
        }
    } else if 0 <= i < x.count() {
        assert(src.channel(0)[i] == src.level(i, 0) && src.channel(1)[i] == src.level(i, 1));
        assert(l.channel(0)[i] == l.level(i, 0) && r.channel(0)[i] == r.level(i, 0));
    }
}

/// Where everything has one result, so has the kernel.
proof fn lemma_kernel_unique<
    W: Default + Add<Output = W>,
    T: Default + Add<Output = T> + Mul<Output = T>,
    R: Fn(usize) -> (isize, isize),
    F: Fn(usize, isize) -> W,
    N: Fn(W) -> T,
    I: Fn(W) -> T,
>(
    host: Interpolator<T, R, F, N, I>,
    i: usize,
    first: isize,
    last: isize,
    v: Seq<(isize, T)>,
    w: Seq<(isize, T)>,
)
    requires
        is_deterministic::<W>(),
        mul_is_deterministic::<T>(),
        is_single_valued::<W, T, R, F, N, I>(host),
        is_kernel::<W, T, R, F, N, I>(i, first, last, host, v),
        is_kernel::<W, T, R, F, N, I>(i, first, last, host, w),
    ensures
        v == w,
{
    let (p, s, m) = choose|raw: Seq<W>, sum: W, norm: T|
        {
            &&& #[trigger] are_weights(i, first, last, host.weight, raw)
            &&& #[trigger] sums_to(raw, sum)
            &&& #[trigger] call_ensures(host.invert, (sum,), norm)
            &&& v.len() == raw.len()
            &&& forall|k: int|
                0 <= k < v.len() ==> {
                    &&& (#[trigger] v[k]).0 == first + k
                    &&& is_scaled(raw[k], host.narrow, norm, v[k].1)
                }
        };
    let (q, t, n) = choose|raw: Seq<W>, sum: W, norm: T|
        {
            &&& #[trigger] are_weights(i, first, last, host.weight, raw)
            &&& #[trigger] sums_to(raw, sum)
            &&& #[trigger] call_ensures(host.invert, (sum,), norm)
            &&& w.len() == raw.len()
            &&& forall|k: int|
                0 <= k < w.len() ==> {
                    &&& (#[trigger] w[k]).0 == first + k
                    &&& is_scaled(raw[k], host.narrow, norm, w[k].1)
                }
        };
    assert forall|k: int| 0 <= k < p.len() implies p[k] == q[k] by {
        assert(call_ensures(host.weight, (i, (first + k) as isize), p[k]));
        assert(call_ensures(host.weight, (i, (first + k) as isize), q[k]));
    }
    assert(p =~= q);
    lemma_sum_unique(p, s, t);
    assert(m == n);
    assert forall|k: int| 0 <= k < v.len() implies v[k] == w[k] by {
        assert(v[k].0 == w[k].0);
        let a = choose|narrowed: T|
            call_ensures(host.narrow, (p[k],), narrowed) && #[trigger] multiplies(
                narrowed,
                m,
                v[k].1,
            );
        let b = choose|narrowed: T|
            call_ensures(host.narrow, (p[k],), narrowed) && #[trigger] multiplies(
                narrowed,
                m,
                w[k].1,
            );
        assert(a == b);
        assert(v[k].1 == w[k].1);
    }
    assert(v =~= w);
}

/// Where arithmetic has one result, weighted sums differ at most as the ways to start them do.
proof fn lemma_weighing_alike<T: Default + Add<Output = T> + Mul<Output = T>>(
    empty: T,
    same: spec_fn(T, T) -> bool,
    window: Seq<(isize, T)>,
    src: Seq<T>,
    x: T,
    y: T,
)
    requires
        is_deterministic::<T>(),
        mul_is_deterministic::<T>(),
        starts_alike(empty, same),
        weighs_to(window, src, x),
        weighs_from(empty, window, src, y),
    ensures
        same(x, y),
{
    let p = choose|terms: Seq<T>| #[trigger] are_terms(window, src, terms) && sums_to(terms, x);
    let q = choose|terms: Seq<T>| #[trigger]
        are_terms(window, src, terms) && sums_from(empty, terms, y);
    assert forall|k: int| 0 <= k < p.len() implies p[k] == q[k] by {
        assert(is_term(window[k], src, p[k]) && is_term(window[k], src, q[k]));
        let a = choose|a: T|
            reads_as(src, window[k].0 as int, a) && #[trigger] multiplies(window[k].1, a, p[k]);
        let b = choose|b: T|
            reads_as(src, window[k].0 as int, b) && #[trigger] multiplies(window[k].1, b, q[k]);
        assert(silent(a) && silent(b) ==> a == b);
        assert(a == b);
    }
    assert(p =~= q);
    lemma_sums_alike(empty, same, p, x, y);
}

/// Sums of the same levels differ at most as the ways to start them do.
proof fn lemma_sums_alike<T: Default + Add<Output = T>>(
    empty: T,
    same: spec_fn(T, T) -> bool,
    levels: Seq<T>,
    x: T,
    y: T,
)
    requires
        starts_alike(empty, same),
        sums_to(levels, x),
        sums_from(empty, levels, y),
    ensures
        same(x, y),
    decreases levels.len(),
{
    if levels.len() == 0 {
        assert(silent(x));
    } else {
        let shorter = levels.drop_last();
        let a = choose|a: T| sums_to(shorter, a) && #[trigger] adds(a, levels.last(), x);
        let b = choose|b: T| sums_from(empty, shorter, b) && #[trigger] adds(b, levels.last(), y);
        lemma_sums_alike(empty, same, shorter, a, b);
    }
}

} // verus!
