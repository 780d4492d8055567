//! Interpolation: reading a sample between its frames.
//!
//! A window lists source frames with their weights, and an interpolated level is the weighted sum
//! over it. Where a window lies and how much a frame in it weighs takes numbers that this crate
//! does not know, so the host hands them in as an [`Interpolator`]; everything that is done with
//! them is here.
use core::ops::{Add, Mul};
use vstd::prelude::*;

use crate::frames::{Frame, Frames};
use crate::level::at;
#[allow(unused_imports)]
use crate::level::{
    add_is_total, lemma_sum_extends, lemma_sum_from_extends, mul_is_total, multiplies,
    reads_as, sums_from, sums_to,
};

verus! {

/// `term` is a weight times what lies at source frame `tap.0`.
pub open spec fn is_term<T: Default + Mul<Output = T>>(
    tap: (isize, T),
    src: Seq<T>,
    term: T,
) -> bool {
    exists|x: T| reads_as(src, tap.0 as int, x) && #[trigger] multiplies(tap.1, x, term)
}

/// `terms` are the weighted source levels of `window`, one for one.
pub open spec fn are_terms<T: Default + Mul<Output = T>>(
    window: Seq<(isize, T)>,
    src: Seq<T>,
    terms: Seq<T>,
) -> bool {
    &&& terms.len() == window.len()
    &&& forall|k: int| 0 <= k < window.len() ==> is_term(window[k], src, #[trigger] terms[k])
}

/// `r` is the sum of `src` weighted by `window`, taken from silence. Indices outside the source read
/// as silence, which is what lies outside a one-shot anyway.
pub open spec fn weighs_to<T: Default + Add<Output = T> + Mul<Output = T>>(
    window: Seq<(isize, T)>,
    src: Seq<T>,
    r: T,
) -> bool {
    exists|terms: Seq<T>| #[trigger] are_terms(window, src, terms) && sums_to(terms, r)
}

/// `r` is the sum of `src` weighted by `window`, taken from `start`.
pub open spec fn weighs_from<T: Default + Add<Output = T> + Mul<Output = T>>(
    start: T,
    window: Seq<(isize, T)>,
    src: Seq<T>,
    r: T,
) -> bool {
    exists|terms: Seq<T>| #[trigger] are_terms(window, src, terms) && sums_from(start, terms, r)
}

/// One level, interpolated from a mono source: the weighted levels added up from `start`.
pub fn weigh<T: Copy + Default + Add<Output = T> + Mul<Output = T>>(
    start: T,
    src: &Vec<T>,
    window: &Vec<(isize, T)>,
) -> (r: T)
    requires
        add_is_total::<T>(),
        mul_is_total::<T>(),
    ensures
        weighs_from(start, window@, src@, r),
{
    let mut acc = start;
    let ghost mut terms: Seq<T> = Seq::empty();
    let mut k: usize = 0;
    while k < window.len()
        invariant
            0 <= k <= window@.len(),
            add_is_total::<T>(),
            mul_is_total::<T>(),
            are_terms(window@.take(k as int), src@, terms),
            sums_from(start, terms, acc),
        decreases window@.len() - k,
    {
        let (j, w) = window[k];
        let x = at(src.as_slice(), j);
        let term = w * x;
        let next = acc + term;
        proof {
            assert(multiplies(window@[k as int].1, x, term));
            lemma_terms_extend(window@, src@, terms, k as int, term);
            lemma_sum_from_extends(start, terms, acc, term, next);
            terms = terms.push(term);
        }
        acc = next;
        k = k + 1;
    }
    assert(window@.take(window@.len() as int) =~= window@);
    acc
}

/// One frame, interpolated from a stereo source: the weighted levels added up from silence. The
/// channels stay independent.
pub fn weigh_pair<T: Copy + Default + Add<Output = T> + Mul<Output = T>>(
    src: &Vec<Frame<T>>,
    window: &Vec<(isize, T)>,
) -> (r: Frame<T>)
    requires
        add_is_total::<T>(),
        mul_is_total::<T>(),
    ensures
        weighs_to(window@, Seq::new(src@.len(), |i: int| src@[i]@[0]), r@[0]),
        weighs_to(window@, Seq::new(src@.len(), |i: int| src@[i]@[1]), r@[1]),
{
    let ghost lefts = Seq::new(src@.len(), |i: int| src@[i]@[0]);
    let ghost rights = Seq::new(src@.len(), |i: int| src@[i]@[1]);
    let mut left = T::default();
    let mut right = T::default();
    let ghost mut left_terms: Seq<T> = Seq::empty();
    let ghost mut right_terms: Seq<T> = Seq::empty();
    let mut k: usize = 0;
    while k < window.len()
        invariant
            0 <= k <= window@.len(),
            add_is_total::<T>(),
            mul_is_total::<T>(),
            lefts == Seq::new(src@.len(), |i: int| src@[i]@[0]),
            rights == Seq::new(src@.len(), |i: int| src@[i]@[1]),
            are_terms(window@.take(k as int), lefts, left_terms),
            are_terms(window@.take(k as int), rights, right_terms),
            sums_to(left_terms, left),
            sums_to(right_terms, right),
        decreases window@.len() - k,
    {
        let (j, w) = window[k];
        let (x, y) = if j >= 0 && (j as usize) < src.len() {
            let frame = src[j as usize];
            (frame[0], frame[1])
        } else {
            (T::default(), T::default())
        };
        let left_term = w * x;
        let right_term = w * y;
        let next_left = left + left_term;
        let next_right = right + right_term;
        proof {
            assert(multiplies(window@[k as int].1, x, left_term));
            assert(multiplies(window@[k as int].1, y, right_term));
            lemma_terms_extend(window@, lefts, left_terms, k as int, left_term);
            lemma_terms_extend(window@, rights, right_terms, k as int, right_term);
            lemma_sum_extends(left_terms, left, left_term, next_left);
            lemma_sum_extends(right_terms, right, right_term, next_right);
            left_terms = left_terms.push(left_term);
            right_terms = right_terms.push(right_term);
        }
        left = next_left;
        right = next_right;
        k = k + 1;
    }
    assert(window@.take(window@.len() as int) =~= window@);
    [left, right]
}

/// One more tap of the window is one more term.
proof fn lemma_terms_extend<T: Default + Mul<Output = T>>(
    window: Seq<(isize, T)>,
    src: Seq<T>,
    terms: Seq<T>,
    k: int,
    term: T,
)
    requires
        0 <= k < window.len(),
        are_terms(window.take(k), src, terms),
        is_term(window[k], src, term),
    ensures
        are_terms(window.take(k + 1), src, terms.push(term)),
{
    let extended = terms.push(term);
    assert forall|i: int| 0 <= i < k + 1 implies is_term(
        window.take(k + 1)[i],
        src,
        #[trigger] extended[i],
    ) by {}
}

/// The host's side of interpolation, in numbers of type `W` for weights and `T` for levels.
pub struct Interpolator<T, R, F, N, I> {
    /// What a sum of no levels comes to, and so what a mono frame is added up from. For floats that
    /// is negative zero, the one value that no level is changed by.
    pub empty: T,
    /// The first and last source frame that an output frame is made of: `Fn(usize) -> (isize, isize)`.
    pub reach: R,
    /// How much a source frame weighs in an output frame: `Fn(usize, isize) -> W`.
    pub weight: F,
    /// A weight brought down to a level: `Fn(W) -> T`.
    pub narrow: N,
    /// One over a sum of weights, brought down to a level: `Fn(W) -> T`.
    pub invert: I,
}

/// How many source frames lie in `first..=last`.
pub open spec fn tap_count(first: isize, last: isize) -> nat {
    if first <= last {
        (last - first + 1) as nat
    } else {
        0
    }
}

/// `raw` are the weights of source frames `first..=last` in output frame `i`, before
/// normalization.
pub open spec fn are_weights<W, F: Fn(usize, isize) -> W>(
    i: usize,
    first: isize,
    last: isize,
    weight: F,
    raw: Seq<W>,
) -> bool {
    &&& raw.len() == tap_count(first, last)
    &&& forall|k: int|
        0 <= k < raw.len() ==> call_ensures(weight, (i, (first + k) as isize), #[trigger] raw[k])
}

/// `level` is a weight brought down to a level and scaled by `norm`.
pub open spec fn is_scaled<W, T: Mul<Output = T>, N: Fn(W) -> T>(
    raw: W,
    narrow: N,
    norm: T,
    level: T,
) -> bool {
    exists|narrowed: T|
        call_ensures(narrow, (raw,), narrowed) && #[trigger] multiplies(narrowed, norm, level)
}

/// `window` is the interpolation kernel of output frame `i` over source frames `first..=last`: one
/// tap per frame in order, each weight divided by the sum of them all.
pub open spec fn is_kernel<
    W: Default + Add<Output = W>,
    T: Mul<Output = T>,
    R,
    F: Fn(usize, isize) -> W,
    N: Fn(W) -> T,
    I: Fn(W) -> T,
>(
    i: usize,
    first: isize,
    last: isize,
    host: Interpolator<T, R, F, N, I>,
    window: Seq<(isize, T)>,
) -> bool {
    exists|raw: Seq<W>, sum: W, norm: T|
        {
            &&& #[trigger] are_weights(i, first, last, host.weight, raw)
            &&& #[trigger] sums_to(raw, sum)
            &&& #[trigger] call_ensures(host.invert, (sum,), norm)
            &&& window.len() == raw.len()
            &&& forall|k: int|
                0 <= k < window.len() ==> {
                    &&& (#[trigger] window[k]).0 == first + k
                    &&& is_scaled(raw[k], host.narrow, norm, window[k].1)
                }
        }
}

/// The interpolation kernel of output frame `i` over source frames `first..=last`, as (source
/// frame index, weight). Indices outside the sample are kept: [`weigh`] reads them as silence.
///
/// The weights are summed as they are, and every one is scaled by the inverse of the sum.
/// Normalizing by their own sum costs one division and makes a constant input come out constant at
/// any fractional phase.
pub fn kernel<
    W: Copy + Default + Add<Output = W>,
    T: Copy + Mul<Output = T>,
    R,
    F: Fn(usize, isize) -> W,
    N: Fn(W) -> T,
    I: Fn(W) -> T,
>(i: usize, first: isize, last: isize, host: &Interpolator<T, R, F, N, I>) -> (window: Vec<
    (isize, T),
>)
    requires
        forall|j: isize| first <= j <= last ==> call_requires(host.weight, (i, j)),
        forall|w: W| call_requires(host.narrow, (w,)),
        forall|w: W| call_requires(host.invert, (w,)),
        add_is_total::<W>(),
        mul_is_total::<T>(),
    ensures
        is_kernel(i, first, last, *host, window@),
{
    let weight = &host.weight;
    let narrow = &host.narrow;
    let invert = &host.invert;
    let mut window: Vec<(isize, T)> = Vec::new();
    let mut sum = W::default();
    let ghost mut raw: Seq<W> = Seq::empty();
    let ghost mut narrowed: Seq<T> = Seq::empty();
    let mut j: isize = first;
    let mut more: bool = first <= last;
    while more
        invariant
            more <==> raw.len() < tap_count(first, last),
            raw.len() <= tap_count(first, last),
            more ==> j == first + raw.len() && first <= j <= last,
            forall|j: isize| first <= j <= last ==> call_requires(*weight, (i, j)),
            forall|w: W| call_requires(*narrow, (w,)),
            add_is_total::<W>(),
            narrowed.len() == raw.len(),
            window@.len() == raw.len(),
            sums_to(raw, sum),
            forall|k: int|
                0 <= k < raw.len() ==> call_ensures(
                    *weight,
                    (i, (first + k) as isize),
                    #[trigger] raw[k],
                ),
            forall|k: int|
                0 <= k < raw.len() ==> call_ensures(*narrow, (raw[k],), #[trigger] narrowed[k]),
            forall|k: int|
                #![trigger window@[k]]
                0 <= k < raw.len() ==> window@[k].0 == first + k && window@[k].1 == narrowed[k],
        decreases tap_count(first, last) - raw.len(),
    {
        let w = weight(i, j);
        let next = sum + w;
        let level = narrow(w);
        proof {
            lemma_sum_extends(raw, sum, w, next);
            raw = raw.push(w);
            narrowed = narrowed.push(level);
        }
        sum = next;
        window.push((j, level));
        if j < last {
            j = j + 1;
        } else {
            more = false;
        }
    }
    let norm = invert(sum);
    let mut k: usize = 0;
    while k < window.len()
        invariant
            0 <= k <= window@.len(),
            window@.len() == raw.len(),
            narrowed.len() == raw.len(),
            mul_is_total::<T>(),
            forall|t: int|
                0 <= t < raw.len() ==> call_ensures(*narrow, (raw[t],), #[trigger] narrowed[t]),
            forall|t: int|
                #![trigger window@[t]]
                0 <= t < k ==> window@[t].0 == first + t && is_scaled(
                    raw[t],
                    *narrow,
                    norm,
                    window@[t].1,
                ),
            forall|t: int|
                #![trigger window@[t]]
                k <= t < raw.len() ==> window@[t].0 == first + t && window@[t].1 == narrowed[t],
        decreases window@.len() - k,
    {
        let (index, level) = window[k];
        let scaled = level * norm;
        proof {
            assert(multiplies(narrowed[k as int], norm, scaled));
        }
        window[k] = (index, scaled);
        k = k + 1;
    }
    proof {
        assert(are_weights(i, first, last, host.weight, raw));
    }
    window
}

/// `frame` is a stereo source with channels `left` and `right` as output frame `i` reads it: both
/// channels weighted by the one kernel over the source frames in reach.
pub open spec fn reads_pair<
    W: Default + Add<Output = W>,
    T: Default + Add<Output = T> + Mul<Output = T>,
    R: Fn(usize) -> (isize, isize),
    F: Fn(usize, isize) -> W,
    N: Fn(W) -> T,
    I: Fn(W) -> T,
>(host: Interpolator<T, R, F, N, I>, i: int, left: Seq<T>, right: Seq<T>, frame: (T, T)) -> bool {
    exists|span: (isize, isize), window: Seq<(isize, T)>|
        {
            &&& #[trigger] call_ensures(host.reach, (i as usize,), span)
            &&& #[trigger] is_kernel::<W, T, R, F, N, I>(
                i as usize,
                span.0,
                span.1,
                host,
                window,
            )
            &&& weighs_to(window, left, frame.0)
            &&& weighs_to(window, right, frame.1)
        }
}

/// `level` is a mono source as output frame `i` reads it: weighted by the kernel over the source
/// frames in reach.
pub open spec fn reads_level<
    W: Default + Add<Output = W>,
    T: Default + Add<Output = T> + Mul<Output = T>,
    R: Fn(usize) -> (isize, isize),
    F: Fn(usize, isize) -> W,
    N: Fn(W) -> T,
    I: Fn(W) -> T,
>(host: Interpolator<T, R, F, N, I>, i: int, src: Seq<T>, level: T) -> bool {
    exists|span: (isize, isize), window: Seq<(isize, T)>|
        {
            &&& #[trigger] call_ensures(host.reach, (i as usize,), span)
            &&& #[trigger] is_kernel::<W, T, R, F, N, I>(
                i as usize,
                span.0,
                span.1,
                host,
                window,
            )
            &&& weighs_from(host.empty, window, src, level)
        }
}

/// `out` reads `frames` once per frame, and keeps the channel layout.
pub open spec fn is_interpolated<
    W: Default + Add<Output = W>,
    T: Default + Add<Output = T> + Mul<Output = T>,
    R: Fn(usize) -> (isize, isize),
    F: Fn(usize, isize) -> W,
    N: Fn(W) -> T,
    I: Fn(W) -> T,
>(frames: Frames<T>, host: Interpolator<T, R, F, N, I>, out: Frames<T>) -> bool {
    &&& frames is Mono <==> out is Mono
    &&& frames is Mono ==> forall|i: int|
        0 <= i < out.count() ==> reads_level::<W, T, R, F, N, I>(
            host,
            i,
            frames.channel(0),
            #[trigger] out.level(i, 0),
        )
    &&& frames is Stereo ==> forall|i: int|
        0 <= i < out.count() ==> #[trigger] reads_pair::<W, T, R, F, N, I>(
            host,
            i,
            frames.channel(0),
            frames.channel(1),
            (out.level(i, 0), out.level(i, 1)),
        )
}

/// The host's functions may be called for the first `count` output frames.
pub open spec fn can_interpolate<
    W,
    T,
    R: Fn(usize) -> (isize, isize),
    F: Fn(usize, isize) -> W,
    N: Fn(W) -> T,
    I: Fn(W) -> T,
>(host: Interpolator<T, R, F, N, I>, count: nat) -> bool {
    &&& forall|i: usize| i < count ==> #[trigger] call_requires(host.reach, (i,))
    &&& forall|i: usize, j: isize| i < count ==> #[trigger] call_requires(host.weight, (i, j))
    &&& forall|w: W| #[trigger] call_requires(host.narrow, (w,))
    &&& forall|w: W| #[trigger] call_requires(host.invert, (w,))
}

/// Each of the host's functions has one result for one argument.
pub open spec fn is_single_valued<
    W,
    T,
    R: Fn(usize) -> (isize, isize),
    F: Fn(usize, isize) -> W,
    N: Fn(W) -> T,
    I: Fn(W) -> T,
>(host: Interpolator<T, R, F, N, I>) -> bool {
    &&& forall|i: usize, a: (isize, isize), b: (isize, isize)| #[trigger]
        call_ensures(host.reach, (i,), a) && #[trigger] call_ensures(host.reach, (i,), b) ==> a == b
    &&& forall|i: usize, j: isize, a: W, b: W| #[trigger]
        call_ensures(host.weight, (i, j), a) && #[trigger] call_ensures(host.weight, (i, j), b)
            ==> a == b
    &&& forall|w: W, a: T, b: T| #[trigger]
        call_ensures(host.narrow, (w,), a) && #[trigger] call_ensures(host.narrow, (w,), b)
            ==> a == b
    &&& forall|w: W, a: T, b: T| #[trigger]
        call_ensures(host.invert, (w,), a) && #[trigger] call_ensures(host.invert, (w,), b)
            ==> a == b
}

/// Read `frames` at `count` positions, each through its own kernel.
pub fn interpolate<
    W: Copy + Default + Add<Output = W>,
    T: Copy + Default + Add<Output = T> + Mul<Output = T>,
    R: Fn(usize) -> (isize, isize),
    F: Fn(usize, isize) -> W,
    N: Fn(W) -> T,
    I: Fn(W) -> T,
>(frames: &Frames<T>, count: usize, host: &Interpolator<T, R, F, N, I>) -> (out: Frames<T>)
    requires
        can_interpolate::<W, T, R, F, N, I>(*host, count as nat),
        add_is_total::<W>(),
        add_is_total::<T>(),
        mul_is_total::<T>(),
    ensures
        out.count() == count,
        is_interpolated::<W, T, R, F, N, I>(*frames, *host, out),
{
    let reach = &host.reach;
    match frames {
        Frames::Mono(src) => {
            let mut data: Vec<T> = Vec::new();
            let mut i: usize = 0;
            assert(frames.channel(0) =~= src@);
            while i < count
                invariant
                    0 <= i <= count,
                    data@.len() == i,
                    reach == host.reach,
                    can_interpolate::<W, T, R, F, N, I>(*host, count as nat),
                    add_is_total::<W>(),
                    add_is_total::<T>(),
                    mul_is_total::<T>(),
                    forall|k: int|
                        0 <= k < i ==> reads_level::<W, T, R, F, N, I>(
                            *host,
                            k,
                            src@,
                            #[trigger] data@[k],
                        ),
                decreases count - i,
            {
                let (first, last) = reach(i);
                let window = kernel(i, first, last, host);
                let level = weigh(host.empty, src, &window);
                proof {
                    let span = (first, last);
                    assert(is_kernel::<W, T, R, F, N, I>(
                        i as int as usize,
                        span.0,
                        span.1,
                        *host,
                        window@,
                    ));
                }
                data.push(level);
                i = i + 1;
            }
            let out = Frames::Mono(data);
            proof {
                assert forall|k: int| 0 <= k < count implies reads_level::<W, T, R, F, N, I>(
                    *host,
                    k,
                    frames.channel(0),
                    #[trigger] out.level(k, 0),
                ) by {
                    assert(data@[k] == out.level(k, 0));
                }
            }
            out
        },
        Frames::Stereo(src) => {
            let mut data: Vec<Frame<T>> = Vec::new();
            let mut i: usize = 0;
            while i < count
                invariant
                    0 <= i <= count,
                    data@.len() == i,
                    reach == host.reach,
                    frames.channel(0) == Seq::new(src@.len(), |i: int| src@[i]@[0]),
                    frames.channel(1) == Seq::new(src@.len(), |i: int| src@[i]@[1]),
                    can_interpolate::<W, T, R, F, N, I>(*host, count as nat),
                    add_is_total::<W>(),
                    add_is_total::<T>(),
                    mul_is_total::<T>(),
                    forall|k: int|
                        0 <= k < i ==> reads_pair::<W, T, R, F, N, I>(
                            *host,
                            k,
                            frames.channel(0),
                            frames.channel(1),
                            ((#[trigger] data@[k])@[0], data@[k]@[1]),
                        ),
                decreases count - i,
            {
                let (first, last) = reach(i);
                let window = kernel(i, first, last, host);
                let frame = weigh_pair(src, &window);
                proof {
                    let span = (first, last);
                    assert(is_kernel::<W, T, R, F, N, I>(
                        i as int as usize,
                        span.0,
                        span.1,
                        *host,
                        window@,
                    ));
                }
                data.push(frame);
                i = i + 1;
            }
            let out = Frames::Stereo(data);
            proof {
                assert forall|k: int| 0 <= k < count implies #[trigger] reads_pair::<
                    W,
                    T,
                    R,
                    F,
                    N,
                    I,
                >(
                    *host,
                    k,
                    frames.channel(0),
                    frames.channel(1),
                    (out.level(k, 0), out.level(k, 1)),
                ) by {
                    assert(data@[k]@[0] == out.level(k, 0));
                }
            }
            out
        },
    }
}

} // verus!
