//! Onto the device: from the engine's stereo bus to a device's own channels.
//!
//! The engine renders a stereo bus; this is the mapping of that pair onto whatever channels the
//! device has, run once per frame inside the audio callback.
use core::ops::{Add, Mul};
use vstd::arithmetic::div_mod::{
    lemma_add_mod_noop, lemma_div_is_ordered, lemma_div_multiples_vanish,
    lemma_fundamental_div_mod, lemma_hoist_over_denominator, lemma_mod_adds, lemma_mod_bound,
    lemma_mod_self_0, lemma_small_mod,
};
use vstd::arithmetic::mul::lemma_mul_is_commutative;
use vstd::prelude::*;

use crate::engine::Engine;
#[allow(unused_imports)]
use crate::engine::{has_drained, is_processed};
use crate::frames::Frame;
#[allow(unused_imports)]
use crate::level::{add_is_total, adds, mul_is_total, multiplies, silent};

verus! {

/// Frames rendered per pass inside the callback. The block length is the device's choice, so the
/// bus is preallocated at this size and longer blocks take several passes: the callback itself
/// must never allocate.
pub const SCRATCH_FRAMES: usize = 2048;

/// The levels a device can take, and the factor a stereo pair is folded down by for a device with
/// a single channel.
pub struct Limits<S> {
    pub low: S,
    pub high: S,
    pub fold: S,
}

/// `r` is `x` held within `low..=high`. What compares as neither below nor above stays.
pub open spec fn clamps_to<S: PartialOrd>(x: S, low: S, high: S, r: S) -> bool {
    exists|below: bool, above: bool|
        {
            &&& #[trigger] call_ensures(<S as PartialOrd>::lt, (&x, &low), below)
            &&& #[trigger] call_ensures(<S as PartialOrd>::gt, (&x, &high), above)
            &&& r == if below {
                low
            } else if above {
                high
            } else {
                x
            }
        }
}

/// Hold `x` within `low..=high`.
pub fn clamp<S: Copy + PartialOrd>(x: S, low: S, high: S) -> (r: S)
    ensures
        clamps_to(x, low, high, r),
{
    let below = x < low;
    let above = x > high;
    if below {
        low
    } else if above {
        high
    } else {
        x
    }
}

/// `x` is what `convert` makes of silence.
pub open spec fn is_device_silence<S: Default, D, C: Fn(S) -> D>(convert: C, x: D) -> bool {
    exists|zero: S| #[trigger] silent(zero) && call_ensures(convert, (zero,), x)
}

/// `x` is what `convert` makes of `left` and `right` folded down to one channel.
pub open spec fn is_folded<S: Add<Output = S> + Mul<Output = S>, D, C: Fn(S) -> D>(
    left: S,
    right: S,
    fold: S,
    convert: C,
    x: D,
) -> bool {
    exists|sum: S, folded: S|
        {
            &&& #[trigger] adds(left, right, sum)
            &&& #[trigger] multiplies(sum, fold, folded)
            &&& call_ensures(convert, (folded,), x)
        }
}

/// `out`, one device frame with a sample per channel, carries a stereo pair that has been held
/// within the device's range: folded down on one channel, as it is on the first two of several,
/// with the others silent.
pub open spec fn carries<
    S: Default + Add<Output = S> + Mul<Output = S>,
    D,
    C: Fn(S) -> D,
>(left: S, right: S, fold: S, convert: C, out: Seq<D>) -> bool {
    if out.len() == 0 {
        true
    } else if out.len() == 1 {
        is_folded(left, right, fold, convert, out[0])
    } else {
        &&& call_ensures(convert, (left,), out[0])
        &&& call_ensures(convert, (right,), out[1])
        &&& forall|i: int| 2 <= i < out.len() ==> is_device_silence(convert, #[trigger] out[i])
    }
}

/// `out`, one device frame, is what the bus frame `frame` sounds like on the device.
pub open spec fn is_device_frame<
    S: Default + PartialOrd + Add<Output = S> + Mul<Output = S>,
    D,
    C: Fn(S) -> D,
>(frame: Frame<S>, limits: Limits<S>, convert: C, out: Seq<D>) -> bool {
    exists|left: S, right: S|
        {
            &&& #[trigger] clamps_to(frame@[0], limits.low, limits.high, left)
            &&& #[trigger] clamps_to(frame@[1], limits.low, limits.high, right)
            &&& carries(left, right, limits.fold, convert, out)
        }
}

/// Write one stereo engine frame to one device frame.
///
/// Mono devices get a fold-down, and anything past the first pair stays silent rather than
/// duplicating the front channels into surrounds.
///
/// The clamp is not cosmetic: a conversion to the device's own sample type may assume the range.
/// The engine's bus has no gain staging yet, so two overlapping hits of a normalized sample
/// already exceed it; overs are the normal case here, not an anomaly.
pub fn write_frame<
    S: Copy + Default + PartialOrd + Add<Output = S> + Mul<Output = S>,
    D,
    C: Fn(S) -> D,
>(out: &mut [D], frame: Frame<S>, limits: &Limits<S>, convert: &C)
    requires
        forall|s: S| call_requires(*convert, (s,)),
        add_is_total::<S>(),
        mul_is_total::<S>(),
    ensures
        final(out)@.len() == old(out)@.len(),
        is_device_frame(frame, *limits, *convert, final(out)@),
{
    let channels: usize = out.len();
    write_frame_at(out, 0, channels, frame, limits, convert);
    assert(out@.subrange(0, channels as int) =~= out@);
}

/// Write one stereo engine frame to the device frame of `channels` samples at `start`.
fn write_frame_at<
    S: Copy + Default + PartialOrd + Add<Output = S> + Mul<Output = S>,
    D,
    C: Fn(S) -> D,
>(
    out: &mut [D],
    start: usize,
    channels: usize,
    frame: Frame<S>,
    limits: &Limits<S>,
    convert: &C,
)
    requires
        start + channels <= old(out)@.len(),
        forall|s: S| call_requires(*convert, (s,)),
        add_is_total::<S>(),
        mul_is_total::<S>(),
    ensures
        final(out)@.len() == old(out)@.len(),
        is_device_frame(
            frame,
            *limits,
            *convert,
            final(out)@.subrange(start as int, start + channels),
        ),
        forall|i: int|
            0 <= i < old(out)@.len() && !(start <= i < start + channels) ==> final(out)@[i] == old(
                out,
            )@[i],
{
    // Per channel, so a mono device folds down what a stereo device would actually hear.
    let left = clamp(frame[0], limits.low, limits.high);
    let right = clamp(frame[1], limits.low, limits.high);
    let total: usize = out.len();
    let ghost out0 = out@;
    if channels == 1 {
        let sum = left + right;
        let folded = sum * limits.fold;
        out[start] = convert(folded);
        proof {
            assert(adds(left, right, sum));
            assert(multiplies(sum, limits.fold, folded));
        }
    } else if channels >= 2 {
        out[start] = convert(left);
        out[start + 1] = convert(right);
        let mut i: usize = 2;
        while i < channels
            invariant
                2 <= i <= channels,
                out@.len() == out0.len(),
                out@.len() == total,
                start + channels <= total,
                forall|s: S| call_requires(*convert, (s,)),
                call_ensures(*convert, (left,), out@[start as int]),
                call_ensures(*convert, (right,), out@[start + 1]),
                forall|k: int|
                    start + 2 <= k < start + i ==> is_device_silence(*convert, #[trigger] out@[k]),
                forall|k: int|
                    0 <= k < out0.len() && !(start <= k < start + channels) ==> out@[k] == out0[k],
            decreases channels - i,
        {
            let zero = S::default();
            let quiet = convert(zero);
            assert(silent(zero));
            out[start + i] = quiet;
            i = i + 1;
        }
    }
    proof {
        let written = out@.subrange(start as int, start + channels);
        assert forall|k: int| 2 <= k < written.len() implies is_device_silence(
            *convert,
            #[trigger] written[k],
        ) by {}
    }
}

/// The samples of the last pass over an output of `len` samples in passes of `block` samples.
pub open spec fn last_pass(len: nat, block: nat) -> nat
    recommends
        block > 0,
{
    if len % block == 0 {
        block
    } else {
        len % block
    }
}

/// An engine that was `before` is `after` once it has rendered `bus` for an output of `len`
/// samples, in passes of at most [`SCRATCH_FRAMES`] frames of `channels` samples each. Every pass
/// empties the command queue first.
pub open spec fn is_played<S: Default + Add<Output = S>>(
    before: Engine<S>,
    after: Engine<S>,
    len: nat,
    channels: nat,
    bus: Seq<Frame<S>>,
) -> bool
    decreases len,
{
    if len == 0 || channels == 0 {
        after == before && bus.len() == 0
    } else {
        let block = SCRATCH_FRAMES as nat * channels;
        let earlier = (len - last_pass(len, block)) as nat;
        let split = (earlier / channels) as int;
        proof {
            lemma_last_pass(len, channels);
        }
        &&& bus.len() == len / channels
        &&& exists|mid: Engine<S>|
            is_played(before, mid, earlier, channels, bus.take(split)) && #[trigger] is_processed(
                mid,
                after,
                bus.skip(split),
            ) && has_drained(mid, after)
    }
}

/// The last pass takes something, and no more than there is.
pub proof fn lemma_last_pass(len: nat, channels: nat)
    requires
        len > 0,
        channels > 0,
    ensures
        0 < last_pass(len, SCRATCH_FRAMES as nat * channels) <= len,
{
    let block = (SCRATCH_FRAMES as nat * channels) as int;
    assert(block > 0) by (nonlinear_arith)
        requires
            block == 2048 * channels,
            channels > 0,
    ;
    if len < block {
        lemma_small_mod(len, block as nat);
    } else {
        lemma_mod_bound(len as int, block);
    }
}

/// One more pass, of `pass` samples, after `start` samples that whole passes have filled.
proof fn lemma_next_pass(start: nat, done: nat, pass: nat, channels: nat)
    requires
        channels > 0,
        start == done * channels,
        start % (SCRATCH_FRAMES as nat * channels) == 0,
        0 < pass <= SCRATCH_FRAMES as nat * channels,
    ensures
        last_pass(start + pass, SCRATCH_FRAMES as nat * channels) == pass,
        start / channels == done,
        (start + pass) / channels == done + pass / channels,
        pass == SCRATCH_FRAMES as nat * channels ==> (start + pass) % (SCRATCH_FRAMES as nat
            * channels) == 0 && pass / channels == SCRATCH_FRAMES,
        (pass / channels) * channels <= pass,
        pass / channels <= SCRATCH_FRAMES,
{
    let c = channels as int;
    let block = SCRATCH_FRAMES * c;
    lemma_mod_adds(start as int, pass as int, block);
    if pass < block {
        lemma_small_mod(pass, block as nat);
    } else {
        lemma_mod_self_0(block);
    }
    lemma_add_mod_noop(start as int, pass as int, block);
    lemma_div_multiples_vanish(done as int, c);
    lemma_mul_is_commutative(done as int, c);
    lemma_hoist_over_denominator(pass as int, done as int, channels);
    lemma_fundamental_div_mod(pass as int, c);
    lemma_mul_is_commutative(c, pass as int / c);
    lemma_mod_bound(pass as int, c);
    lemma_div_is_ordered(pass as int, block, c);
    lemma_mul_is_commutative(SCRATCH_FRAMES as int, c);
    lemma_div_multiples_vanish(SCRATCH_FRAMES as int, c);
}

/// One more pass extends what has been played by what the engine processed.
pub(crate) proof fn lemma_played_extends<S: Default + Add<Output = S>>(
    before: Engine<S>,
    mid: Engine<S>,
    after: Engine<S>,
    start: nat,
    pass: nat,
    channels: nat,
    bus: Seq<Frame<S>>,
    rendered: Seq<Frame<S>>,
)
    requires
        channels > 0,
        start == bus.len() * channels,
        start % (SCRATCH_FRAMES as nat * channels) == 0,
        0 < pass <= SCRATCH_FRAMES as nat * channels,
        rendered.len() == pass / channels,
        is_played(before, mid, start, channels, bus),
        is_processed(mid, after, rendered),
        has_drained(mid, after),
    ensures
        is_played(before, after, start + pass, channels, bus + rendered),
{
    lemma_next_pass(start, bus.len(), pass, channels);
    let longer = bus + rendered;
    let split = bus.len() as int;
    let len = start + pass;
    assert((len - last_pass(len, SCRATCH_FRAMES as nat * channels)) as nat == start);
    assert(longer.take(split) =~= bus);
    assert(is_processed(mid, after, longer.skip(split)));
}

/// `output` carries `bus`, one device frame of `channels` samples per bus frame.
pub open spec fn carries_bus<
    S: Default + PartialOrd + Add<Output = S> + Mul<Output = S>,
    D,
    C: Fn(S) -> D,
>(
    bus: Seq<Frame<S>>,
    channels: int,
    limits: Limits<S>,
    convert: C,
    output: Seq<D>,
) -> bool {
    forall|f: int|
        0 <= f < bus.len() ==> is_device_frame(
            #[trigger] bus[f],
            limits,
            convert,
            output.subrange(f * channels, f * channels + channels),
        )
}

/// The audio callback: fill `output`, whose frames have `channels` samples each, from the engine.
///
/// `scratch` is the bus, allocated on the control thread. Samples past the last whole frame are
/// left as they are.
pub fn fill_output<
    S: Copy + Default + PartialOrd + Add<Output = S> + Mul<Output = S>,
    D,
    C: Fn(S) -> D,
>(
    engine: &mut Engine<S>,
    scratch: &mut [Frame<S>],
    output: &mut [D],
    channels: u16,
    limits: &Limits<S>,
    convert: &C,
)
    requires
        old(engine).wf(),
        old(engine).clock() + old(output)@.len() / channels as nat <= u64::MAX,
        old(scratch)@.len() == SCRATCH_FRAMES,
        channels >= 1,
        forall|s: S| call_requires(*convert, (s,)),
        add_is_total::<S>(),
        mul_is_total::<S>(),
    ensures
        final(engine).wf(),
        final(scratch)@.len() == old(scratch)@.len(),
        final(output)@.len() == old(output)@.len(),
        exists|bus: Seq<Frame<S>>|
            {
                &&& #[trigger] is_played(
                    *old(engine),
                    *final(engine),
                    old(output)@.len(),
                    channels as nat,
                    bus,
                )
                &&& carries_bus(bus, channels as int, *limits, *convert, final(output)@)
                &&& forall|i: int|
                    bus.len() * channels <= i < old(output)@.len() ==> final(output)@[i] == old(
                        output,
                    )@[i]
            },
{
    let stride: usize = channels as usize;
    assert(2048 * stride <= 2048 * 0xffff) by (nonlinear_arith)
        requires
            stride <= 0xffff,
    ;
    let block: usize = SCRATCH_FRAMES * stride;
    let total: usize = output.len();
    let ghost engine0 = *engine;
    let ghost output0 = output@;
    let ghost mut bus: Seq<Frame<S>> = Seq::empty();
    let mut start: usize = 0;
    proof {
        lemma_mod_self_0(block as int);
        lemma_small_mod(0, block as nat);
    }
    while start < total
        invariant
            stride == channels,
            stride >= 1,
            block == SCRATCH_FRAMES * stride,
            total == output@.len(),
            total == output0.len(),
            scratch@.len() == SCRATCH_FRAMES,
            start <= total,
            start < total ==> start == bus.len() * stride && start % block == 0,
            bus.len() == start as nat / stride as nat,
            engine.wf(),
            engine0.clock() + output0.len() / channels as nat <= u64::MAX,
            engine.clock() == engine0.clock() + bus.len(),
            forall|s: S| call_requires(*convert, (s,)),
            add_is_total::<S>(),
            mul_is_total::<S>(),
            is_played(engine0, *engine, start as nat, channels as nat, bus),
            carries_bus(bus, channels as int, *limits, *convert, output@),
            forall|i: int| bus.len() * channels <= i < total ==> output@[i] == output0[i],
        decreases total - start,
    {
        let left: usize = total - start;
        let pass: usize = if left < block {
            left
        } else {
            block
        };
        let frames: usize = pass / stride;
        let ghost done = bus.len();
        proof {
            lemma_next_pass(start as nat, done, pass as nat, stride as nat);
            lemma_div_is_ordered(start + pass, total as int, stride as int);
        }
        let ghost mid = *engine;
        let (part, _) = scratch.split_at_mut(frames);
        engine.process(part);
        let ghost rendered = scratch@.take(frames as int);
        let ghost longer = bus + rendered;
        let mut f: usize = 0;
        while f < frames
            invariant
                stride == channels,
                stride >= 1,
                0 <= f <= frames,
                frames <= SCRATCH_FRAMES,
                scratch@.len() == SCRATCH_FRAMES,
                rendered == scratch@.take(frames as int),
                longer == bus + rendered,
                bus.len() == done,
                total == output@.len(),
                total == output0.len(),
                start == done * stride,
                frames * stride <= pass,
                start + pass <= total,
                forall|s: S| call_requires(*convert, (s,)),
                add_is_total::<S>(),
                mul_is_total::<S>(),
                carries_bus(longer.take(done + f), channels as int, *limits, *convert, output@),
                forall|i: int| (done + f) * channels <= i < total ==> output@[i] == output0[i],
            decreases frames - f,
        {
            let ghost before = output@;
            proof {
                assert(0 <= f * stride && f * stride + stride <= frames * stride)
                    by (nonlinear_arith)
                    requires
                        f < frames,
                ;
                assert(start + f * stride == (done + f) * stride) by (nonlinear_arith)
                    requires
                        start == done * stride,
                ;
                assert((done + f + 1) * stride == (done + f) * stride + stride)
                    by (nonlinear_arith);
            }
            let at: usize = start + f * stride;
            write_frame_at(output, at, stride, scratch[f], limits, convert);
            proof {
                let shown = longer.take(done + f + 1);
                assert forall|g: int| 0 <= g < shown.len() implies is_device_frame(
                    #[trigger] shown[g],
                    *limits,
                    *convert,
                    output@.subrange(g * channels, g * channels + channels),
                ) by {
                    if g < done + f {
                        assert(0 <= g * stride && g * stride + stride <= at) by (nonlinear_arith)
                            requires
                                0 <= g < done + f,
                                at == (done + f) * stride,
                        ;
                        assert(output@.subrange(g * channels, g * channels + channels)
                            =~= before.subrange(g * channels, g * channels + channels));
                    }
                }
            }
            f = f + 1;
        }
        proof {
            assert(longer.take((done + frames) as int) =~= longer);
            lemma_played_extends(
                engine0,
                mid,
                *engine,
                start as nat,
                pass as nat,
                channels as nat,
                bus,
                rendered,
            );
            bus = longer;
            if pass == block {
                assert((done + frames) * stride == start + pass) by (nonlinear_arith)
                    requires
                        start == done * stride,
                        pass == 2048 * stride,
                        frames == 2048,
                ;
            }
        }
        start = start + pass;
    }
}

} // verus!
