//! What reaches the device, said of the calls themselves.
use core::ops::{Add, Mul};
use vstd::arithmetic::div_mod::{
    lemma_div_is_ordered, lemma_div_pos_is_pos, lemma_fundamental_div_mod,
    lemma_fundamental_div_mod_converse, lemma_mod_bound,
};
use vstd::arithmetic::mul::{lemma_mul_inequality, lemma_mul_is_commutative};
use vstd::prelude::*;

use crate::device::{clamp, fill_output, write_frame, Limits};
#[allow(unused_imports)]
use crate::device::{
    carries, carries_bus, clamps_to, is_device_frame, is_device_silence, is_played, last_pass,
    lemma_last_pass, SCRATCH_FRAMES,
};
use crate::engine::Engine;
#[allow(unused_imports)]
use crate::engine::{has_drained, is_processed};
use crate::frames::Frame;
#[allow(unused_imports)]
use crate::laws::arithmetic::{adds_like, multiplies_like};
#[allow(unused_imports)]
use crate::laws::scheduling::{
    events_from, lemma_events_from, lemma_processed_frame_by_frame, played_frame_by_frame,
};
#[allow(unused_imports)]
use crate::laws::voicing::stored_len;
#[allow(unused_imports)]
use crate::level::{adds, multiplies, silent};
use crate::queue::Command;
use crate::voices::Voice;

verus! {

/// `x` compares neither below `low` nor above `high`.
pub open spec fn lies_within<S: PartialOrd>(x: S, low: S, high: S) -> bool {
    &&& forall|below: bool| #[trigger]
        call_ensures(<S as PartialOrd>::lt, (&x, &low), below) ==> !below
    &&& forall|above: bool| #[trigger]
        call_ensures(<S as PartialOrd>::gt, (&x, &high), above) ==> !above
}

/// A level within the limits is left alone, one below them becomes the lower one, and any other above
/// them the upper one.
pub proof fn clamping_holds_a_level_within_limits<S: Copy + PartialOrd>(
    x: S,
    low: S,
    high: S,
    r: S,
)
    requires
        call_ensures(clamp::<S>, (x, low, high), r),
    ensures
        lies_within(x, low, high) ==> r == x,
        (forall|below: bool| #[trigger]
            call_ensures(<S as PartialOrd>::lt, (&x, &low), below) ==> below) ==> r == low,
        (forall|below: bool| #[trigger]
            call_ensures(<S as PartialOrd>::lt, (&x, &low), below) ==> !below) && (forall|
            above: bool,
        | #[trigger]
            call_ensures(<S as PartialOrd>::gt, (&x, &high), above) ==> above) ==> r == high,
{
}

/// On a device of two or more channels, a bus level within the limits reaches its own channel as the
/// conversion of that very level, whatever the other side of the frame holds.
pub proof fn a_level_within_the_limits_reaches_its_channel<
    S: Copy + Default + PartialOrd + Add<Output = S> + Mul<Output = S>,
    D,
    C: Fn(S) -> D,
>(out: &mut [D], frame: Frame<S>, limits: &Limits<S>, convert: &C, side: int)
    requires
        call_ensures(write_frame::<S, D, C>, (out, frame, limits, convert), ()),
        old(out)@.len() >= 2,
        0 <= side < 2,
        lies_within(frame@[side], limits.low, limits.high),
    ensures
        final(out)@.len() == old(out)@.len(),
        call_ensures(*convert, (frame@[side],), final(out)@[side]),
{
}

/// On a device of two or more channels, a bus level below the limits reaches its own channel as the
/// conversion of the lower limit, and one above them as that of the upper limit, whatever the other
/// side of the frame holds.
pub proof fn a_level_past_the_limits_reaches_its_channel_at_the_limit<
    S: Copy + Default + PartialOrd + Add<Output = S> + Mul<Output = S>,
    D,
    C: Fn(S) -> D,
>(out: &mut [D], frame: Frame<S>, limits: &Limits<S>, convert: &C, side: int)
    requires
        call_ensures(write_frame::<S, D, C>, (out, frame, limits, convert), ()),
        old(out)@.len() >= 2,
        0 <= side < 2,
    ensures
        (forall|below: bool| #[trigger]
            call_ensures(<S as PartialOrd>::lt, (&frame@[side], &limits.low), below) ==> below)
            ==> call_ensures(*convert, (limits.low,), final(out)@[side]),
        (forall|below: bool| #[trigger]
            call_ensures(<S as PartialOrd>::lt, (&frame@[side], &limits.low), below) ==> !below) && (
        forall|above: bool| #[trigger]
            call_ensures(<S as PartialOrd>::gt, (&frame@[side], &limits.high), above) ==> above)
            ==> call_ensures(*convert, (limits.high,), final(out)@[side]),
{
}

/// Levels compare like `below` and `above`.
pub open spec fn compares_like<S: PartialOrd>(
    below: spec_fn(S, S) -> bool,
    above: spec_fn(S, S) -> bool,
) -> bool {
    &&& forall|a: S, b: S, r: bool| #[trigger]
        call_ensures(<S as PartialOrd>::lt, (&a, &b), r) ==> r == below(a, b)
    &&& forall|a: S, b: S, r: bool| #[trigger]
        call_ensures(<S as PartialOrd>::gt, (&a, &b), r) ==> r == above(a, b)
}

/// `convert` makes of every level what `shown` says.
pub open spec fn converts_like<S, D, C: Fn(S) -> D>(convert: C, shown: spec_fn(S) -> D) -> bool {
    forall|x: S, r: D| #[trigger] call_ensures(convert, (x,), r) ==> r == shown(x)
}

/// Changing one side of a bus frame never changes the other side's device sample: two frames that
/// share a side sound the same there, on devices of any two channel counts from two upwards.
pub proof fn one_side_never_changes_the_other<
    S: Copy + Default + PartialOrd + Add<Output = S> + Mul<Output = S>,
    D,
    C: Fn(S) -> D,
>(
    one: &mut [D],
    two: &mut [D],
    first: Frame<S>,
    second: Frame<S>,
    limits: &Limits<S>,
    convert: &C,
    side: int,
    below: spec_fn(S, S) -> bool,
    above: spec_fn(S, S) -> bool,
    shown: spec_fn(S) -> D,
)
    requires
        call_ensures(write_frame::<S, D, C>, (one, first, limits, convert), ()),
        call_ensures(write_frame::<S, D, C>, (two, second, limits, convert), ()),
        old(one)@.len() >= 2,
        old(two)@.len() >= 2,
        0 <= side < 2,
        first@[side] == second@[side],
        compares_like(below, above),
        converts_like(*convert, shown),
    ensures
        final(one)@[side] == final(two)@[side],
{
}

/// `x` held within `low..=high`.
pub open spec fn held<S>(
    x: S,
    low: S,
    high: S,
    below: spec_fn(S, S) -> bool,
    above: spec_fn(S, S) -> bool,
) -> S {
    if below(x, low) {
        low
    } else if above(x, high) {
        high
    } else {
        x
    }
}

/// The sample that channel `c` of a device with `channels` of them shows of a bus frame: both sides
/// added and folded where it is the only one, its own side on the first two of several, and silence
/// past them.
pub open spec fn device_sample<S, D>(
    frame: Frame<S>,
    channels: int,
    c: int,
    limits: Limits<S>,
    zero: S,
    plus: spec_fn(S, S) -> S,
    times: spec_fn(S, S) -> S,
    below: spec_fn(S, S) -> bool,
    above: spec_fn(S, S) -> bool,
    shown: spec_fn(S) -> D,
) -> D {
    let left = held(frame@[0], limits.low, limits.high, below, above);
    let right = held(frame@[1], limits.low, limits.high, below, above);
    shown(
        if channels == 1 {
            times(plus(left, right), limits.fold)
        } else if c == 0 {
            left
        } else if c == 1 {
            right
        } else {
            zero
        },
    )
}

proof fn lemma_device_sample<
    S: Copy + Default + PartialOrd + Add<Output = S> + Mul<Output = S>,
    D,
    C: Fn(S) -> D,
>(
    frame: Frame<S>,
    limits: Limits<S>,
    convert: C,
    out: Seq<D>,
    c: int,
    zero: S,
    plus: spec_fn(S, S) -> S,
    times: spec_fn(S, S) -> S,
    below: spec_fn(S, S) -> bool,
    above: spec_fn(S, S) -> bool,
    shown: spec_fn(S) -> D,
)
    requires
        is_device_frame(frame, limits, convert, out),
        0 <= c < out.len(),
        adds_like(zero, plus),
        multiplies_like(times),
        compares_like(below, above),
        converts_like(convert, shown),
    ensures
        out[c] == device_sample(
            frame,
            out.len() as int,
            c,
            limits,
            zero,
            plus,
            times,
            below,
            above,
            shown,
        ),
{
    let (left, right) = choose|left: S, right: S|
        {
            &&& #[trigger] clamps_to(frame@[0], limits.low, limits.high, left)
            &&& #[trigger] clamps_to(frame@[1], limits.low, limits.high, right)
            &&& carries(left, right, limits.fold, convert, out)
        };
    assert(left == held(frame@[0], limits.low, limits.high, below, above));
    assert(right == held(frame@[1], limits.low, limits.high, below, above));
    if out.len() == 1 {
        let (sum, folded) = choose|sum: S, folded: S|
            {
                &&& #[trigger] adds(left, right, sum)
                &&& #[trigger] multiplies(sum, limits.fold, folded)
                &&& call_ensures(convert, (folded,), out[0])
            };
        assert(call_ensures(<S as Add>::add, (left, right), sum));
        assert(call_ensures(<S as Mul>::mul, (sum, limits.fold), folded));
    } else if c >= 2 {
        assert(is_device_silence(convert, out[c]));
        let quiet = choose|quiet: S| #[trigger] silent(quiet) && call_ensures(convert, (quiet,), out[c]);
        assert(call_ensures(S::default, (), quiet));
    }
}

/// Writing a frame gives every channel of the device its sample, however many there are.
pub proof fn a_frame_reaches_every_channel<
    S: Copy + Default + PartialOrd + Add<Output = S> + Mul<Output = S>,
    D,
    C: Fn(S) -> D,
>(
    out: &mut [D],
    frame: Frame<S>,
    limits: &Limits<S>,
    convert: &C,
    c: int,
    zero: S,
    plus: spec_fn(S, S) -> S,
    times: spec_fn(S, S) -> S,
    below: spec_fn(S, S) -> bool,
    above: spec_fn(S, S) -> bool,
    shown: spec_fn(S) -> D,
)
    requires
        call_ensures(write_frame::<S, D, C>, (out, frame, limits, convert), ()),
        0 <= c < old(out)@.len(),
        adds_like(zero, plus),
        multiplies_like(times),
        compares_like(below, above),
        converts_like(*convert, shown),
    ensures
        final(out)@[c] == device_sample(
            frame,
            old(out)@.len() as int,
            c,
            *limits,
            zero,
            plus,
            times,
            below,
            above,
            shown,
        ),
{
    lemma_device_sample(
        frame,
        *limits,
        *convert,
        final(out)@,
        c,
        zero,
        plus,
        times,
        below,
        above,
        shown,
    );
}

/// The callback shows one bus frame after another: sample `i` of the output is on channel
/// `i % channels` of frame `i / channels`, as many frames are played as the output has room for whole
/// ones, the engine counts every one of them, and what is past them stays.
pub proof fn a_callback_shows_every_bus_frame<
    S: Copy + Default + PartialOrd + Add<Output = S> + Mul<Output = S>,
    D,
    C: Fn(S) -> D,
>(
    engine: &mut Engine<S>,
    scratch: &mut [Frame<S>],
    output: &mut [D],
    channels: u16,
    limits: &Limits<S>,
    convert: &C,
    zero: S,
    plus: spec_fn(S, S) -> S,
    times: spec_fn(S, S) -> S,
    below: spec_fn(S, S) -> bool,
    above: spec_fn(S, S) -> bool,
    shown: spec_fn(S) -> D,
)
    requires
        call_ensures(
            fill_output::<S, D, C>,
            (engine, scratch, output, channels, limits, convert),
            (),
        ),
        channels >= 1,
        adds_like(zero, plus),
        multiplies_like(times),
        compares_like(below, above),
        converts_like(*convert, shown),
    ensures
        final(output)@.len() == old(output)@.len(),
        exists|bus: Seq<Frame<S>>|
            {
                &&& bus.len() == old(output)@.len() / channels as nat
                &&& #[trigger] is_played(
                    *old(engine),
                    *final(engine),
                    old(output)@.len(),
                    channels as nat,
                    bus,
                )
                &&& forall|i: int|
                    0 <= i < bus.len() * channels ==> #[trigger] final(output)@[i] == device_sample(
                        bus[i / channels as int],
                        channels as int,
                        i % channels as int,
                        *limits,
                        zero,
                        plus,
                        times,
                        below,
                        above,
                        shown,
                    )
                &&& forall|i: int|
                    bus.len() * channels <= i < old(output)@.len() ==> #[trigger] final(output)@[i]
                        == old(output)@[i]
            },
{
    let len = old(output)@.len();
    let shown_samples = final(output)@;
    let bus = choose|bus: Seq<Frame<S>>|
        {
            &&& #[trigger] is_played(*old(engine), *final(engine), len, channels as nat, bus)
            &&& carries_bus(bus, channels as int, *limits, *convert, shown_samples)
            &&& forall|i: int|
                bus.len() * channels <= i < len ==> shown_samples[i] == old(output)@[i]
        };
    let stride = channels as int;
    if len == 0 {
        lemma_fundamental_div_mod_converse(0, stride, 0, 0);
    }
    lemma_fundamental_div_mod(len as int, stride);
    lemma_mod_bound(len as int, stride);
    lemma_mul_is_commutative(bus.len() as int, stride);
    assert forall|i: int| 0 <= i < bus.len() * channels implies #[trigger] shown_samples[i]
        == device_sample(
        bus[i / stride],
        stride,
        i % stride,
        *limits,
        zero,
        plus,
        times,
        below,
        above,
        shown,
    ) by {
        let f = i / stride;
        let c = i % stride;
        lemma_fundamental_div_mod(i, stride);
        lemma_mod_bound(i, stride);
        lemma_div_pos_is_pos(i, stride);
        lemma_mul_is_commutative(f, stride);
        if f >= bus.len() {
            lemma_mul_inequality(bus.len() as int, f, stride);
        }
        assert((f + 1) * stride == f * stride + stride) by (nonlinear_arith);
        lemma_mul_inequality(f + 1, bus.len() as int, stride);
        let written = shown_samples.subrange(f * stride, f * stride + stride);
        assert(is_device_frame(bus[f], *limits, *convert, written));
        lemma_device_sample(
            bus[f],
            *limits,
            *convert,
            written,
            c,
            zero,
            plus,
            times,
            below,
            above,
            shown,
        );
        assert(written[c] == shown_samples[i]);
    }
}

/// An engine that was `before` is `after` once it has played `bus` as one block: it took commands until it
/// found none, played from those and from what was pending frame by frame, and keeps what is still to
/// come.
pub open spec fn is_one_block<S>(
    before: Engine<S>,
    after: Engine<S>,
    bus: Seq<Frame<S>>,
    zero: S,
    plus: spec_fn(S, S) -> S,
) -> bool {
    let commands = after.taken().skip(before.taken().len() as int);
    let events = events_from(before.events(), before.clock(), commands);
    &&& before.taken() + commands == after.taken()
    &&& after.attempts() == (before.attempts() + commands.map_values(
        |command: Command| Some(command),
    )).push(None)
    &&& exists|pools: Seq<Seq<Voice>>, struck: Seq<Seq<Voice>>| #[trigger]
        played_frame_by_frame(
            before.clock(),
            before.pool(),
            after.pool(),
            events,
            before.sample().data(),
            bus,
            pools,
            struck,
            zero,
            plus,
        )
    &&& after.clock() == before.clock() + bus.len()
    &&& after.sample() == before.sample()
    &&& forall|t: u64| #[trigger]
        after.events().count(t) == if t < before.clock() + bus.len() {
            0
        } else {
            events.count(t)
        }
}

/// Where pass `p` over `n` bus frames begins.
pub open spec fn pass_start(p: int, n: int) -> int {
    if 2048 * p < n {
        2048 * p
    } else {
        n
    }
}

/// `states` are those an engine goes through in passes of 2048 frames over `bus`, the last one possibly
/// shorter: each pass is one block.
pub open spec fn are_passes<S>(
    states: Seq<Engine<S>>,
    bus: Seq<Frame<S>>,
    zero: S,
    plus: spec_fn(S, S) -> S,
) -> bool {
    &&& states.len() >= 1
    &&& bus.len() <= 2048 * (states.len() - 1)
    &&& forall|p: int|
        0 <= p < states.len() - 1 ==> is_one_block(
            #[trigger] states[p],
            states[p + 1],
            bus.subrange(
                pass_start(p, bus.len() as int),
                pass_start(p + 1, bus.len() as int),
            ),
            zero,
            plus,
        )
}

/// What was processed, with the queue emptied first, was played as one block.
proof fn lemma_one_block<S: Copy + Default + Add<Output = S>>(
    before: Engine<S>,
    after: Engine<S>,
    bus: Seq<Frame<S>>,
    zero: S,
    plus: spec_fn(S, S) -> S,
)
    requires
        before.wf(),
        is_processed(before, after, bus),
        has_drained(before, after),
        before.clock() + bus.len() <= u64::MAX,
        stored_len(before.sample().data()) <= usize::MAX,
        adds_like(zero, plus),
    ensures
        is_one_block(before, after, bus, zero, plus),
{
    let commands = after.taken().skip(before.taken().len() as int);
    lemma_processed_frame_by_frame(before, after, bus, zero, plus);
    lemma_events_from(before.events(), before.clock(), commands);
    assert(before.taken() + commands =~= after.taken());
}

/// The number of passes over `len` samples.
spec fn passes(len: nat, channels: nat) -> nat {
    let block = 2048 * channels;
    if len % block == 0 {
        len / block
    } else {
        len / block + 1
    }
}

/// Every pass but the last is a whole one.
proof fn lemma_passes(len: nat, channels: nat)
    requires
        len > 0,
        channels > 0,
    ensures
        ({
            let block = 2048 * channels;
            let earlier = (len - last_pass(len, block)) as nat;
            &&& 0 < last_pass(len, block) <= len
            &&& earlier < len
            &&& passes(len, channels) == passes(earlier, channels) + 1
            &&& earlier / channels == 2048 * passes(earlier, channels)
            &&& 2048 * passes(earlier, channels) <= len / channels <= 2048 * passes(len, channels)
        }),
{
    let c = channels as int;
    let block = 2048 * c;
    assert(block > 0) by (nonlinear_arith)
        requires
            block == 2048 * c,
            c > 0,
    ;
    lemma_last_pass(len, channels);
    lemma_fundamental_div_mod(len as int, block);
    lemma_mod_bound(len as int, block);
    lemma_div_pos_is_pos(len as int, block);
    let whole = len as int / block;
    let earlier = len - last_pass(len, (2048 * channels) as nat);
    let e = if len as int % block == 0 {
        whole - 1
    } else {
        whole
    };
    assert(block * (whole - 1) == block * whole - block) by (nonlinear_arith);
    assert(earlier == block * e);
    assert(e >= 0) by (nonlinear_arith)
        requires
            block * e == earlier,
            earlier >= 0,
            block > 0,
    ;
    lemma_fundamental_div_mod_converse(earlier, block, e, 0);
    assert(block * e == c * (2048 * e)) by (nonlinear_arith)
        requires
            block == 2048 * c,
    ;
    lemma_fundamental_div_mod_converse(earlier, c, 2048 * e, 0);
    lemma_div_is_ordered(earlier, len as int, c);
    assert(block * (e + 1) == c * (2048 * (e + 1))) by (nonlinear_arith)
        requires
            block == 2048 * c,
    ;
    assert(block * (e + 1) == block * e + block) by (nonlinear_arith);
    lemma_div_is_ordered(len as int, block * (e + 1), c);
    lemma_fundamental_div_mod_converse(block * (e + 1), c, 2048 * (e + 1), 0);
}

/// What was played went through its passes.
proof fn lemma_played_in_passes<S: Copy + Default + Add<Output = S>>(
    before: Engine<S>,
    after: Engine<S>,
    len: nat,
    channels: nat,
    bus: Seq<Frame<S>>,
    zero: S,
    plus: spec_fn(S, S) -> S,
)
    requires
        before.wf(),
        channels > 0,
        is_played(before, after, len, channels, bus),
        before.clock() + len / channels <= u64::MAX,
        stored_len(before.sample().data()) <= usize::MAX,
        adds_like(zero, plus),
    ensures
        exists|states: Seq<Engine<S>>|
            {
                &&& #[trigger] are_passes(states, bus, zero, plus)
                &&& states.len() == passes(len, channels) + 1
                &&& states[0] == before
                &&& states[states.len() - 1] == after
            },
        after.wf(),
        after.clock() == before.clock() + bus.len(),
        after.sample() == before.sample(),
        bus.len() == len / channels,
    decreases len,
{
    if len == 0 {
        let block = 2048 * channels as int;
        assert(block > 0) by (nonlinear_arith)
            requires
                block == 2048 * channels,
                channels > 0,
        ;
        lemma_fundamental_div_mod_converse(0, block, 0, 0);
        lemma_fundamental_div_mod_converse(0, channels as int, 0, 0);
        assert(are_passes(seq![before], bus, zero, plus));
    } else {
        let block = SCRATCH_FRAMES as nat * channels;
        let earlier = (len - last_pass(len, block)) as nat;
        let split = (earlier / channels) as int;
        lemma_passes(len, channels);
        let mid = choose|mid: Engine<S>|
            is_played(before, mid, earlier, channels, bus.take(split)) && #[trigger] is_processed(
                mid,
                after,
                bus.skip(split),
            ) && has_drained(mid, after);
        lemma_played_in_passes(before, mid, earlier, channels, bus.take(split), zero, plus);
        let fewer = choose|states: Seq<Engine<S>>|
            {
                &&& #[trigger] are_passes(states, bus.take(split), zero, plus)
                &&& states.len() == passes(earlier, channels) + 1
                &&& states[0] == before
                &&& states[states.len() - 1] == mid
            };
        lemma_one_block(mid, after, bus.skip(split), zero, plus);
        let states = fewer.push(after);
        let n = bus.len() as int;
        assert forall|p: int| 0 <= p < states.len() - 1 implies is_one_block(
            #[trigger] states[p],
            states[p + 1],
            bus.subrange(pass_start(p, n), pass_start(p + 1, n)),
            zero,
            plus,
        ) by {
            if p < fewer.len() - 1 {
                assert(is_one_block(
                    fewer[p],
                    fewer[p + 1],
                    bus.take(split).subrange(pass_start(p, split), pass_start(p + 1, split)),
                    zero,
                    plus,
                ));
                assert(bus.take(split).subrange(pass_start(p, split), pass_start(p + 1, split))
                    =~= bus.subrange(pass_start(p, n), pass_start(p + 1, n)));
            } else {
                assert(bus.skip(split) =~= bus.subrange(pass_start(p, n), pass_start(p + 1, n)));
            }
        }
        assert(are_passes(states, bus, zero, plus));
    }
}

/// The callback plays the engine block by block, 2048 frames at a time and whatever is left in the end,
/// and shows every frame of every block.
pub proof fn a_callback_plays_block_by_block<
    S: Copy + Default + PartialOrd + Add<Output = S> + Mul<Output = S>,
    D,
    C: Fn(S) -> D,
>(
    engine: &mut Engine<S>,
    scratch: &mut [Frame<S>],
    output: &mut [D],
    channels: u16,
    limits: &Limits<S>,
    convert: &C,
    zero: S,
    plus: spec_fn(S, S) -> S,
    times: spec_fn(S, S) -> S,
    below: spec_fn(S, S) -> bool,
    above: spec_fn(S, S) -> bool,
    shown: spec_fn(S) -> D,
)
    requires
        call_ensures(
            fill_output::<S, D, C>,
            (engine, scratch, output, channels, limits, convert),
            (),
        ),
        old(engine).wf(),
        channels >= 1,
        old(engine).clock() + old(output)@.len() / channels as nat <= u64::MAX,
        stored_len(old(engine).sample().data()) <= usize::MAX,
        adds_like(zero, plus),
        multiplies_like(times),
        compares_like(below, above),
        converts_like(*convert, shown),
    ensures
        exists|states: Seq<Engine<S>>, bus: Seq<Frame<S>>|
            {
                &&& #[trigger] are_passes(states, bus, zero, plus)
                &&& states[0] == *old(engine)
                &&& states[states.len() - 1] == *final(engine)
                &&& bus.len() == old(output)@.len() / channels as nat
                &&& forall|i: int|
                    0 <= i < bus.len() * channels ==> #[trigger] final(output)@[i] == device_sample(
                        bus[i / channels as int],
                        channels as int,
                        i % channels as int,
                        *limits,
                        zero,
                        plus,
                        times,
                        below,
                        above,
                        shown,
                    )
                &&& forall|i: int|
                    bus.len() * channels <= i < old(output)@.len() ==> #[trigger] final(output)@[i]
                        == old(output)@[i]
            },
{
    a_callback_shows_every_bus_frame::<S, D, C>(
        engine,
        scratch,
        output,
        channels,
        limits,
        convert,
        zero,
        plus,
        times,
        below,
        above,
        shown,
    );
    let bus = choose|bus: Seq<Frame<S>>|
        {
            &&& bus.len() == old(output)@.len() / channels as nat
            &&& #[trigger] is_played(
                *old(engine),
                *final(engine),
                old(output)@.len(),
                channels as nat,
                bus,
            )
            &&& forall|i: int|
                0 <= i < bus.len() * channels ==> #[trigger] final(output)@[i] == device_sample(
                    bus[i / channels as int],
                    channels as int,
                    i % channels as int,
                    *limits,
                    zero,
                    plus,
                    times,
                    below,
                    above,
                    shown,
                )
            &&& forall|i: int|
                bus.len() * channels <= i < old(output)@.len() ==> #[trigger] final(output)@[i]
                    == old(output)@[i]
        };
    lemma_played_in_passes(
        *old(engine),
        *final(engine),
        old(output)@.len(),
        channels as nat,
        bus,
        zero,
        plus,
    );
}

} // verus!
