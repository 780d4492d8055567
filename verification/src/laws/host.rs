//! Laws of the host's side: the device callback, the stream's faults and the test tone.
use core::ops::Add;
use vstd::arithmetic::div_mod::{
    lemma_div_basics, lemma_div_is_ordered, lemma_div_multiples_vanish, lemma_div_pos_is_pos,
    lemma_fundamental_div_mod, lemma_hoist_over_denominator, lemma_mod_bound,
    lemma_mod_multiples_basic, lemma_mod_self_0, lemma_small_mod,
};
use vstd::arithmetic::mul::lemma_mul_is_commutative;
use vstd::prelude::*;

#[allow(unused_imports)]
use crate::device::{is_played, last_pass, lemma_last_pass, lemma_played_extends, SCRATCH_FRAMES};
use crate::engine::Engine;
#[allow(unused_imports)]
use crate::engine::{has_drained, is_processed};
use crate::frames::Frame;
use crate::laws::timing::two_blocks_play_what_one_would;
use crate::stream::Fault;
#[allow(unused_imports)]
use crate::stream::{code_of, message_of, ERR_NONE};
#[allow(unused_imports)]
use crate::timeline::{admitted_all, still_pending};
use crate::tone::{Gain, Tone};
#[allow(unused_imports)]
use crate::tone::{gain, gives, is_next};

verus! {

/// A callback that fits the scratch bus is one pass, and plays one block, whatever commands arrive.
pub proof fn a_short_callback_is_one_block<S: Default + Add<Output = S>>(
    before: Engine<S>,
    after: Engine<S>,
    len: nat,
    channels: nat,
    bus: Seq<Frame<S>>,
)
    requires
        channels > 0,
        0 < len <= SCRATCH_FRAMES as nat * channels,
        is_played(before, after, len, channels, bus),
    ensures
        is_processed(before, after, bus),
        has_drained(before, after),
{
    let block = SCRATCH_FRAMES as nat * channels;
    lemma_last_pass(len, channels);
    if len < block {
        lemma_small_mod(len, block);
    } else {
        lemma_mod_self_0(block as int);
    }
    assert(last_pass(len, block) == len);
    lemma_div_basics(channels as int);
    let mid = choose|mid: Engine<S>|
        is_played(before, mid, 0, channels, bus.take(0)) && #[trigger] is_processed(
            mid,
            after,
            bus.skip(0),
        ) && has_drained(mid, after);
    assert(mid == before);
    assert(bus.skip(0) =~= bus);
}

/// A longer callback is a first pass that fills the scratch bus, and a callback over the rest.
pub proof fn a_long_callback_is_a_first_pass_and_the_rest<S: Default + Add<Output = S>>(
    before: Engine<S>,
    after: Engine<S>,
    len: nat,
    channels: nat,
    bus: Seq<Frame<S>>,
)
    requires
        channels > 0,
        len > SCRATCH_FRAMES as nat * channels,
        is_played(before, after, len, channels, bus),
    ensures
        bus.len() >= SCRATCH_FRAMES,
        exists|first: Engine<S>| #[trigger]
            is_processed(before, first, bus.take(SCRATCH_FRAMES as int)) && has_drained(
                before,
                first,
            ) && is_played(
                first,
                after,
                (len - SCRATCH_FRAMES as nat * channels) as nat,
                channels,
                bus.skip(SCRATCH_FRAMES as int),
            ),
    decreases len,
{
    let c = channels as int;
    let scratch = SCRATCH_FRAMES as int;
    let block = SCRATCH_FRAMES as nat * channels;
    let pass = last_pass(len, block);
    let earlier = (len - pass) as nat;
    let split = (earlier / channels) as int;
    lemma_last_pass(len, channels);
    lemma_earlier_passes(len, channels);
    let mid = choose|mid: Engine<S>|
        is_played(before, mid, earlier, channels, bus.take(split)) && #[trigger] is_processed(
            mid,
            after,
            bus.skip(split),
        ) && has_drained(mid, after);
    let head = bus.take(split);
    assert(bus.skip(split).len() == pass / channels);
    if earlier == block {
        a_short_callback_is_one_block(before, mid, earlier, channels, head);
        assert(split == scratch);
        lemma_small_mod(0, block);
        assert(is_played(mid, mid, 0, channels, Seq::<Frame<S>>::empty()));
        lemma_played_extends(
            mid,
            mid,
            after,
            0,
            pass,
            channels,
            Seq::empty(),
            bus.skip(split),
        );
        assert(Seq::<Frame<S>>::empty() + bus.skip(split) =~= bus.skip(scratch));
    } else {
        a_long_callback_is_a_first_pass_and_the_rest(before, mid, earlier, channels, head);
        let first = choose|first: Engine<S>| #[trigger]
            is_processed(before, first, head.take(scratch)) && has_drained(before, first)
                && is_played(
                first,
                mid,
                (earlier - block) as nat,
                channels,
                head.skip(scratch),
            );
        assert(head.take(scratch) =~= bus.take(scratch));
        let rest = head.skip(scratch);
        assert(rest.len() * c == earlier - block) by (nonlinear_arith)
            requires
                rest.len() == split - scratch,
                split * c == earlier,
                block == scratch * c,
        ;
        lemma_played_extends(
            first,
            mid,
            after,
            (earlier - block) as nat,
            pass,
            channels,
            rest,
            bus.skip(split),
        );
        assert(rest + bus.skip(split) =~= bus.skip(scratch));
    }
}

/// What comes before the last pass is whole passes, and so whole frames.
proof fn lemma_earlier_passes(len: nat, channels: nat)
    requires
        channels > 0,
        len > SCRATCH_FRAMES as nat * channels,
    ensures
        ({
            let block = SCRATCH_FRAMES as nat * channels;
            let pass = last_pass(len, block);
            let earlier = (len - pass) as nat;
            &&& 0 < pass <= block
            &&& earlier >= block
            &&& earlier % block == 0
            &&& earlier != block ==> earlier > block && (earlier - block) as nat % block == 0
            &&& (earlier / channels) * channels == earlier
            &&& earlier / channels >= SCRATCH_FRAMES
            &&& earlier == block ==> earlier / channels == SCRATCH_FRAMES
            &&& len / channels == earlier / channels + pass / channels
        }),
{
    let c = channels as int;
    let block = SCRATCH_FRAMES * c;
    let pass = last_pass(len, block as nat) as int;
    let earlier = len - pass;
    assert(block > 0) by (nonlinear_arith)
        requires
            block == 2048 * c,
            c > 0,
    ;
    lemma_mod_bound(len as int, block);
    lemma_fundamental_div_mod(len as int, block);
    let q = len as int / block;
    let n = if len as int % block == 0 {
        q - 1
    } else {
        q
    };
    assert(block * (q - 1) == block * q - block) by (nonlinear_arith);
    assert(earlier == block * n);
    assert(n >= 1) by (nonlinear_arith)
        requires
            block * n == earlier,
            earlier == len - pass,
            len > block,
            pass <= block,
            block > 0,
    ;
    lemma_mul_is_commutative(block, n);
    lemma_mod_multiples_basic(n, block);
    assert((n - 1) * block == n * block - block) by (nonlinear_arith);
    lemma_mod_multiples_basic(n - 1, block);
    assert(earlier >= block) by (nonlinear_arith)
        requires
            earlier == block * n,
            n >= 1,
            block > 0,
    ;
    assert(earlier == (SCRATCH_FRAMES * n) * c) by (nonlinear_arith)
        requires
            earlier == block * n,
            block == SCRATCH_FRAMES * c,
    ;
    lemma_mul_is_commutative(SCRATCH_FRAMES * n, c);
    lemma_div_multiples_vanish(SCRATCH_FRAMES * n, c);
    if earlier == block {
        assert(n == 1) by (nonlinear_arith)
            requires
                earlier == block * n,
                earlier == block,
                block > 0,
        ;
    }
    lemma_hoist_over_denominator(pass, SCRATCH_FRAMES * n, channels);
}

/// A callback longer than the scratch bus takes several passes, and that cannot be heard. Let the
/// first pass take whatever has arrived; where nothing arrives between it and the last, the passes
/// play what one block would.
pub proof fn passes_play_what_one_block_would<S: Default + Add<Output = S>>(
    before: Engine<S>,
    first: Engine<S>,
    after: Engine<S>,
    len: nat,
    channels: nat,
    bus: Seq<Frame<S>>,
)
    requires
        channels > 0,
        bus.len() >= SCRATCH_FRAMES,
        is_processed(before, first, bus.take(SCRATCH_FRAMES as int)),
        is_played(first, after, len, channels, bus.skip(SCRATCH_FRAMES as int)),
        after.taken() == first.taken(),
    ensures
        is_processed(before, after, bus),
{
    let split = SCRATCH_FRAMES as int;
    quiet_passes_play_what_one_block_would(first, after, len, channels, bus.skip(split));
    two_blocks_play_what_one_would(before, first, after, bus.take(split), bus.skip(split));
    assert(bus.take(split) + bus.skip(split) =~= bus);
}

/// A callback during which no command arrives plays what one block would, however many passes it
/// takes.
pub proof fn quiet_passes_play_what_one_block_would<S: Default + Add<Output = S>>(
    before: Engine<S>,
    after: Engine<S>,
    len: nat,
    channels: nat,
    bus: Seq<Frame<S>>,
)
    requires
        before.wf(),
        channels > 0,
        is_played(before, after, len, channels, bus),
        after.taken() == before.taken(),
    ensures
        is_processed(before, after, bus),
    decreases len,
{
    let none = before.taken().skip(before.taken().len() as int);
    assert(none.len() == 0);
    assert(admitted_all(before.events(), before.clock(), none) == before.events());
    if len == 0 {
        assert(still_pending(before.events(), before.clock() as nat) =~= before.events());
    } else {
        let earlier = (len - last_pass(len, SCRATCH_FRAMES as nat * channels)) as nat;
        let split = (earlier / channels) as int;
        lemma_last_pass(len, channels);
        let mid = choose|mid: Engine<S>|
            is_played(before, mid, earlier, channels, bus.take(split)) && #[trigger] is_processed(
                mid,
                after,
                bus.skip(split),
            );
        lemma_played_takes(before, mid, earlier, channels, bus.take(split));
        assert(mid.taken() =~= before.taken());
        quiet_passes_play_what_one_block_would(before, mid, earlier, channels, bus.take(split));
        two_blocks_play_what_one_would(before, mid, after, bus.take(split), bus.skip(split));
        lemma_div_is_ordered(earlier as int, len as int, channels as int);
        lemma_div_pos_is_pos(earlier as int, channels as int);
        assert(bus.take(split) + bus.skip(split) =~= bus);
    }
}

/// The engine only ever takes more commands.
proof fn lemma_played_takes<S: Default + Add<Output = S>>(
    before: Engine<S>,
    after: Engine<S>,
    len: nat,
    channels: nat,
    bus: Seq<Frame<S>>,
)
    requires
        channels > 0,
        is_played(before, after, len, channels, bus),
    ensures
        before.taken().is_prefix_of(after.taken()),
    decreases len,
{
    if len > 0 {
        let earlier = (len - last_pass(len, SCRATCH_FRAMES as nat * channels)) as nat;
        let split = (earlier / channels) as int;
        lemma_last_pass(len, channels);
        let mid = choose|mid: Engine<S>|
            is_played(before, mid, earlier, channels, bus.take(split)) && #[trigger] is_processed(
                mid,
                after,
                bus.skip(split),
            );
        lemma_played_takes(before, mid, earlier, channels, bus.take(split));
    }
}

/// Every fault is reported, and once: its code is never the one for nothing, every code but that one
/// has a message, and what a report leaves behind has none.
pub proof fn every_fault_is_reported(fault: Fault, code: u32)
    ensures
        code_of(fault) != ERR_NONE,
        message_of(code) is None <==> code == ERR_NONE,
        message_of(code_of(fault)) is Some,
        message_of(ERR_NONE) is None,
{
}

/// How much of a ramp a gain is worth.
pub open spec fn steps(gain: Gain, fade: u64) -> int {
    match gain {
        Gain::Silence => 0,
        Gain::Ratio { num, den } => num as int,
        Gain::Full => fade as int,
    }
}

/// The envelope of a tone never clicks: it begins and ends at nothing, never exceeds full level,
/// and from one sample to the next changes by at most one step of its ramp. A tone too short for
/// both its ramps is left out, for its ramps would meet half way.
pub proof fn the_envelope_never_clicks(n: u64, total: u64, fade: u64)
    requires
        0 < fade,
        2 * fade <= total,
        n < u64::MAX,
    ensures
        steps(gain(0, total, fade), fade) == 0,
        n >= total ==> gain(n, total, fade) is Silence,
        0 <= steps(gain(n, total, fade), fade) <= fade,
        gain(n, total, fade) matches Gain::Ratio { num, den } ==> den == fade && num <= den,
        -1 <= steps(gain((n + 1) as u64, total, fade), fade) - steps(gain(n, total, fade), fade)
            <= 1,
        fade <= n < total - fade ==> gain(n, total, fade) is Full,
{
}

/// A tone gives its samples one after another, counting each: what came out at place `k` was voiced
/// at the gain of that place, at some phase.
pub proof fn a_tone_keeps_count<P, S, V: Fn(P, Gain) -> S, A: Fn(P) -> P>(
    before: Tone<P>,
    after: Tone<P>,
    voice: V,
    advance: A,
    levels: Seq<S>,
    k: int,
)
    requires
        gives(before, after, voice, advance, levels),
        0 <= k < levels.len(),
    ensures
        after.played == before.played + levels.len(),
        after.total == before.total,
        after.fade == before.fade,
        exists|phase: P|
            #[trigger] call_ensures(
                voice,
                (phase, gain((before.played + k) as u64, before.total, before.fade)),
                levels[k],
            ),
    decreases levels.len(),
{
    let mid = choose|mid: Tone<P>|
        gives(before, mid, voice, advance, levels.drop_last()) && #[trigger] is_next(
            mid,
            after,
            voice,
            advance,
            levels.last(),
        );
    if levels.len() == 1 {
        assert(levels.drop_last().len() == 0);
        assert(mid == before);
        assert(call_ensures(voice, (mid.phase, mid.gain()), levels[k]));
    } else {
        let j = if k < levels.len() - 1 {
            k
        } else {
            0
        };
        a_tone_keeps_count(before, mid, voice, advance, levels.drop_last(), j);
        if k < levels.len() - 1 {
            assert(levels.drop_last()[k] == levels[k]);
        } else {
            assert(call_ensures(voice, (mid.phase, mid.gain()), levels[k]));
        }
    }
}

} // verus!
