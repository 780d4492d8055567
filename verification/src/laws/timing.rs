//! Laws of time: when a note starts, and that blocks leave no trace.
use core::ops::Add;
use vstd::multiset::Multiset;
use vstd::prelude::*;

use crate::engine::{Engine, Trigger};
#[allow(unused_imports)]
use crate::engine::is_processed;
use crate::frames::{Frame, Frames};
#[allow(unused_imports)]
use crate::laws::mixing::{lemma_sum_unique, the_mix_is_one_level_per_active_voice};
#[allow(unused_imports)]
use crate::level::{is_deterministic, silent};
use crate::live;
use crate::queue::Command;
#[allow(unused_imports)]
use crate::timeline::{
    admitted, admitted_all, due_at, is_heard, lemma_pool_at_wf, lemma_quiet_span, pool_at,
    pool_heard, resolved, still_pending, PENDING_CAPACITY,
};
use crate::voices::Voice;
#[allow(unused_imports)]
use crate::voices::{
    active_count, fresh, is_mix, lemma_start_slot_exists, lemma_started_wf, pool_after, pool_wf,
    sounding, start_slot, started_times,
};

verus! {

/// A command never resolves to a frame that has gone: one that is already past plays now rather
/// than never, and one that is still to come keeps its frame.
pub proof fn a_command_in_the_past_plays_now(at: u64, frame: u64)
    ensures
        at <= frame ==> resolved(Command::TriggerAt(at), frame) == frame,
        at >= frame ==> resolved(Command::TriggerAt(at), frame) == at,
        resolved(Command::Trigger, frame) == frame,
{
}

/// An event starts a voice on its exact frame: in the pool heard there, some slot is at the very
/// start of the sample.
pub proof fn an_event_lands_on_its_exact_frame(
    pool: Seq<Voice>,
    events: Multiset<u64>,
    frame: nat,
    len: nat,
    at: u64,
)
    requires
        pool_wf(pool, len),
        len <= usize::MAX,
        frame <= at,
        events.count(at) > 0,
    ensures
        pool_heard(pool, events, frame, len, (at - frame) as nat).contains(fresh()),
{
    let k = (at - frame) as nat;
    let before = pool_at(pool, events, frame, len, k);
    lemma_pool_at_wf(pool, events, frame, len, k);
    lemma_started_has_fresh(before, events.count(at), len);
}

/// Where at least one voice has been started, one is at the very start of the sample.
proof fn lemma_started_has_fresh(pool: Seq<Voice>, n: nat, len: nat)
    requires
        pool_wf(pool, len),
        n > 0,
    ensures
        started_times(pool, n).contains(fresh()),
{
    let before = started_times(pool, (n - 1) as nat);
    lemma_started_wf(pool, (n - 1) as nat, len);
    lemma_start_slot_exists(before);
    assert(started_times(pool, n)[start_slot(before)] == fresh());
}

/// An event has no effect before its frame: as long as nothing has fallen due, the pool just plays
/// on, whatever is pending.
pub proof fn nothing_starts_early(
    pool: Seq<Voice>,
    events: Multiset<u64>,
    frame: nat,
    len: nat,
    k: nat,
)
    requires
        pool_wf(pool, len),
        len <= usize::MAX,
        k > 0,
        forall|j: nat| j < k ==> #[trigger] due_at(events, frame + j) == 0,
    ensures
        pool_at(pool, events, frame, len, k) == pool_after(pool, k, len),
{
    assert(due_at(events, frame + 0nat) == 0);
    assert(pool_heard(pool, events, frame, len, 0) == pool);
    lemma_quiet_span(pool, events, frame, len, 0, k);
}

/// An engine with no voice playing stays silent until an event falls due.
pub proof fn silence_lasts_until_an_event<T: Default + Add<Output = T>>(
    pool: Seq<Voice>,
    events: Multiset<u64>,
    frame: nat,
    frames: Frames<T>,
    out: Seq<Frame<T>>,
    k: nat,
)
    requires
        pool_wf(pool, frames.count()),
        frames.count() <= usize::MAX,
        active_count(pool) == 0,
        is_heard(pool, events, frame, frames, out),
        k < out.len(),
        forall|j: nat| j <= k ==> #[trigger] due_at(events, frame + j) == 0,
    ensures
        silent(out[k as int]@[0]),
        silent(out[k as int]@[1]),
{
    lemma_none_active(pool);
    assert(pool_after(pool, k, frames.count()) =~= pool);
    assert(due_at(events, frame + k) == 0);
    if k > 0 {
        nothing_starts_early(pool, events, frame, frames.count(), k);
    }
    assert(pool_heard(pool, events, frame, frames.count(), k) == pool);
    assert(is_mix(pool, frames, out[k as int]));
    the_mix_is_one_level_per_active_voice(pool, frames, 0);
}

/// Where no voice is counted as active, none is.
proof fn lemma_none_active(pool: Seq<Voice>)
    requires
        active_count(pool) == 0,
    ensures
        forall|i: int| 0 <= i < pool.len() ==> !(#[trigger] pool[i]).active,
    decreases pool.len(),
{
    if pool.len() > 0 {
        lemma_none_active(pool.drop_last());
        assert forall|i: int| 0 <= i < pool.len() implies !(#[trigger] pool[i]).active by {
            if i < pool.len() - 1 {
                assert(pool.drop_last()[i] == pool[i]);
            }
        }
    }
}

/// Where levels add up in one way only, what is heard is settled by the pool, the events and the
/// frame: two blocks of the same length rendered from the same state are the same block.
pub proof fn the_same_state_renders_the_same_block<T: Default + Add<Output = T>>(
    pool: Seq<Voice>,
    events: Multiset<u64>,
    frame: nat,
    frames: Frames<T>,
    first: Seq<Frame<T>>,
    second: Seq<Frame<T>>,
)
    requires
        is_deterministic::<T>(),
        is_heard(pool, events, frame, frames, first),
        is_heard(pool, events, frame, frames, second),
        first.len() == second.len(),
    ensures
        first == second,
{
    assert forall|k: int| 0 <= k < first.len() implies first[k] == second[k] by {
        let heard = pool_heard(pool, events, frame, frames.count(), k as nat);
        assert(is_mix(heard, frames, first[k]) && is_mix(heard, frames, second[k]));
        lemma_sum_unique(sounding(heard, frames, 0), first[k]@[0], second[k]@[0]);
        lemma_sum_unique(sounding(heard, frames, 1), first[k]@[1], second[k]@[1]);
        assert(first[k]@ =~= second[k]@);
        assert(first[k] =~= second[k]);
    }
    assert(first =~= second);
}

/// An event waits for its frame and is gone once that has been played; waiting changes neither the
/// frame nor how many events are due there.
pub proof fn an_event_waits_for_its_frame(events: Multiset<u64>, frame: nat, at: u64)
    ensures
        at >= frame ==> still_pending(events, frame).count(at) == events.count(at),
        at < frame ==> still_pending(events, frame).count(at) == 0,
{
}

/// Playing `a` frames and then `b` is playing `a + b`: the same pool is heard at every frame, it
/// ends in the same place, and the same events are left.
pub proof fn stretches_add_up(
    pool: Seq<Voice>,
    events: Multiset<u64>,
    frame: nat,
    len: nat,
    a: nat,
    b: nat,
)
    ensures
        pool_at(
            pool_at(pool, events, frame, len, a),
            still_pending(events, frame + a),
            frame + a,
            len,
            b,
        ) == pool_at(pool, events, frame, len, a + b),
        pool_heard(
            pool_at(pool, events, frame, len, a),
            still_pending(events, frame + a),
            frame + a,
            len,
            b,
        ) == pool_heard(pool, events, frame, len, a + b),
        still_pending(still_pending(events, frame + a), frame + a + b) == still_pending(
            events,
            frame + a + b,
        ),
    decreases b,
{
    let rest = still_pending(events, frame + a);
    assert(due_at(rest, frame + a + b) == due_at(events, frame + a + b));
    assert(still_pending(rest, frame + a + b) =~= still_pending(events, frame + a + b));
    if b > 0 {
        stretches_add_up(pool, events, frame, len, a, (b - 1) as nat);
        assert(a + (b - 1) as nat == (a + b - 1) as nat);
        assert((frame + a + b - 1) as nat == (frame + (a + b) - 1) as nat);
    }
}

/// How a stream is cut into blocks cannot be heard: where no command arrives between them, two
/// blocks in a row play what one block over both would, and leave the engine as it would.
pub proof fn two_blocks_play_what_one_would<T: Default + Add<Output = T>>(
    before: Engine<T>,
    mid: Engine<T>,
    after: Engine<T>,
    first: Seq<Frame<T>>,
    second: Seq<Frame<T>>,
)
    requires
        is_processed(before, mid, first),
        is_processed(mid, after, second),
        after.taken() == mid.taken(),
    ensures
        is_processed(before, after, first + second),
{
    let commands = mid.taken().skip(before.taken().len() as int);
    let events = admitted_all(before.events(), before.clock(), commands);
    let start = before.clock() as nat;
    let data = before.sample().data();
    let out = first + second;
    let none = after.taken().skip(mid.taken().len() as int);
    assert(none.len() == 0);
    assert(admitted_all(mid.events(), mid.clock(), none) == mid.events());
    stretches_add_up(before.pool(), events, start, data.count(), first.len(), second.len());
    assert forall|k: int| 0 <= k < out.len() implies is_mix(
        pool_heard(before.pool(), events, start, data.count(), k as nat),
        data,
        #[trigger] out[k],
    ) by {
        if k < first.len() {
            assert(out[k] == first[k]);
        } else {
            let j = (k - first.len()) as nat;
            assert(out[k] == second[j as int]);
            stretches_add_up(before.pool(), events, start, data.count(), first.len(), j);
        }
    }
}

/// Two engines are in the same state: they would play the same from here on, given the same
/// commands.
pub open spec fn same_state<T>(a: Engine<T>, b: Engine<T>) -> bool {
    &&& a.sample() == b.sample()
    &&& a.pool() == b.pool()
    &&& a.events() == b.events()
    &&& a.clock() == b.clock()
}

/// The events an engine plays a block from: those that were pending, and the commands it took.
pub open spec fn events_played<T>(before: Engine<T>, after: Engine<T>) -> Multiset<u64> {
    admitted_all(
        before.events(),
        before.clock(),
        after.taken().skip(before.taken().len() as int),
    )
}

/// Engines in the same state that see the same events play the same: either block is what is heard
/// of the other engine, and both are in the same state afterwards. Where levels add up in one way
/// only, the blocks are equal.
pub proof fn equal_engines_play_equally<T: Default + Add<Output = T>>(
    a: Engine<T>,
    a_after: Engine<T>,
    a_out: Seq<Frame<T>>,
    b: Engine<T>,
    b_after: Engine<T>,
    b_out: Seq<Frame<T>>,
)
    requires
        is_processed(a, a_after, a_out),
        is_processed(b, b_after, b_out),
        same_state(a, b),
        events_played(a, a_after) == events_played(b, b_after),
        a_out.len() == b_out.len(),
    ensures
        same_state(a_after, b_after),
        is_heard(
            b.pool(),
            events_played(b, b_after),
            b.clock() as nat,
            b.sample().data(),
            a_out,
        ),
        is_heard(
            a.pool(),
            events_played(a, a_after),
            a.clock() as nat,
            a.sample().data(),
            b_out,
        ),
        is_deterministic::<T>() ==> a_out == b_out,
{
    if is_deterministic::<T>() {
        the_same_state_renders_the_same_block(
            a.pool(),
            events_played(a, a_after),
            a.clock() as nat,
            a.sample().data(),
            a_out,
            b_out,
        );
    }
}

/// How the host cuts a stream into blocks is not audible, also when an event falls exactly on the
/// cut. Of two engines in the same state that see the same commands, one plays a block in one go
/// and the other in two, and nothing arrives in between: the two blocks in a row are what is heard
/// of the one, the engines are in the same state afterwards, and where levels add up in one way
/// only, the frames are equal.
pub proof fn cutting_a_block_changes_nothing<T: Default + Add<Output = T>>(
    a: Engine<T>,
    a_after: Engine<T>,
    out: Seq<Frame<T>>,
    b: Engine<T>,
    b_mid: Engine<T>,
    b_after: Engine<T>,
    first: Seq<Frame<T>>,
    second: Seq<Frame<T>>,
)
    requires
        is_processed(a, a_after, out),
        is_processed(b, b_mid, first),
        is_processed(b_mid, b_after, second),
        same_state(a, b),
        a_after.taken().skip(a.taken().len() as int) == b_mid.taken().skip(b.taken().len() as int),
        b_after.taken() == b_mid.taken(),
        out.len() == first.len() + second.len(),
    ensures
        same_state(a_after, b_after),
        is_heard(
            a.pool(),
            events_played(a, a_after),
            a.clock() as nat,
            a.sample().data(),
            first + second,
        ),
        is_deterministic::<T>() ==> out == first + second,
{
    two_blocks_play_what_one_would(b, b_mid, b_after, first, second);
    equal_engines_play_equally(a, a_after, out, b, b_after, first + second);
}

/// What the commands resolve to is all that counts of them.
pub proof fn commands_count_by_what_they_resolve_to(
    pending: Multiset<u64>,
    frame: u64,
    a: Seq<Command>,
    b: Seq<Command>,
)
    requires
        a.len() == b.len(),
        forall|i: int|
            0 <= i < a.len() ==> resolved(#[trigger] a[i], frame) == resolved(b[i], frame),
    ensures
        admitted_all(pending, frame, a) == admitted_all(pending, frame, b),
    decreases a.len(),
{
    if a.len() > 0 {
        assert forall|i: int| 0 <= i < a.len() - 1 implies resolved(
            #[trigger] a.drop_last()[i],
            frame,
        ) == resolved(b.drop_last()[i], frame) by {
            assert(a.drop_last()[i] == a[i]);
        }
        commands_count_by_what_they_resolve_to(pending, frame, a.drop_last(), b.drop_last());
        assert(a.last() == a[a.len() - 1]);
    }
}

/// Scheduling at a frame that is now or past is the same as firing: the same event is admitted.
pub proof fn a_late_event_is_admitted_like_a_live_one(pending: Multiset<u64>, frame: u64, at: u64)
    requires
        at <= frame,
    ensures
        admitted(pending, frame, Command::TriggerAt(at)) == admitted(
            pending,
            frame,
            Command::Trigger,
        ),
{
}

/// A frame at or before the start of the current block acts exactly like firing. Of two engines in
/// the same state, one takes a command for frame `at` where the other takes a live trigger, and all
/// else they take is the same: they play the same.
pub proof fn a_late_fire_at_plays_like_fire<T: Default + Add<Output = T>>(
    a: Engine<T>,
    a_after: Engine<T>,
    a_out: Seq<Frame<T>>,
    b: Engine<T>,
    b_after: Engine<T>,
    b_out: Seq<Frame<T>>,
    i: int,
    at: u64,
)
    requires
        is_processed(a, a_after, a_out),
        is_processed(b, b_after, b_out),
        same_state(a, b),
        a_out.len() == b_out.len(),
        at <= a.clock(),
        0 <= i < a_after.taken().skip(a.taken().len() as int).len(),
        a_after.taken().skip(a.taken().len() as int)[i] == Command::TriggerAt(at),
        b_after.taken().skip(b.taken().len() as int) == a_after.taken().skip(
            a.taken().len() as int,
        ).update(i, Command::Trigger),
    ensures
        events_played(a, a_after) == events_played(b, b_after),
        same_state(a_after, b_after),
        is_heard(
            b.pool(),
            events_played(b, b_after),
            b.clock() as nat,
            b.sample().data(),
            a_out,
        ),
        is_deterministic::<T>() ==> a_out == b_out,
{
    commands_count_by_what_they_resolve_to(
        a.events(),
        a.clock(),
        a_after.taken().skip(a.taken().len() as int),
        b_after.taken().skip(b.taken().len() as int),
    );
    equal_engines_play_equally(a, a_after, a_out, b, b_after, b_out);
}

/// Where there is room for all of them, every command joins the pending events at the frame it
/// resolves to, and none pushes another out.
pub proof fn commands_are_kept_while_there_is_room(
    pending: Multiset<u64>,
    frame: u64,
    commands: Seq<Command>,
)
    requires
        pending.len() + commands.len() <= PENDING_CAPACITY,
    ensures
        admitted_all(pending, frame, commands).len() == pending.len() + commands.len(),
        forall|i: int|
            0 <= i < commands.len() ==> admitted_all(pending, frame, commands).count(
                resolved(#[trigger] commands[i], frame),
            ) > 0,
        forall|at: u64|
            #[trigger] admitted_all(pending, frame, commands).count(at) >= pending.count(at),
    decreases commands.len(),
{
    if commands.len() > 0 {
        let shorter = commands.drop_last();
        commands_are_kept_while_there_is_room(pending, frame, shorter);
        assert forall|i: int| 0 <= i < commands.len() implies admitted_all(
            pending,
            frame,
            commands,
        ).count(resolved(#[trigger] commands[i], frame)) > 0 by {
            if i < shorter.len() {
                assert(shorter[i] == commands[i]);
            }
        }
    }
}

/// However many commands arrive, an engine never holds more events than it was built for.
pub proof fn pending_events_stay_bounded(
    pending: Multiset<u64>,
    frame: u64,
    commands: Seq<Command>,
)
    requires
        pending.len() <= PENDING_CAPACITY,
    ensures
        admitted_all(pending, frame, commands).len() <= PENDING_CAPACITY,
    decreases commands.len(),
{
    if commands.len() > 0 {
        pending_events_stay_bounded(pending, frame, commands.drop_last());
    }
}

/// A command that reaches an engine with room for it sounds on its exact frame. If that frame is in
/// the block, a voice is at the very start of the sample there; if it is later, the event is
/// pending when the block is over.
pub proof fn a_command_sounds_on_its_exact_frame<T: Default + Add<Output = T>>(
    before: Engine<T>,
    after: Engine<T>,
    out: Seq<Frame<T>>,
    i: int,
)
    requires
        before.wf(),
        is_processed(before, after, out),
        before.sample().data().count() <= usize::MAX,
        before.events().len() + after.taken().len() - before.taken().len() <= PENDING_CAPACITY,
        before.taken().len() <= i < after.taken().len(),
    ensures
        ({
            let commands = after.taken().skip(before.taken().len() as int);
            let events = admitted_all(before.events(), before.clock(), commands);
            let at = resolved(after.taken()[i], before.clock());
            &&& at >= before.clock()
            &&& at < after.clock() ==> {
                let k = at - before.clock();
                let heard = pool_heard(
                    before.pool(),
                    events,
                    before.clock() as nat,
                    before.sample().data().count(),
                    k as nat,
                );
                &&& heard.contains(fresh())
                &&& is_mix(heard, before.sample().data(), out[k])
            }
            &&& at >= after.clock() ==> after.events().count(at) > 0
        }),
{
    let commands = after.taken().skip(before.taken().len() as int);
    let events = admitted_all(before.events(), before.clock(), commands);
    let at = resolved(after.taken()[i], before.clock());
    commands_are_kept_while_there_is_room(before.events(), before.clock(), commands);
    assert(commands[i - before.taken().len()] == after.taken()[i]);
    an_event_lands_on_its_exact_frame(
        before.pool(),
        events,
        before.clock() as nat,
        before.sample().data().count(),
        at,
    );
}

/// Commands arrive in the order they were sent, each once and none made up: of what a handle has
/// sent and what its engine has taken, the shorter is the beginning of the longer.
pub proof fn commands_arrive_in_order<T>(engine: Engine<T>, trigger: Trigger)
    requires
        engine.wf(),
        trigger.wf(),
        engine.carried() == trigger.carried(),
    ensures
        engine.taken().len() <= trigger.sent().len() ==> engine.taken().is_prefix_of(
            trigger.sent(),
        ),
        trigger.sent().len() <= engine.taken().len() ==> trigger.sent().is_prefix_of(
            engine.taken(),
        ),
{
    lemma_prefixes(engine.taken(), trigger.sent(), engine.carried());
}

/// The same for the engine without a timeline.
pub proof fn live_commands_arrive_in_order<T>(engine: live::Engine<T>, trigger: live::Trigger)
    requires
        engine.wf(),
        trigger.wf(),
        engine.carried() == trigger.carried(),
    ensures
        engine.taken().len() <= trigger.sent().len() ==> engine.taken().is_prefix_of(
            trigger.sent(),
        ),
        trigger.sent().len() <= engine.taken().len() ==> trigger.sent().is_prefix_of(
            engine.taken(),
        ),
{
    lemma_prefixes(engine.taken(), trigger.sent(), engine.carried());
}

/// Of two beginnings of the same sequence the shorter is a beginning of the longer.
proof fn lemma_prefixes(a: Seq<Command>, b: Seq<Command>, all: Seq<Command>)
    requires
        a.is_prefix_of(all),
        b.is_prefix_of(all),
    ensures
        a.len() <= b.len() ==> a.is_prefix_of(b),
        b.len() <= a.len() ==> b.is_prefix_of(a),
{
    if a.len() <= b.len() {
        assert(a =~= b.subrange(0, a.len() as int));
    }
    if b.len() <= a.len() {
        assert(b =~= a.subrange(0, b.len() as int));
    }
}

} // verus!
