//! What firing, scheduling and processing do, said of the calls themselves.
use core::ops::Add;
use vstd::multiset::Multiset;
use vstd::prelude::*;

use crate::engine::{engine, new_pool, Engine, Summary, Trigger};
#[allow(unused_imports)]
use crate::engine::is_processed;
use crate::frames::{Frame, Frames};
#[allow(unused_imports)]
use crate::laws::arithmetic::adds_like;
#[allow(unused_imports)]
use crate::laws::voicing::{heard, lemma_span_is_heard, moved_on, stored_len};
use crate::live;
use crate::queue::Command;
use crate::sample::Sample;
#[allow(unused_imports)]
use crate::timeline::{
    admitted_all, due_at, lemma_pool_at_wf, pool_at, pool_heard, resolved,
};
use crate::voices::Voice;
#[allow(unused_imports)]
use crate::voices::{
    active_count, has_free, is_first_free, is_mix, lemma_first_free_exists,
    lemma_sounding_after_zero, lemma_start_slot_exists, lemma_started_wf, pool_after, pool_wf,
    start_slot, started, started_times,
};

verus! {

/// Firing sends one live trigger behind everything sent before, or nothing at all. It is refused
/// exactly where all 64 places are taken.
pub proof fn firing_sends_one_trigger(trigger: &mut Trigger, accepted: bool)
    requires
        call_ensures(Trigger::fire, (trigger,), accepted),
        old(trigger).capacity() == 64,
    ensures
        accepted ==> final(trigger).sent() == old(trigger).sent().push(Command::Trigger),
        final(trigger).sent().is_prefix_of(final(trigger).carried()),
        !accepted ==> final(trigger).sent() == old(trigger).sent(),
        accepted <==> old(trigger).sent().len() - final(trigger).freed() < 64,
        final(trigger).freed() >= old(trigger).freed(),
        final(trigger).freed() <= old(trigger).sent().len(),
        final(trigger).capacity() == 64,
        final(trigger).carried() == old(trigger).carried(),
{
}

/// Firing at a frame sends that very frame behind everything sent before, or nothing at all.
pub proof fn firing_at_a_frame_sends_that_frame(trigger: &mut Trigger, frame: u64, accepted: bool)
    requires
        call_ensures(Trigger::fire_at, (trigger, frame), accepted),
        old(trigger).capacity() == 64,
    ensures
        accepted ==> final(trigger).sent().len() == old(trigger).sent().len() + 1,
        accepted ==> final(trigger).sent().last() == Command::TriggerAt(frame),
        accepted ==> final(trigger).sent().drop_last() == old(trigger).sent(),
        final(trigger).sent().is_prefix_of(final(trigger).carried()),
        !accepted ==> final(trigger).sent() == old(trigger).sent(),
        accepted <==> old(trigger).sent().len() - final(trigger).freed() < 64,
        final(trigger).freed() >= old(trigger).freed(),
        final(trigger).freed() <= old(trigger).sent().len(),
        final(trigger).capacity() == 64,
        final(trigger).carried() == old(trigger).carried(),
{
    if accepted {
        assert(final(trigger).sent().drop_last() =~= old(trigger).sent());
    }
}

/// As many commands could be sent as are not in flight, or more where some have been taken since.
pub proof fn free_slots_are_those_not_in_flight(trigger: &Trigger, n: usize)
    requires
        call_ensures(Trigger::free_slots, (trigger,), n),
        trigger.capacity() == 64,
    ensures
        n <= 64,
        n >= 64 - (trigger.sent().len() - trigger.freed()),
{
}

/// A new engine and its handle have everything ahead of them: no voice plays, nothing is pending, no
/// frame has been rendered, nothing has been sent, and there are as many voices as asked for, and at
/// least one.
pub proof fn a_new_engine_is_silent<T>(
    sample: Sample<T>,
    polyphony: usize,
    pair: (Engine<T>, Trigger),
    voices: &Vec<Voice>,
    frame: u64,
)
    requires
        call_ensures(engine::<T>, (sample, polyphony), pair),
        call_ensures(Engine::<T>::voices, (&pair.0,), voices),
        call_ensures(Engine::<T>::frame, (&pair.0,), frame),
    ensures
        voices@.len() >= 1,
        polyphony >= 1 ==> voices@.len() == polyphony,
        polyphony == 0 ==> voices@.len() == 1,
        forall|i: int|
            0 <= i < voices@.len() ==> !(#[trigger] voices@[i]).active && voices@[i].pos == 0,
        frame == 0,
        pair.0.sample() == sample,
        pair.0.events().len() == 0,
        pair.0.taken().len() == 0,
        pair.1.sent().len() == 0,
        pair.1.capacity() == 64,
        pair.0.carried() == pair.1.carried(),
{
}

/// A new engine without a timeline is silent too, and plays the sample it was given at that sample's
/// rate.
pub proof fn a_new_live_engine_is_silent<T>(
    sample: live::Sample<T>,
    polyphony: usize,
    pair: (live::Engine<T>, live::Trigger),
    rate: u32,
    i: int,
)
    requires
        call_ensures(live::engine::<T>, (sample, polyphony), pair),
        call_ensures(live::Engine::<T>::sample_rate, (&pair.0,), rate),
    ensures
        polyphony >= 1 ==> pair.0.pool().len() == polyphony,
        polyphony == 0 ==> pair.0.pool().len() == 1,
        0 <= i < pair.0.pool().len() ==> !pair.0.pool()[i].active && pair.0.pool()[i].pos == 0,
        pair.0.sample() == sample,
        rate == sample.sample_rate,
        pair.0.taken().len() == 0,
        pair.1.sent().len() == 0,
        pair.1.capacity() == 64,
        pair.0.carried() == pair.1.carried(),
{
}

/// A new pool has as many voices as asked for, and at least one, and none of them plays.
pub proof fn a_new_pool_is_silent(polyphony: usize, voices: Vec<Voice>, i: int)
    requires
        call_ensures(new_pool, (polyphony,), voices),
    ensures
        polyphony >= 1 ==> voices@.len() == polyphony,
        polyphony == 0 ==> voices@.len() == 1,
        0 <= i < voices@.len() ==> !voices@[i].active && voices@[i].pos == 0,
{
}

/// The frame an engine at `now` starts a voice at for `command`.
pub open spec fn lands_at(command: Command, now: u64) -> u64 {
    match command {
        Command::Trigger => now,
        Command::TriggerAt(at) => if at < now {
            now
        } else {
            at
        },
    }
}

/// Scheduling a command adds one event, at the frame it is for or now if that has gone, and leaves every
/// other event alone; with 64 events pending it adds none.
pub proof fn scheduling_adds_one_event<T>(engine: &mut Engine<T>, command: Command, t: u64)
    requires
        call_ensures(Engine::<T>::schedule, (engine, command), ()),
    ensures
        final(engine).events().count(t) == old(engine).events().count(t) + if old(
            engine
        ).events().len() < 64 && t == lands_at(command, old(engine).clock()) {
            1nat
        } else {
            0nat
        },
        final(engine).clock() == old(engine).clock(),
        final(engine).pool() == old(engine).pool(),
        final(engine).sample() == old(engine).sample(),
        final(engine).taken() == old(engine).taken(),
        final(engine).attempts() == old(engine).attempts(),
        final(engine).carried() == old(engine).carried(),
{
}

/// The events an engine at `now` plays from, given what was pending and the commands it took: those that
/// fit into 64, the first ones first, each at the frame it lands at.
pub open spec fn events_from(pending: Multiset<u64>, now: u64, commands: Seq<Command>) -> Multiset<
    u64,
> {
    let room = if pending.len() < 64 {
        64 - pending.len()
    } else {
        0
    };
    let kept = commands.take(if commands.len() < room {
        commands.len() as int
    } else {
        room
    });
    pending.add(kept.map_values(|command: Command| lands_at(command, now)).to_multiset())
}

/// What commands come to.
pub(crate) proof fn lemma_events_from(pending: Multiset<u64>, now: u64, commands: Seq<Command>)
    ensures
        admitted_all(pending, now, commands) == events_from(pending, now, commands),
    decreases commands.len(),
{
    let land = |command: Command| lands_at(command, now);
    let room = if pending.len() < 64 {
        64 - pending.len()
    } else {
        0
    };
    let n = if commands.len() < room {
        commands.len() as int
    } else {
        room
    };
    let kept = commands.take(n);
    let starts = kept.map_values(land);
    starts.to_multiset_ensures();
    if commands.len() == 0 {
        assert(starts.to_multiset() =~= Multiset::<u64>::empty());
        assert(pending.add(Multiset::<u64>::empty()) =~= pending);
    } else {
        let shorter = commands.drop_last();
        lemma_events_from(pending, now, shorter);
        let m = if shorter.len() < room {
            shorter.len() as int
        } else {
            room
        };
        let fewer = shorter.take(m).map_values(land);
        fewer.to_multiset_ensures();
        assert(pending.add(fewer.to_multiset()).len() == pending.len() + m);
        if m < n {
            assert(starts =~= fewer.push(land(commands.last())));
            assert(pending.add(fewer.to_multiset()).insert(land(commands.last())) =~= pending.add(
                fewer.to_multiset().insert(land(commands.last())),
            ));
            assert(resolved(commands.last(), now) == land(commands.last()));
        } else {
            assert(shorter.take(m) =~= kept);
        }
    }
}

/// `after` is `before` with one more voice started: in the lowest free slot, or where none is free in
/// that of a voice at least as far into the sample as every other, the last of those that are level.
pub open spec fn one_more(before: Seq<Voice>, after: Seq<Voice>) -> bool {
    exists|slot: int|
        {
            &&& 0 <= slot < before.len()
            &&& after == #[trigger] before.update(slot, Voice { pos: 0, active: true })
            &&& (exists|i: int| 0 <= i < before.len() && !(#[trigger] before[i]).active) ==> {
                &&& !before[slot].active
                &&& forall|i: int| 0 <= i < slot ==> (#[trigger] before[i]).active
            }
            &&& !(exists|i: int| 0 <= i < before.len() && !(#[trigger] before[i]).active) ==> {
                &&& forall|i: int| 0 <= i < slot ==> (#[trigger] before[i]).pos <= before[slot].pos
                &&& forall|i: int|
                    slot < i < before.len() ==> (#[trigger] before[i]).pos < before[slot].pos
            }
        }
}

/// `after` is `before` with `n` more voices started, one after another.
pub open spec fn some_more(before: Seq<Voice>, n: nat, after: Seq<Voice>) -> bool
    decreases n,
{
    if n == 0 {
        after == before
    } else {
        exists|mid: Seq<Voice>|
            some_more(before, (n - 1) as nat, mid) && #[trigger] one_more(mid, after)
    }
}

proof fn lemma_one_more(pool: Seq<Voice>)
    requires
        pool.len() >= 1,
    ensures
        one_more(pool, started(pool)),
{
    lemma_start_slot_exists(pool);
    let slot = start_slot(pool);
    assert(started(pool) == pool.update(slot, Voice { pos: 0, active: true }));
    if exists|i: int| 0 <= i < pool.len() && !(#[trigger] pool[i]).active {
        assert(has_free(pool));
    }
}

proof fn lemma_some_more(pool: Seq<Voice>, n: nat, len: nat)
    requires
        pool_wf(pool, len),
    ensures
        some_more(pool, n, started_times(pool, n)),
    decreases n,
{
    if n > 0 {
        lemma_some_more(pool, (n - 1) as nat, len);
        lemma_started_wf(pool, (n - 1) as nat, len);
        lemma_one_more(started_times(pool, (n - 1) as nat));
    }
}

/// A block that begins at `now` is played frame by frame. `pools` are the voices before each frame and
/// after the last, and `struck` those that are heard there: at every frame, as many voices are started
/// as events are due there, what comes out on either side is the sum of what they sound, and every voice
/// moves on by one frame.
pub open spec fn played_frame_by_frame<T>(
    now: u64,
    before: Seq<Voice>,
    after: Seq<Voice>,
    events: Multiset<u64>,
    frames: Frames<T>,
    out: Seq<Frame<T>>,
    pools: Seq<Seq<Voice>>,
    struck: Seq<Seq<Voice>>,
    zero: T,
    plus: spec_fn(T, T) -> T,
) -> bool {
    &&& pools.len() == out.len() + 1
    &&& struck.len() == out.len()
    &&& pools[0] == before
    &&& pools[out.len() as int] == after
    &&& forall|k: int|
        0 <= k < out.len() ==> {
            &&& some_more(pools[k], events.count((now + k) as u64), #[trigger] struck[k])
            &&& struck[k].len() == before.len()
            &&& pools[k + 1].len() == before.len()
            &&& forall|i: int|
                0 <= i < struck[k].len() ==> moved_on(
                    struck[k][i],
                    #[trigger] pools[k + 1][i],
                    1,
                    stored_len(frames),
                )
            &&& out[k]@[0] == heard(struck[k], frames, 0, 0, zero, plus)
            &&& out[k]@[1] == heard(struck[k], frames, 1, 0, zero, plus)
        }
}

/// What was processed was played frame by frame.
pub(crate) proof fn lemma_processed_frame_by_frame<T: Copy + Default + Add<Output = T>>(
    before: Engine<T>,
    after: Engine<T>,
    played: Seq<Frame<T>>,
    zero: T,
    plus: spec_fn(T, T) -> T,
)
    requires
        is_processed(before, after, played),
        before.wf(),
        before.clock() + played.len() <= u64::MAX,
        stored_len(before.sample().data()) <= usize::MAX,
        adds_like(zero, plus),
    ensures
        exists|pools: Seq<Seq<Voice>>, struck: Seq<Seq<Voice>>| #[trigger]
            played_frame_by_frame(
                before.clock(),
                before.pool(),
                after.pool(),
                events_from(
                    before.events(),
                    before.clock(),
                    after.taken().skip(before.taken().len() as int),
                ),
                before.sample().data(),
                played,
                pools,
                struck,
                zero,
                plus,
            ),
{
    let data = before.sample().data();
    let len = data.count();
    let commands = after.taken().skip(before.taken().len() as int);
    let events = events_from(before.events(), before.clock(), commands);
    let start = before.clock() as nat;
    let n = played.len();
    lemma_events_from(before.events(), before.clock(), commands);
    let pools = Seq::new(n + 1, |k: int| pool_at(before.pool(), events, start, len, k as nat));
    let struck = Seq::new(n, |k: int| pool_heard(before.pool(), events, start, len, k as nat));
    assert forall|k: int| 0 <= k < n implies {
        &&& some_more(pools[k], events.count((before.clock() + k) as u64), #[trigger] struck[k])
        &&& struck[k].len() == before.pool().len()
        &&& pools[k + 1].len() == before.pool().len()
        &&& forall|i: int|
            0 <= i < struck[k].len() ==> moved_on(
                struck[k][i],
                #[trigger] pools[k + 1][i],
                1,
                stored_len(data),
            )
        &&& played[k]@[0] == heard(struck[k], data, 0, 0, zero, plus)
        &&& played[k]@[1] == heard(struck[k], data, 1, 0, zero, plus)
    } by {
        lemma_pool_at_wf(before.pool(), events, start, len, k as nat);
        lemma_pool_at_wf(before.pool(), events, start, len, (k + 1) as nat);
        lemma_some_more(pools[k], due_at(events, start + k as nat), len);
        assert(pools[k + 1] == pool_after(struck[k], 1, len));
        assert(is_mix(struck[k], data, played[k]));
        lemma_sounding_after_zero(struck[k], data, 0);
        lemma_sounding_after_zero(struck[k], data, 1);
        lemma_span_is_heard(struck[k], data, played[k], 0, 0, zero, plus);
        lemma_span_is_heard(struck[k], data, played[k], 1, 0, zero, plus);
    }
    assert(played_frame_by_frame(
        before.clock(),
        before.pool(),
        after.pool(),
        events,
        data,
        played,
        pools,
        struck,
        zero,
        plus,
    ));
}

/// Processing a block plays it frame by frame: every event lands on its exact frame and nowhere else,
/// in a block of any length.
pub proof fn processing_plays_frame_by_frame<T: Copy + Default + Add<Output = T>>(
    engine: &mut Engine<T>,
    out: &mut [Frame<T>],
    now: u64,
    voices: &Vec<Voice>,
    later_voices: &Vec<Voice>,
    sample: &Sample<T>,
    frames: &Frames<T>,
    zero: T,
    plus: spec_fn(T, T) -> T,
)
    requires
        call_ensures(Engine::<T>::process, (engine, out), ()),
        old(engine).wf(),
        call_ensures(Engine::<T>::frame, (&*old(engine),), now),
        call_ensures(Engine::<T>::voices, (&*old(engine),), voices),
        call_ensures(Engine::<T>::voices, (&*final(engine),), later_voices),
        call_ensures(Engine::<T>::sample_ref, (&*old(engine),), sample),
        call_ensures(Sample::<T>::frames, (sample,), frames),
        now + old(out)@.len() <= u64::MAX,
        stored_len(*frames) <= usize::MAX,
        adds_like(zero, plus),
    ensures
        final(out)@.len() == old(out)@.len(),
        exists|pools: Seq<Seq<Voice>>, struck: Seq<Seq<Voice>>| #[trigger]
            played_frame_by_frame(
                now,
                voices@,
                later_voices@,
                events_from(
                    old(engine).events(),
                    now,
                    final(engine).taken().skip(old(engine).taken().len() as int),
                ),
                *frames,
                final(out)@,
                pools,
                struck,
                zero,
                plus,
            ),
{
    lemma_processed_frame_by_frame(*old(engine), *final(engine), final(out)@, zero, plus);
}

/// Rendering without looking for commands plays the events that are pending, frame by frame, and keeps
/// those that are still to come and only those.
pub proof fn rendering_plays_what_is_pending<T: Copy + Default + Add<Output = T>>(
    engine: &mut Engine<T>,
    out: &mut [Frame<T>],
    now: u64,
    frame: u64,
    voices: &Vec<Voice>,
    later_voices: &Vec<Voice>,
    sample: &Sample<T>,
    frames: &Frames<T>,
    t: u64,
    zero: T,
    plus: spec_fn(T, T) -> T,
)
    requires
        call_ensures(Engine::<T>::render_block, (engine, out), ()),
        old(engine).wf(),
        call_ensures(Engine::<T>::frame, (&*old(engine),), now),
        call_ensures(Engine::<T>::frame, (&*final(engine),), frame),
        call_ensures(Engine::<T>::voices, (&*old(engine),), voices),
        call_ensures(Engine::<T>::voices, (&*final(engine),), later_voices),
        call_ensures(Engine::<T>::sample_ref, (&*old(engine),), sample),
        call_ensures(Sample::<T>::frames, (sample,), frames),
        now + old(out)@.len() <= u64::MAX,
        stored_len(*frames) <= usize::MAX,
        adds_like(zero, plus),
    ensures
        final(out)@.len() == old(out)@.len(),
        frame == now + old(out)@.len(),
        final(engine).events().count(t) == if t < frame {
            0
        } else {
            old(engine).events().count(t)
        },
        final(engine).sample() == old(engine).sample(),
        final(engine).taken() == old(engine).taken(),
        final(engine).attempts() == old(engine).attempts(),
        exists|pools: Seq<Seq<Voice>>, struck: Seq<Seq<Voice>>| #[trigger]
            played_frame_by_frame(
                now,
                voices@,
                later_voices@,
                old(engine).events(),
                *frames,
                final(out)@,
                pools,
                struck,
                zero,
                plus,
            ),
{
    let none = final(engine).taken().skip(old(engine).taken().len() as int);
    assert(none.len() == 0);
    lemma_events_from(old(engine).events(), now, none);
    lemma_processed_frame_by_frame(*old(engine), *final(engine), final(out)@, zero, plus);
}

/// Processing a block counts its frames, keeps every event that is still to come and only those, keeps
/// the sample, and takes commands until it finds none: the attempts it makes are those that brought a
/// command, in the order they were taken, and one that did not.
pub proof fn processing_keeps_the_books<T: Copy + Default + Add<Output = T>>(
    engine: &mut Engine<T>,
    out: &mut [Frame<T>],
    t: u64,
    k: int,
    now: u64,
    frame: u64,
    sample: &Sample<T>,
    later_sample: &Sample<T>,
)
    requires
        call_ensures(Engine::<T>::process, (engine, out), ()),
        old(engine).wf(),
        call_ensures(Engine::<T>::frame, (&*old(engine),), now),
        call_ensures(Engine::<T>::frame, (&*final(engine),), frame),
        call_ensures(Engine::<T>::sample_ref, (&*old(engine),), sample),
        call_ensures(Engine::<T>::sample_ref, (&*final(engine),), later_sample),
    ensures
        frame == now + old(out)@.len(),
        *later_sample == *sample,
        final(engine).events().count(t) == if t < frame {
            0
        } else {
            events_from(
                old(engine).events(),
                now,
                final(engine).taken().skip(old(engine).taken().len() as int),
            ).count(t)
        },
        final(engine).carried() == old(engine).carried(),
        final(engine).taken().is_prefix_of(final(engine).carried()),
        old(engine).taken().len() <= final(engine).taken().len(),
        0 <= k < old(engine).taken().len() ==> final(engine).taken()[k] == old(engine).taken()[k],
        final(engine).attempts().len() == old(engine).attempts().len() + final(
            engine
        ).taken().len() - old(engine).taken().len() + 1,
        final(engine).attempts().last() is None,
        0 <= k < old(engine).attempts().len() ==> final(engine).attempts()[k] == old(
            engine
        ).attempts()[k],
        0 <= k < final(engine).taken().len() - old(engine).taken().len() ==> final(
            engine
        ).attempts()[old(engine).attempts().len() + k] == Some(
            final(engine).taken()[old(engine).taken().len() + k],
        ),
{
    lemma_events_from(
        old(engine).events(),
        old(engine).clock(),
        final(engine).taken().skip(old(engine).taken().len() as int),
    );
}

/// A summary counts what there is to count.
pub proof fn a_summary_counts_what_there_is<T>(engine: &Engine<T>, summary: Summary)
    requires
        call_ensures(Engine::<T>::summary, (engine,), summary),
    ensures
        summary.frame == engine.clock(),
        summary.active_voices == engine.pool().filter(|voice: Voice| voice.active).len(),
        summary.polyphony == engine.pool().len(),
        summary.pending == engine.events().len(),
{
    lemma_active_filtered(engine.pool());
}

proof fn lemma_active_filtered(pool: Seq<Voice>)
    ensures
        active_count(pool) == pool.filter(|voice: Voice| voice.active).len(),
    decreases pool.len(),
{
    reveal(Seq::filter);
    if pool.len() > 0 {
        lemma_active_filtered(pool.drop_last());
    }
}

/// `after` is `before` with one more voice started, where a full pool restarts its first slot.
pub open spec fn one_more_live(before: Seq<Voice>, after: Seq<Voice>) -> bool {
    exists|slot: int|
        {
            &&& 0 <= slot < before.len()
            &&& after == #[trigger] before.update(slot, Voice { pos: 0, active: true })
            &&& (exists|i: int| 0 <= i < before.len() && !(#[trigger] before[i]).active) ==> {
                &&& !before[slot].active
                &&& forall|i: int| 0 <= i < slot ==> (#[trigger] before[i]).active
            }
            &&& !(exists|i: int| 0 <= i < before.len() && !(#[trigger] before[i]).active) ==> slot
                == 0
        }
}

/// `after` is `before` with `n` more voices started like that, one after another.
pub open spec fn some_more_live(before: Seq<Voice>, n: nat, after: Seq<Voice>) -> bool
    decreases n,
{
    if n == 0 {
        after == before
    } else {
        exists|mid: Seq<Voice>|
            some_more_live(before, (n - 1) as nat, mid) && #[trigger] one_more_live(mid, after)
    }
}

proof fn lemma_some_more_live(pool: Seq<Voice>, n: nat, len: nat)
    requires
        pool_wf(pool, len),
    ensures
        some_more_live(pool, n, live::started_times(pool, n)),
        pool_wf(live::started_times(pool, n), len),
    decreases n,
{
    if n > 0 {
        let before = live::started_times(pool, (n - 1) as nat);
        lemma_some_more_live(pool, (n - 1) as nat, len);
        live::lemma_started_wf(before, len);
        let slot = live::start_slot(before);
        assert(live::started(before) == before.update(slot, Voice { pos: 0, active: true }));
        if exists|i: int| 0 <= i < before.len() && !(#[trigger] before[i]).active {
            let some = choose|i: int| 0 <= i < before.len() && !(#[trigger] before[i]).active;
            lemma_first_free_exists(before, some);
            assert(has_free(before));
            assert(is_first_free(before, slot));
        }
        assert(one_more_live(before, live::started(before)));
    }
}

/// Pumping starts one voice for every command it takes, and takes them until it finds none.
pub proof fn pumping_starts_a_voice_for_every_command<T>(engine: &mut live::Engine<T>, k: int)
    requires
        call_ensures(live::Engine::<T>::pump, (engine,), ()),
        old(engine).wf(),
    ensures
        old(engine).taken().len() <= final(engine).taken().len(),
        some_more_live(
            old(engine).pool(),
            (final(engine).taken().len() - old(engine).taken().len()) as nat,
            final(engine).pool(),
        ),
        final(engine).sample() == old(engine).sample(),
        final(engine).carried() == old(engine).carried(),
        final(engine).taken().is_prefix_of(final(engine).carried()),
        0 <= k < old(engine).taken().len() ==> final(engine).taken()[k] == old(engine).taken()[k],
        final(engine).attempts().len() == old(engine).attempts().len() + final(
            engine
        ).taken().len() - old(engine).taken().len() + 1,
        final(engine).attempts().last() is None,
        0 <= k < old(engine).attempts().len() ==> final(engine).attempts()[k] == old(
            engine
        ).attempts()[k],
        0 <= k < final(engine).taken().len() - old(engine).taken().len() ==> final(
            engine
        ).attempts()[old(engine).attempts().len() + k] == Some(
            final(engine).taken()[old(engine).taken().len() + k],
        ),
{
    lemma_some_more_live(
        old(engine).pool(),
        (final(engine).taken().len() - old(engine).taken().len()) as nat,
        old(engine).sample().frames.count(),
    );
}

/// Firing without a timeline sends one trigger, unless all 64 places are taken.
pub proof fn firing_live_sends_one_trigger(trigger: &mut live::Trigger)
    requires
        call_ensures(live::Trigger::fire, (trigger,), ()),
        old(trigger).capacity() == 64,
    ensures
        old(trigger).sent().len() - final(trigger).freed() < 64 ==> final(trigger).sent() == old(
            trigger
        ).sent().push(Command::Trigger),
        old(trigger).sent().len() - final(trigger).freed() >= 64 ==> final(trigger).sent() == old(
            trigger
        ).sent(),
        old(trigger).freed() <= final(trigger).freed() <= old(trigger).sent().len(),
        final(trigger).capacity() == 64,
        final(trigger).carried() == old(trigger).carried(),
{
}

} // verus!
