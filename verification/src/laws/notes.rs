//! The mix in closed form: what is heard is the notes under way.
//!
//! As long as no frame has more notes under way than there are voices, no voice is stolen, and the
//! pool drops out of the picture: every note sounds for the length of the sample from the frame it
//! starts at, and each frame is the sum of the notes under way there.
use core::ops::Add;
use vstd::multiset::Multiset;
use vstd::prelude::*;

use crate::engine::Engine;
#[allow(unused_imports)]
use crate::engine::is_processed;
use crate::frames::{Frame, Frames};
#[allow(unused_imports)]
use crate::laws::mixing::starting_a_voice_never_drops_it;
#[allow(unused_imports)]
use crate::laws::timing::events_played;
#[allow(unused_imports)]
use crate::level::sums_to;
use crate::queue::Command;
#[allow(unused_imports)]
use crate::timeline::{
    admitted_all, due_at, lemma_pool_at_wf, pool_at, pool_heard, resolved, PENDING_CAPACITY,
};
use crate::voices::Voice;
#[allow(unused_imports)]
use crate::voices::{
    active_count, fresh, has_free, lemma_started_wf, pool_after, pool_wf, sounding, start_slot,
    started_times,
};

verus! {

/// How many of the notes that start at `starts` are under way at frame `i`, each lasting `len` frames.
pub open spec fn under_way(starts: Seq<u64>, i: nat, len: nat) -> nat
    decreases starts.len(),
{
    if starts.len() == 0 {
        0
    } else {
        under_way(starts.drop_last(), i, len) + if starts.last() <= i < starts.last() + len {
            1nat
        } else {
            0nat
        }
    }
}

/// What the notes that start at `starts` put on `channel` at frame `i`: of each that is under way, the
/// level as far into the sample as it has come.
pub open spec fn notes_heard<T>(
    starts: Seq<u64>,
    i: nat,
    frames: Frames<T>,
    channel: int,
) -> Seq<T>
    decreases starts.len(),
{
    if starts.len() == 0 {
        Seq::empty()
    } else {
        let before = notes_heard(starts.drop_last(), i, frames, channel);
        let at = starts.last();
        if at <= i < at + frames.count() {
            before.push(frames.level(i - at, channel))
        } else {
            before
        }
    }
}

/// `r` is the sum of `levels` in some order.
pub open spec fn is_sum_of<T: Default + Add<Output = T>>(levels: Seq<T>, r: T) -> bool {
    exists|order: Seq<T>| #[trigger]
        sums_to(order, r) && order.to_multiset() == levels.to_multiset()
}

/// How many voices are playing and stand at frame `p` of the sample.
pub open spec fn playing_at(pool: Seq<Voice>, p: int) -> nat
    decreases pool.len(),
{
    if pool.len() == 0 {
        0
    } else {
        playing_at(pool.drop_last(), p) + if pool.last().active && pool.last().pos == p {
            1nat
        } else {
            0nat
        }
    }
}

/// How many notes are `p` frames into the sample at frame `i`: those that started `p` frames ago.
pub open spec fn notes_at(events: Multiset<u64>, i: nat, p: int) -> nat {
    if 0 <= p <= i {
        due_at(events, (i - p) as nat)
    } else {
        0
    }
}

/// The sum of `counts` over the first `n` frames of the sample.
spec fn total(counts: spec_fn(int) -> nat, n: nat) -> nat
    decreases n,
{
    if n == 0 {
        0
    } else {
        total(counts, (n - 1) as nat) + counts(n - 1)
    }
}

/// The levels of the first `n` frames of the sample, each as often as `counts` says.
spec fn spread<T>(
    counts: spec_fn(int) -> nat,
    frames: Frames<T>,
    channel: int,
    n: nat,
) -> Seq<T>
    decreases n,
{
    if n == 0 {
        Seq::empty()
    } else {
        spread(counts, frames, channel, (n - 1) as nat) + Seq::new(
            counts(n - 1),
            |_i: int| frames.level(n - 1, channel),
        )
    }
}

/// Counting one more at `q` adds one to the total, if `q` is among the frames counted.
proof fn lemma_total_bump(
    counts: spec_fn(int) -> nat,
    bumped: spec_fn(int) -> nat,
    q: int,
    by: nat,
    n: nat,
)
    requires
        forall|p: int|
            0 <= p < n ==> #[trigger] bumped(p) == counts(p) + if p == q {
                by
            } else {
                0nat
            },
    ensures
        total(bumped, n) == total(counts, n) + if 0 <= q < n {
            by
        } else {
            0nat
        },
    decreases n,
{
    if n > 0 {
        lemma_total_bump(counts, bumped, q, by, (n - 1) as nat);
        assert(bumped(n - 1) == counts(n - 1) + if n - 1 == q {
            by
        } else {
            0nat
        });
    }
}

/// Counting nothing anywhere comes to nothing.
proof fn lemma_nothing<T>(
    counts: spec_fn(int) -> nat,
    frames: Frames<T>,
    channel: int,
    n: nat,
)
    requires
        forall|p: int| 0 <= p < n ==> #[trigger] counts(p) == 0,
    ensures
        total(counts, n) == 0,
        spread(counts, frames, channel, n) == Seq::<T>::empty(),
    decreases n,
{
    if n > 0 {
        lemma_nothing(counts, frames, channel, (n - 1) as nat);
        assert(counts(n - 1) == 0);
        assert(spread(counts, frames, channel, n) =~= Seq::<T>::empty());
    }
}

/// Counts that agree spread the same levels.
proof fn lemma_spread_agrees<T>(
    a: spec_fn(int) -> nat,
    b: spec_fn(int) -> nat,
    frames: Frames<T>,
    channel: int,
    n: nat,
)
    requires
        forall|p: int| 0 <= p < n ==> #[trigger] a(p) == b(p),
    ensures
        spread(a, frames, channel, n) == spread(b, frames, channel, n),
    decreases n,
{
    if n > 0 {
        lemma_spread_agrees(a, b, frames, channel, (n - 1) as nat);
        assert(a(n - 1) == b(n - 1));
    }
}

/// Counting one more at `q` adds the level of that frame.
proof fn lemma_spread_bump<T>(
    counts: spec_fn(int) -> nat,
    bumped: spec_fn(int) -> nat,
    q: int,
    frames: Frames<T>,
    channel: int,
    n: nat,
)
    requires
        0 <= q < n,
        forall|p: int|
            0 <= p < n ==> #[trigger] bumped(p) == counts(p) + if p == q {
                1nat
            } else {
                0nat
            },
    ensures
        spread(bumped, frames, channel, n).to_multiset() == spread(
            counts,
            frames,
            channel,
            n,
        ).to_multiset().insert(frames.level(q, channel)),
    decreases n,
{
    let m = (n - 1) as nat;
    let level = |_i: int| frames.level(n - 1, channel);
    let old_copies = Seq::new(counts(n - 1), level);
    let new_copies = Seq::new(bumped(n - 1), level);
    vstd::seq_lib::lemma_multiset_commutative(spread(counts, frames, channel, m), old_copies);
    vstd::seq_lib::lemma_multiset_commutative(spread(bumped, frames, channel, m), new_copies);
    assert(bumped(n - 1) == counts(n - 1) + if n - 1 == q {
        1nat
    } else {
        0nat
    });
    if q == n - 1 {
        lemma_spread_agrees(bumped, counts, frames, channel, m);
        assert(new_copies =~= old_copies.push(frames.level(q, channel)));
        old_copies.to_multiset_ensures();
    } else {
        lemma_spread_bump(counts, bumped, q, frames, channel, m);
        assert(new_copies =~= old_copies);
    }
    assert(spread(bumped, frames, channel, n).to_multiset() =~= spread(
        counts,
        frames,
        channel,
        n,
    ).to_multiset().insert(frames.level(q, channel)));
}

/// What a pool sounds is the levels of the frames its voices stand at, and as many voices are active
/// as stand anywhere.
proof fn lemma_pool_by_position<T>(pool: Seq<Voice>, frames: Frames<T>, channel: int)
    requires
        forall|i: int|
            0 <= i < pool.len() && (#[trigger] pool[i]).active ==> pool[i].pos < frames.count(),
    ensures
        active_count(pool) == total(|p: int| playing_at(pool, p), frames.count()),
        sounding(pool, frames, channel).to_multiset() == spread(
            |p: int| playing_at(pool, p),
            frames,
            channel,
            frames.count(),
        ).to_multiset(),
    decreases pool.len(),
{
    let n = frames.count();
    let counts = |p: int| playing_at(pool, p);
    if pool.len() == 0 {
        lemma_nothing(counts, frames, channel, n);
    } else {
        let shorter = pool.drop_last();
        let before = |p: int| playing_at(shorter, p);
        assert forall|i: int| 0 <= i < shorter.len() && (#[trigger] shorter[i]).active implies
            shorter[i].pos < n by {
            assert(shorter[i] == pool[i]);
        }
        lemma_pool_by_position(shorter, frames, channel);
        let voice = pool.last();
        assert(voice == pool[pool.len() - 1]);
        if voice.active {
            lemma_total_bump(before, counts, voice.pos as int, 1, n);
            lemma_spread_bump(before, counts, voice.pos as int, frames, channel, n);
            sounding(shorter, frames, channel).to_multiset_ensures();
        } else {
            lemma_total_bump(before, counts, -1, 0, n);
            lemma_spread_agrees(counts, before, frames, channel, n);
        }
    }
}

/// What notes sound is the levels of the frames they have come to, and as many are under way as have
/// come to any frame of the sample.
proof fn lemma_notes_by_position<T>(starts: Seq<u64>, i: nat, frames: Frames<T>, channel: int)
    ensures
        under_way(starts, i, frames.count()) == total(
            |p: int| notes_at(starts.to_multiset(), i, p),
            frames.count(),
        ),
        notes_heard(starts, i, frames, channel).to_multiset() == spread(
            |p: int| notes_at(starts.to_multiset(), i, p),
            frames,
            channel,
            frames.count(),
        ).to_multiset(),
    decreases starts.len(),
{
    let n = frames.count();
    let counts = |p: int| notes_at(starts.to_multiset(), i, p);
    starts.to_multiset_ensures();
    if starts.len() == 0 {
        assert(starts.to_multiset() =~= Multiset::<u64>::empty());
        lemma_nothing(counts, frames, channel, n);
    } else {
        let shorter = starts.drop_last();
        let at = starts.last();
        let before = |p: int| notes_at(shorter.to_multiset(), i, p);
        shorter.to_multiset_ensures();
        assert(shorter.push(at) =~= starts);
        assert(starts.to_multiset() == shorter.to_multiset().insert(at));
        lemma_notes_by_position(shorter, i, frames, channel);
        if at <= i < at + n {
            lemma_total_bump(before, counts, i - at, 1, n);
            lemma_spread_bump(before, counts, i - at, frames, channel, n);
            notes_heard(shorter, i, frames, channel).to_multiset_ensures();
        } else {
            assert forall|p: int| 0 <= p < n implies #[trigger] counts(p) == before(p) by {
                if p <= i {
                    assert(i - p != at);
                }
            }
            lemma_total_bump(before, counts, -1, 0, n);
            lemma_spread_agrees(counts, before, frames, channel, n);
        }
    }
}

/// Where a slot is free, starting a voice adds one at the start of the sample and moves none.
proof fn lemma_start_by_position(pool: Seq<Voice>, slot: int, p: int)
    requires
        0 <= slot < pool.len(),
        !pool[slot].active,
    ensures
        playing_at(pool.update(slot, fresh()), p) == playing_at(pool, p) + if p == 0 {
            1nat
        } else {
            0nat
        },
    decreases pool.len(),
{
    let after = pool.update(slot, fresh());
    if slot == pool.len() - 1 {
        assert(after.drop_last() =~= pool.drop_last());
    } else {
        assert(after.drop_last() =~= pool.drop_last().update(slot, fresh()));
        lemma_start_by_position(pool.drop_last(), slot, p);
    }
}

/// Where not all voices are active, one is free.
proof fn lemma_room_is_free(pool: Seq<Voice>)
    requires
        active_count(pool) < pool.len(),
    ensures
        has_free(pool),
    decreases pool.len(),
{
    if pool.last().active {
        lemma_room_is_free(pool.drop_last());
        let i = choose|i: int|
            0 <= i < pool.drop_last().len() && !(#[trigger] pool.drop_last()[i]).active;
        assert(!pool[i].active);
    } else {
        assert(!pool[pool.len() - 1].active);
    }
}

/// Where there is room for `n` more voices, starting them adds `n` at the start of the sample and
/// moves none.
proof fn lemma_starts_by_position(pool: Seq<Voice>, n: nat, len: nat, p: int)
    requires
        pool_wf(pool, len),
        active_count(pool) + n <= pool.len(),
    ensures
        playing_at(started_times(pool, n), p) == playing_at(pool, p) + if p == 0 {
            n
        } else {
            0nat
        },
        active_count(started_times(pool, n)) == active_count(pool) + n,
    decreases n,
{
    if n > 0 {
        let before = started_times(pool, (n - 1) as nat);
        lemma_starts_by_position(pool, (n - 1) as nat, len, p);
        lemma_started_wf(pool, (n - 1) as nat, len);
        lemma_room_is_free(before);
        starting_a_voice_never_drops_it(before);
        lemma_start_by_position(before, start_slot(before), p);
    }
}

/// One frame on, every voice that is still playing stands one frame further.
proof fn lemma_step_by_position(pool: Seq<Voice>, len: nat, p: int)
    requires
        len <= usize::MAX,
        0 <= p < len,
        forall|i: int| 0 <= i < pool.len() && (#[trigger] pool[i]).active ==> pool[i].pos < len,
    ensures
        playing_at(pool_after(pool, 1, len), p) == if p == 0 {
            0
        } else {
            playing_at(pool, p - 1)
        },
    decreases pool.len(),
{
    let after = pool_after(pool, 1, len);
    if pool.len() > 0 {
        let shorter = pool.drop_last();
        assert forall|i: int| 0 <= i < shorter.len() && (#[trigger] shorter[i]).active implies
            shorter[i].pos < len by {
            assert(shorter[i] == pool[i]);
        }
        lemma_step_by_position(shorter, len, p);
        assert(after.drop_last() =~= pool_after(shorter, 1, len));
        assert(pool.last() == pool[pool.len() - 1]);
    }
}

/// Where no voice is active, none stands anywhere.
proof fn lemma_idle_by_position(pool: Seq<Voice>, p: int)
    requires
        active_count(pool) == 0,
    ensures
        playing_at(pool, p) == 0,
    decreases pool.len(),
{
    if pool.len() > 0 {
        lemma_idle_by_position(pool.drop_last(), p);
    }
}

/// As long as no frame has more notes under way than there are voices, each note has a voice of its
/// own, as far into the sample as the note has come.
pub proof fn every_note_has_a_voice<T>(
    pool: Seq<Voice>,
    starts: Seq<u64>,
    frame: nat,
    frames: Frames<T>,
    k: nat,
)
    requires
        pool_wf(pool, frames.count()),
        0 < frames.count() <= usize::MAX,
        active_count(pool) == 0,
        forall|t: u64| #[trigger] starts.to_multiset().count(t) > 0 ==> t >= frame,
        forall|j: nat| j <= k ==> #[trigger] under_way(starts, frame + j, frames.count()) <= pool.len(),
    ensures
        forall|p: int|
            0 <= p < frames.count() ==> #[trigger] playing_at(
                pool_heard(pool, starts.to_multiset(), frame, frames.count(), k),
                p,
            ) == notes_at(starts.to_multiset(), frame + k, p),
    decreases k,
{
    let events = starts.to_multiset();
    let len = frames.count();
    let i = frame + k;
    let before = pool_at(pool, events, frame, len, k);
    let due = due_at(events, i);
    lemma_pool_at_wf(pool, events, frame, len, k);
    assert forall|p: int| 0 <= p < len implies #[trigger] playing_at(before, p) == if p == 0 {
        0
    } else {
        notes_at(events, i, p)
    } by {
        if k == 0 {
            lemma_idle_by_position(pool, p);
            if 1 <= p <= i {
                assert(events.count((i - p) as u64) == 0);
            }
        } else {
            every_note_has_a_voice(pool, starts, frame, frames, (k - 1) as nat);
            let heard = pool_heard(pool, events, frame, len, (k - 1) as nat);
            lemma_pool_at_wf(pool, events, frame, len, (k - 1) as nat);
            lemma_step_by_position(heard, len, p);
            if p > 0 {
                assert(playing_at(heard, p - 1) == notes_at(
                    events,
                    frame + (k - 1) as nat,
                    p - 1,
                ));
            }
        }
    }
    lemma_notes_by_position(starts, i, frames, 0);
    lemma_pool_by_position(before, frames, 0);
    let standing = |p: int| playing_at(before, p);
    let noted = |p: int| notes_at(events, i, p);
    lemma_total_bump(standing, noted, 0, due, len);
    assert(under_way(starts, frame + k, len) <= pool.len());
    assert forall|p: int| 0 <= p < len implies #[trigger] playing_at(
        pool_heard(pool, events, frame, len, k),
        p,
    ) == notes_at(events, i, p) by {
        lemma_starts_by_position(before, due, len, p);
        assert(playing_at(before, p) == if p == 0 {
            0
        } else {
            notes_at(events, i, p)
        });
    }
}

/// What sounds at a frame is what the notes under way there put on it, in some order.
pub proof fn what_sounds_is_the_notes_under_way<T>(
    pool: Seq<Voice>,
    starts: Seq<u64>,
    frame: nat,
    frames: Frames<T>,
    channel: int,
    k: nat,
)
    requires
        pool_wf(pool, frames.count()),
        frames.count() <= usize::MAX,
        active_count(pool) == 0,
        forall|t: u64| #[trigger] starts.to_multiset().count(t) > 0 ==> t >= frame,
        forall|j: nat| j <= k ==> #[trigger] under_way(starts, frame + j, frames.count()) <= pool.len(),
    ensures
        sounding(
            pool_heard(pool, starts.to_multiset(), frame, frames.count(), k),
            frames,
            channel,
        ).to_multiset() == notes_heard(starts, frame + k, frames, channel).to_multiset(),
{
    let events = starts.to_multiset();
    let len = frames.count();
    let heard = pool_heard(pool, events, frame, len, k);
    lemma_pool_at_wf(pool, events, frame, len, k);
    lemma_notes_by_position(starts, frame + k, frames, channel);
    if len == 0 {
        lemma_no_frames(heard, frames, channel);
    } else {
        every_note_has_a_voice(pool, starts, frame, frames, k);
        lemma_pool_by_position(heard, frames, channel);
        lemma_spread_agrees(
            |p: int| playing_at(heard, p),
            |p: int| notes_at(events, frame + k, p),
            frames,
            channel,
            len,
        );
    }
}

/// A sample without frames sounds nothing.
proof fn lemma_no_frames<T>(pool: Seq<Voice>, frames: Frames<T>, channel: int)
    requires
        frames.count() == 0,
    ensures
        sounding(pool, frames, channel) == Seq::<T>::empty(),
    decreases pool.len(),
{
    if pool.len() > 0 {
        lemma_no_frames(pool.drop_last(), frames, channel);
    }
}

/// A block in closed form. From an engine with no voice playing, and as long as no frame has more notes
/// under way than there are voices, each channel of each frame is the sum, over the notes under way
/// there, of the level as far into the sample as the note has come. In what order they are added up
/// is left open, and so does not depend on the order they were asked for in.
pub proof fn a_block_is_the_sum_of_its_notes<T: Default + Add<Output = T>>(
    before: Engine<T>,
    after: Engine<T>,
    out: Seq<Frame<T>>,
    starts: Seq<u64>,
    k: int,
)
    requires
        before.wf(),
        is_processed(before, after, out),
        before.sample().data().count() <= usize::MAX,
        active_count(before.pool()) == 0,
        events_played(before, after) == starts.to_multiset(),
        0 <= k < out.len(),
        forall|j: nat|
            j <= k ==> #[trigger] under_way(
                starts,
                before.clock() as nat + j,
                before.sample().data().count(),
            ) <= before.pool().len(),
    ensures
        is_sum_of(
            notes_heard(starts, (before.clock() + k) as nat, before.sample().data(), 0),
            out[k]@[0],
        ),
        is_sum_of(
            notes_heard(starts, (before.clock() + k) as nat, before.sample().data(), 1),
            out[k]@[1],
        ),
{
    let data = before.sample().data();
    let frame = before.clock() as nat;
    let commands = after.taken().skip(before.taken().len() as int);
    lemma_none_overdue(before.events(), before.clock(), commands);
    what_sounds_is_the_notes_under_way(before.pool(), starts, frame, data, 0, k as nat);
    what_sounds_is_the_notes_under_way(before.pool(), starts, frame, data, 1, k as nat);
    let heard = pool_heard(before.pool(), starts.to_multiset(), frame, data.count(), k as nat);
    assert(sums_to(sounding(heard, data, 0), out[k]@[0]));
    assert(sums_to(sounding(heard, data, 1), out[k]@[1]));
}

/// No event is due before the frame it was admitted at.
proof fn lemma_none_overdue(pending: Multiset<u64>, frame: u64, commands: Seq<Command>)
    requires
        forall|t: u64| #[trigger] pending.count(t) > 0 ==> t >= frame,
    ensures
        forall|t: u64| #[trigger] admitted_all(pending, frame, commands).count(t) > 0 ==> t >= frame,
    decreases commands.len(),
{
    if commands.len() > 0 {
        lemma_none_overdue(pending, frame, commands.drop_last());
        let earlier = admitted_all(pending, frame, commands.drop_last());
        assert forall|t: u64|
            #[trigger] admitted_all(pending, frame, commands).count(t) > 0 implies t >= frame by {
            if t != resolved(commands.last(), frame) {
                assert(earlier.count(t) > 0);
            }
        }
    }
}

/// Where there is room for all of them, the commands an engine takes are its notes: each starts one at
/// the frame it resolves to.
pub proof fn commands_are_notes(frame: u64, commands: Seq<Command>)
    requires
        commands.len() <= PENDING_CAPACITY,
    ensures
        admitted_all(Multiset::empty(), frame, commands) == commands.map_values(
            |command: Command| resolved(command, frame),
        ).to_multiset(),
        admitted_all(Multiset::empty(), frame, commands).len() == commands.len(),
    decreases commands.len(),
{
    let start = |command: Command| resolved(command, frame);
    let starts = commands.map_values(start);
    starts.to_multiset_ensures();
    if commands.len() == 0 {
        assert(starts.to_multiset() =~= Multiset::<u64>::empty());
    } else {
        let shorter = commands.drop_last();
        commands_are_notes(frame, shorter);
        shorter.map_values(start).to_multiset_ensures();
        assert(starts =~= shorter.map_values(start).push(start(commands.last())));
    }
}

/// An engine plays the notes it was sent. From one with no voice playing and nothing pending, which has
/// room for the commands it takes, each frame is the sum of the notes that those commands start,
/// as long as no frame has more of them under way than there are voices.
pub proof fn an_engine_plays_the_notes_it_was_sent<T: Default + Add<Output = T>>(
    before: Engine<T>,
    after: Engine<T>,
    out: Seq<Frame<T>>,
    starts: Seq<u64>,
    k: int,
)
    requires
        before.wf(),
        is_processed(before, after, out),
        before.sample().data().count() <= usize::MAX,
        active_count(before.pool()) == 0,
        before.events() == Multiset::<u64>::empty(),
        after.taken().len() - before.taken().len() <= PENDING_CAPACITY,
        starts == after.taken().skip(before.taken().len() as int).map_values(
            |command: Command| resolved(command, before.clock()),
        ),
        0 <= k < out.len(),
        forall|j: nat|
            j <= k ==> #[trigger] under_way(
                starts,
                before.clock() as nat + j,
                before.sample().data().count(),
            ) <= before.pool().len(),
    ensures
        is_sum_of(
            notes_heard(starts, (before.clock() + k) as nat, before.sample().data(), 0),
            out[k]@[0],
        ),
        is_sum_of(
            notes_heard(starts, (before.clock() + k) as nat, before.sample().data(), 1),
            out[k]@[1],
        ),
{
    commands_are_notes(before.clock(), after.taken().skip(before.taken().len() as int));
    a_block_is_the_sum_of_its_notes(before, after, out, starts, k);
}

} // verus!
