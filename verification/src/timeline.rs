//! What an engine plays over time, frame by frame.
//!
//! This is the reference the engine is held to. It knows nothing of blocks or spans: at every
//! frame, first the events due at that frame each start a voice, then the pool is heard, then
//! every voice moves on by one frame.
use core::ops::Add;
use vstd::multiset::Multiset;
use vstd::prelude::*;

use crate::frames::{Frame, Frames};
use crate::queue::Command;
use crate::voices::Voice;
#[allow(unused_imports)]
use crate::voices::{
    is_mix, lemma_pool_after_adds, lemma_pool_after_wf, lemma_started_wf, pool_after, pool_wf,
    started_times,
};

verus! {

/// How many scheduled events an engine can hold before their frame arrives.
///
/// Preallocated, because the audio thread cannot grow it.
pub const PENDING_CAPACITY: usize = 64;

/// The frame a command starts a voice at, for an engine that is at `frame` when it sees it.
///
/// A scheduled frame that is already past is played now rather than never.
pub open spec fn resolved(command: Command, frame: u64) -> u64 {
    match command {
        Command::Trigger => frame,
        Command::TriggerAt(at) => if at > frame {
            at
        } else {
            frame
        },
    }
}

/// The pending events once one more command has been seen: it joins them if there is room.
pub open spec fn admitted(pending: Multiset<u64>, frame: u64, command: Command) -> Multiset<u64> {
    if pending.len() < PENDING_CAPACITY {
        pending.insert(resolved(command, frame))
    } else {
        pending
    }
}

/// The pending events once all of `commands` have been seen, in order.
pub open spec fn admitted_all(
    pending: Multiset<u64>,
    frame: u64,
    commands: Seq<Command>,
) -> Multiset<u64>
    decreases commands.len(),
{
    if commands.len() == 0 {
        pending
    } else {
        admitted(admitted_all(pending, frame, commands.drop_last()), frame, commands.last())
    }
}

/// The pool `k` frames after `frame`, before the events due there start anything.
pub open spec fn pool_at(
    pool: Seq<Voice>,
    events: Multiset<u64>,
    frame: nat,
    len: nat,
    k: nat,
) -> Seq<Voice>
    decreases k,
{
    if k == 0 {
        pool
    } else {
        pool_after(
            started_times(
                pool_at(pool, events, frame, len, (k - 1) as nat),
                due_at(events, (frame + k - 1) as nat),
            ),
            1,
            len,
        )
    }
}

/// How many events are due at `frame`.
pub open spec fn due_at(events: Multiset<u64>, frame: nat) -> nat {
    if frame <= u64::MAX {
        events.count(frame as u64)
    } else {
        0
    }
}

/// The pool that is heard `k` frames after `frame`: the events due there have started.
pub open spec fn pool_heard(
    pool: Seq<Voice>,
    events: Multiset<u64>,
    frame: nat,
    len: nat,
    k: nat,
) -> Seq<Voice> {
    started_times(pool_at(pool, events, frame, len, k), due_at(events, frame + k))
}

/// The events still to come once `frame` is reached.
pub open spec fn still_pending(events: Multiset<u64>, frame: nat) -> Multiset<u64> {
    events.filter(|at: u64| at >= frame)
}

/// `out` is what is heard from `frame` on.
pub open spec fn is_heard<T: Default + Add<Output = T>>(
    pool: Seq<Voice>,
    events: Multiset<u64>,
    frame: nat,
    frames: Frames<T>,
    out: Seq<Frame<T>>,
) -> bool {
    forall|k: int|
        0 <= k < out.len() ==> is_mix(
            pool_heard(pool, events, frame, frames.count(), k as nat),
            frames,
            #[trigger] out[k],
        )
}

/// The pool stays usable at every frame.
pub proof fn lemma_pool_at_wf(
    pool: Seq<Voice>,
    events: Multiset<u64>,
    frame: nat,
    len: nat,
    k: nat,
)
    requires
        pool_wf(pool, len),
        len <= usize::MAX,
    ensures
        pool_wf(pool_at(pool, events, frame, len, k), len),
        pool_wf(pool_heard(pool, events, frame, len, k), len),
        pool_at(pool, events, frame, len, k).len() == pool.len(),
        pool_heard(pool, events, frame, len, k).len() == pool.len(),
    decreases k,
{
    if k > 0 {
        lemma_pool_at_wf(pool, events, frame, len, (k - 1) as nat);
        lemma_pool_after_wf(pool_heard(pool, events, frame, len, (k - 1) as nat), 1, len);
    }
    lemma_started_wf(
        pool_at(pool, events, frame, len, k),
        due_at(events, frame + k),
        len,
    );
}

/// Where no event falls inside a span, the pool simply plays on through it.
pub(crate) proof fn lemma_quiet_span(
    pool: Seq<Voice>,
    events: Multiset<u64>,
    frame: nat,
    len: nat,
    from: nat,
    k: nat,
)
    requires
        pool_wf(pool, len),
        len <= usize::MAX,
        from < k,
        forall|j: nat| from < j < k ==> #[trigger] due_at(events, frame + j) == 0,
    ensures
        pool_at(pool, events, frame, len, k) == pool_after(
            pool_heard(pool, events, frame, len, from),
            (k - from) as nat,
            len,
        ),
    decreases k - from,
{
    let heard = pool_heard(pool, events, frame, len, from);
    lemma_pool_at_wf(pool, events, frame, len, from);
    if k > from + 1 {
        let before = (k - 1) as nat;
        lemma_quiet_span(pool, events, frame, len, from, before);
        assert(due_at(events, frame + before) == 0);
        assert(pool_heard(pool, events, frame, len, before) == pool_at(
            pool,
            events,
            frame,
            len,
            before,
        ));
        lemma_pool_after_adds(heard, (before - from) as nat, 1, len);
    }
}

} // verus!
