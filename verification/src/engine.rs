//! The real-time side: event scheduling and rendering.
//!
//! Everything below runs inside the audio callback, with the single exception of [`Trigger`],
//! which is the control thread's only way in. No allocation, no locks, no I/O past this line:
//! state that the engine needs is preallocated when it is built.
use core::ops::Add;
use vstd::multiset::Multiset;
use vstd::prelude::*;

use crate::frames::Frame;
#[allow(unused_imports)]
use crate::level::add_is_total;
#[allow(unused_imports)]
use crate::queue::{
    attempts, capacity, carried_from, carried_to, drained, freed, lemma_success_extends, sent,
    successes, taken,
};
use crate::queue::{free_slots, new_queue, pop, push, Command};
use crate::sample::Sample;
#[allow(unused_imports)]
use crate::timeline::{
    admitted, admitted_all, due_at, is_heard, lemma_pool_at_wf, lemma_quiet_span, pool_at,
    pool_heard, still_pending,
};
use crate::timeline::PENDING_CAPACITY;
#[allow(unused_imports)]
use crate::voices::{
    active_count, idle, is_mix, lemma_sounding_after_zero, lemma_start_slot_exists,
    lemma_started_wf, pool_wf, started_times,
};
use crate::voices::{mix_span, start_voice, Voice};

verus! {

/// How many commands can be in flight between the two threads.
pub const COMMAND_CAPACITY: usize = 64;

/// Real-time playback engine. Lives inside the audio callback.
///
/// Mixes a fixed pool of voices, each an independent playback of the same sample. Everything
/// here is allocation- and lock-free.
pub struct Engine<T> {
    sample: Sample<T>,
    voices: Vec<Voice>,
    commands: rtrb::Consumer<Command>,
    /// Absolute start frames of events whose time has not come yet.
    pending: Vec<u64>,
    /// Frames rendered so far: the engine's timebase.
    frame: u64,
}

/// Control-side handle used to trigger the sample from another thread.
pub struct Trigger {
    tx: rtrb::Producer<Command>,
}

/// The state an engine is usually inspected for, not its storage.
#[derive(Clone, Copy, Debug, PartialEq, Eq, Structural)]
pub struct Summary {
    /// Frames rendered so far.
    pub frame: u64,
    /// Voices playing.
    pub active_voices: usize,
    /// Voices there are.
    pub polyphony: usize,
    /// Events whose time has not come yet.
    pub pending: usize,
}

impl Trigger {
    /// Every command sent through this handle so far, oldest first.
    pub closed spec fn sent(self) -> Seq<Command> {
        sent(self.tx)
    }

    /// How many commands can be in flight at once.
    pub closed spec fn capacity(self) -> nat {
        capacity(self.tx)
    }

    /// How many of the commands sent the engine had taken, as far as this handle had noticed when
    /// it last sent.
    pub closed spec fn freed(self) -> nat {
        freed(self.tx)
    }

    /// Every command that the queue behind this handle carries over its whole life.
    pub closed spec fn carried(self) -> Seq<Command> {
        carried_from(self.tx)
    }

    /// What holds of every handle: what was sent is part of what the queue carries, and no more is
    /// in flight than fits.
    pub open spec fn wf(self) -> bool {
        &&& self.sent().is_prefix_of(self.carried())
        &&& self.freed() <= self.sent().len()
        &&& self.sent().len() - self.freed() <= self.capacity()
    }

    /// Fire the sample as soon as the engine picks the command up.
    ///
    /// Returns `false` if the command queue was full and the trigger was dropped. A lost note is
    /// impossible to diagnose after the fact, so the result is deliberately not ignorable;
    /// blocking here instead is not an option on the control thread.
    ///
    /// The queue is full if as many commands are in flight as fit: sent, and not known to have been
    /// taken, where [`Trigger::freed`] never falls behind what was known before.
    #[must_use]
    pub fn fire(&mut self) -> (accepted: bool)
        requires
            old(self).wf(),
        ensures
            final(self).wf(),
            accepted ==> final(self).sent() == old(self).sent().push(Command::Trigger),
            !accepted ==> final(self).sent() == old(self).sent(),
            accepted <==> old(self).sent().len() - final(self).freed() < old(self).capacity(),
            old(self).freed() <= final(self).freed() <= old(self).sent().len(),
            final(self).capacity() == old(self).capacity(),
            final(self).carried() == old(self).carried(),
    {
        push(&mut self.tx, Command::Trigger).is_ok()
    }

    /// Fire the sample at an absolute engine frame (see [`Engine::frame`]).
    ///
    /// A frame already in the past is clamped to the start of the current block. Returns `false`
    /// if the command queue was full.
    #[must_use]
    pub fn fire_at(&mut self, frame: u64) -> (accepted: bool)
        requires
            old(self).wf(),
        ensures
            final(self).wf(),
            accepted ==> final(self).sent() == old(self).sent().push(Command::TriggerAt(frame)),
            !accepted ==> final(self).sent() == old(self).sent(),
            accepted <==> old(self).sent().len() - final(self).freed() < old(self).capacity(),
            old(self).freed() <= final(self).freed() <= old(self).sent().len(),
            final(self).capacity() == old(self).capacity(),
            final(self).carried() == old(self).carried(),
    {
        push(&mut self.tx, Command::TriggerAt(frame)).is_ok()
    }

    /// How many commands could be sent before the queue is full: whether it is backing up.
    pub fn free_slots(&self) -> (n: usize)
        ensures
            n <= self.capacity(),
            n + self.sent().len() >= self.capacity() + self.freed(),
    {
        free_slots(&self.tx)
    }
}

/// Build a pool of `polyphony` idle voices, and at least one.
pub fn new_pool(polyphony: usize) -> (voices: Vec<Voice>)
    ensures
        voices@.len() == if polyphony == 0 {
            1
        } else {
            polyphony as nat
        },
        forall|i: int| 0 <= i < voices@.len() ==> #[trigger] voices@[i] == idle(),
{
    let count: usize = if polyphony == 0 {
        1
    } else {
        polyphony
    };
    let mut voices: Vec<Voice> = Vec::new();
    let mut i: usize = 0;
    while i < count
        invariant
            0 <= i <= count,
            voices@.len() == i,
            forall|k: int| 0 <= k < i ==> #[trigger] voices@[k] == idle(),
        decreases count - i,
    {
        voices.push(Voice { pos: 0, active: false });
        i = i + 1;
    }
    voices
}

/// Create an [`Engine`] and its paired [`Trigger`] handle.
///
/// `polyphony` is the number of overlapping sample instances allowed at once.
#[must_use]
pub fn engine<T>(sample: Sample<T>, polyphony: usize) -> (r: (Engine<T>, Trigger))
    requires
        sample.wf(),
    ensures
        r.0.wf(),
        r.1.wf(),
        r.0.sample() == sample,
        r.0.pool().len() == if polyphony == 0 {
            1
        } else {
            polyphony as nat
        },
        forall|i: int| 0 <= i < r.0.pool().len() ==> #[trigger] r.0.pool()[i] == idle(),
        r.0.events() == Multiset::<u64>::empty(),
        r.0.clock() == 0,
        r.0.taken() == Seq::<Command>::empty(),
        r.0.attempts() == Seq::<Option<Command>>::empty(),
        r.1.sent() == Seq::<Command>::empty(),
        r.1.freed() == 0,
        r.1.capacity() == COMMAND_CAPACITY,
        r.0.carried() == r.1.carried(),
{
    let (tx, rx) = new_queue(COMMAND_CAPACITY);
    let voices = new_pool(polyphony);
    let pending: Vec<u64> = Vec::with_capacity(PENDING_CAPACITY);
    proof {
        pending@.to_multiset_ensures();
        assert(pending@.to_multiset() =~= Multiset::<u64>::empty());
    }
    let engine = Engine { sample, voices, commands: rx, pending, frame: 0 };
    (engine, Trigger { tx })
}

impl<T> Engine<T> {
    /// The sample it plays.
    pub closed spec fn sample(self) -> Sample<T> {
        self.sample
    }

    /// Its voices, slot by slot.
    pub closed spec fn pool(self) -> Seq<Voice> {
        self.voices@
    }

    /// The frames at which pending events start a voice, one entry per event.
    pub closed spec fn events(self) -> Multiset<u64> {
        self.pending@.to_multiset()
    }

    /// Frames rendered so far.
    pub closed spec fn clock(self) -> u64 {
        self.frame
    }

    /// Every command taken from the queue so far, oldest first.
    pub closed spec fn taken(self) -> Seq<Command> {
        taken(self.commands)
    }

    /// What every attempt to take a command from the queue has come back with so far.
    pub closed spec fn attempts(self) -> Seq<Option<Command>> {
        attempts(self.commands)
    }

    /// Every command that the queue behind this engine carries over its whole life.
    pub closed spec fn carried(self) -> Seq<Command> {
        carried_to(self.commands)
    }

    /// What holds of every engine: its voices are within the sample, its pending events are few
    /// enough and none is overdue, and what it took from the queue is part of what that carries.
    pub open spec fn wf(self) -> bool {
        &&& self.sample().wf()
        &&& pool_wf(self.pool(), self.sample().data().count())
        &&& self.events().len() <= PENDING_CAPACITY
        &&& forall|at: u64| #[trigger] self.events().count(at) > 0 ==> at >= self.clock()
        &&& self.taken().is_prefix_of(self.carried())
    }

    /// Frames rendered since the engine was created: the timebase everything schedules against.
    /// Counted in frames, never derived from an OS timer, so it cannot drift.
    #[must_use]
    pub fn frame(&self) -> (frame: u64)
        ensures
            frame == self.clock(),
    {
        self.frame
    }

    /// The voices, slot by slot.
    pub fn voices(&self) -> (voices: &Vec<Voice>)
        ensures
            voices@ == self.pool(),
    {
        &self.voices
    }

    /// Sum up the state the engine is usually inspected for. Never called inside the audio
    /// callback, so nothing here is bound by real-time rules.
    pub fn summary(&self) -> (r: Summary)
        ensures
            r.frame == self.clock(),
            r.active_voices == active_count(self.pool()),
            r.polyphony == self.pool().len(),
            r.pending == self.events().len(),
    {
        let mut active: usize = 0;
        let mut i: usize = 0;
        proof {
            self.pending@.to_multiset_ensures();
        }
        while i < self.voices.len()
            invariant
                0 <= i <= self.voices@.len(),
                active <= i,
                active == active_count(self.voices@.take(i as int)),
            decreases self.voices@.len() - i,
        {
            assert(self.voices@.take(i + 1).drop_last() =~= self.voices@.take(i as int));
            if self.voices[i].active {
                active = active + 1;
            }
            i = i + 1;
        }
        assert(self.voices@.take(self.voices@.len() as int) =~= self.voices@);
        Summary {
            frame: self.frame,
            active_voices: active,
            polyphony: self.voices.len(),
            pending: self.pending.len(),
        }
    }

    /// The sample the engine plays.
    pub fn sample_ref(&self) -> (sample: &Sample<T>)
        ensures
            *sample == self.sample(),
    {
        &self.sample
    }

    /// Resolve a command to an absolute frame and keep it until then, if there is room.
    pub fn schedule(&mut self, command: Command)
        requires
            old(self).wf(),
        ensures
            final(self).wf(),
            final(self).events() == admitted(old(self).events(), old(self).clock(), command),
            final(self).sample() == old(self).sample(),
            final(self).pool() == old(self).pool(),
            final(self).clock() == old(self).clock(),
            final(self).taken() == old(self).taken(),
            final(self).attempts() == old(self).attempts(),
            final(self).carried() == old(self).carried(),
    {
        let at: u64 = match command {
            Command::Trigger => self.frame,
            // Already past: the moment has gone, so play it now rather than never.
            Command::TriggerAt(at) => if at > self.frame {
                at
            } else {
                self.frame
            },
        };
        proof {
            self.pending@.to_multiset_ensures();
            self.pending@.push(at).to_multiset_ensures();
        }
        if self.pending.len() < PENDING_CAPACITY {
            self.pending.push(at);
        }
    }

    /// Move queued commands into the pending events, resolving each to an absolute frame, until
    /// the queue is found empty.
    fn collect_commands(&mut self)
        requires
            old(self).wf(),
        ensures
            final(self).wf(),
            has_drained(*old(self), *final(self)),
            final(self).events() == admitted_all(
                old(self).events(),
                old(self).clock(),
                final(self).taken().skip(old(self).taken().len() as int),
            ),
            final(self).sample() == old(self).sample(),
            final(self).pool() == old(self).pool(),
            final(self).clock() == old(self).clock(),
            final(self).carried() == old(self).carried(),
    {
        let ghost before = self.taken();
        let ghost events = self.events();
        let ghost asked = self.attempts();
        let mut next = pop(&mut self.commands);
        assert(asked + successes(Seq::empty()) =~= asked);
        assert(before.skip(before.len() as int) =~= Seq::<Command>::empty());
        proof {
            if let Some(command) = next {
                lemma_success_extends(asked, Seq::empty(), command);
                assert(self.taken().skip(before.len() as int) =~= Seq::empty().push(command));
            }
        }
        loop
            invariant
                self.sample() == old(self).sample(),
                self.pool() == old(self).pool(),
                self.clock() == old(self).clock(),
                self.carried() == old(self).carried(),
                self.sample().wf(),
                pool_wf(self.pool(), self.sample().data().count()),
                self.events().len() <= PENDING_CAPACITY,
                forall|at: u64| #[trigger] self.events().count(at) > 0 ==> at >= self.clock(),
                self.taken().is_prefix_of(self.carried()),
                before.is_prefix_of(self.taken()),
                before == old(self).taken(),
                events == old(self).events(),
                asked == old(self).attempts(),
                next is None ==> self.attempts() == drained(
                    asked,
                    self.taken().skip(before.len() as int),
                ),
                next is Some ==> self.attempts() == asked + successes(
                    self.taken().skip(before.len() as int),
                ),
                next is None ==> self.events() == admitted_all(
                    events,
                    self.clock(),
                    self.taken().skip(before.len() as int),
                ),
                next matches Some(command) ==> {
                    &&& self.taken().len() > before.len()
                    &&& self.taken().last() == command
                    &&& self.events() == admitted_all(
                        events,
                        self.clock(),
                        self.taken().skip(before.len() as int).drop_last(),
                    )
                },
            ensures
                next is None,
            decreases
                    self.carried().len() - self.taken().len(),
                    if next is Some {
                        1int
                    } else {
                        0int
                    },
        {
            let command = match next {
                Some(command) => command,
                None => break,
            };
            let ghost seen = self.taken();
            self.schedule(command);
            next = pop(&mut self.commands);
            proof {
                if let Some(command) = next {
                    let commands = seen.skip(before.len() as int);
                    lemma_success_extends(asked, commands, command);
                    assert(self.taken().skip(before.len() as int) =~= commands.push(command));
                    assert(commands.push(command).drop_last() =~= commands);
                }
            }
        }
    }

    /// Earliest pending event in `[from, to)`, if any.
    fn next_event(&self, from: u64, to: u64) -> (r: Option<u64>)
        ensures
            match r {
                Some(at) => {
                    &&& from <= at < to
                    &&& self.events().count(at) > 0
                    &&& forall|t: u64| from <= t < at ==> #[trigger] self.events().count(t) == 0
                },
                None => forall|t: u64| from <= t < to ==> #[trigger] self.events().count(t) == 0,
            },
    {
        proof {
            self.pending@.to_multiset_ensures();
        }
        let mut best: Option<u64> = None;
        let mut i: usize = 0;
        while i < self.pending.len()
            invariant
                0 <= i <= self.pending@.len(),
                match best {
                    Some(at) => {
                        &&& from <= at < to
                        &&& self.pending@.contains(at)
                        &&& forall|k: int|
                            0 <= k < i && from <= (#[trigger] self.pending@[k]) < to
                                ==> at <= self.pending@[k]
                    },
                    None => forall|k: int|
                        0 <= k < i ==> !(from <= (#[trigger] self.pending@[k]) < to),
                },
            decreases self.pending@.len() - i,
        {
            let at: u64 = self.pending[i];
            if at >= from && at < to {
                match best {
                    Some(earliest) if earliest <= at => {},
                    _ => best = Some(at),
                }
            }
            i = i + 1;
        }
        best
    }

    /// Start a voice for every pending event at exactly `at` and drop them.
    fn fire_pending_at(&mut self, at: u64)
        requires
            old(self).pool().len() >= 1,
        ensures
            final(self).pool() == started_times(old(self).pool(), old(self).events().count(at)),
            final(self).events() == old(self).events().filter(|t: u64| t != at),
            final(self).events().len() + old(self).events().count(at) == old(self).events().len(),
            final(self).sample() == old(self).sample(),
            final(self).clock() == old(self).clock(),
            final(self).taken() == old(self).taken(),
            final(self).attempts() == old(self).attempts(),
            final(self).carried() == old(self).carried(),
    {
        let ghost events = self.events();
        let ghost pool = self.pool();
        let ghost mut fired: nat = 0;
        let mut i: usize = 0;
        proof {
            self.pending@.to_multiset_ensures();
        }
        while i < self.pending.len()
            invariant
                0 <= i <= self.pending@.len(),
                events == old(self).events(),
                pool == old(self).pool(),
                self.sample() == old(self).sample(),
                self.clock() == old(self).clock(),
                self.taken() == old(self).taken(),
                self.attempts() == old(self).attempts(),
                self.carried() == old(self).carried(),
                self.pool() == started_times(pool, fired),
                self.pool().len() == pool.len(),
                pool.len() >= 1,
                self.events().count(at) + fired == events.count(at),
                self.pending@.len() + fired == events.len(),
                forall|t: u64| t != at ==> #[trigger] self.events().count(t) == events.count(t),
                forall|k: int| 0 <= k < i ==> #[trigger] self.pending@[k] != at,
            decreases self.pending@.len() - i,
        {
            if self.pending[i] == at {
                proof {
                    lemma_swap_remove(self.pending@, i as int);
                    self.pending@.to_multiset_ensures();
                    lemma_start_slot_exists(self.pool());
                }
                self.pending.swap_remove(i);
                start_voice(&mut self.voices);
                proof {
                    fired = fired + 1;
                }
            } else {
                i = i + 1;
            }
        }
        proof {
            self.pending@.to_multiset_ensures();
            assert(self.events() =~= events.filter(|t: u64| t != at));
        }
    }
}

/// Moving the last entry over another removes that other entry.
proof fn lemma_swap_remove(s: Seq<u64>, i: int)
    requires
        0 <= i < s.len(),
    ensures
        s.update(i, s.last()).drop_last().to_multiset() == s.to_multiset().remove(s[i]),
{
    let shorter = s.drop_last();
    assert(shorter =~= s.remove(s.len() - 1));
    s.to_multiset_ensures();
    shorter.to_multiset_ensures();
    let swapped = s.update(i, s.last()).drop_last();
    if i == s.len() - 1 {
        assert(swapped =~= shorter);
    } else {
        let gap = shorter.remove(i);
        assert(swapped =~= gap.insert(i, s.last()));
        vstd::seq_lib::to_multiset_insert(gap, i, s.last());
        assert(swapped.to_multiset() =~= s.to_multiset().remove(s[i]));
    }
}

/// An engine that was `before` is `after` once it has processed a block, and `out` is what it
/// rendered.
///
/// The commands that arrived are those by which [`Engine::taken`] grew. They join the pending
/// events, and from there on everything is settled: the block is what is heard from the engine's
/// frame on, the voices are where that leaves them, the events that fell due are gone, and the
/// clock stands at the end of the block.
pub open spec fn is_processed<T: Default + Add<Output = T>>(
    before: Engine<T>,
    after: Engine<T>,
    out: Seq<Frame<T>>,
) -> bool {
    let commands = after.taken().skip(before.taken().len() as int);
    let events = admitted_all(before.events(), before.clock(), commands);
    let start = before.clock() as nat;
    let data = before.sample().data();
    &&& after.wf()
    &&& before.taken().is_prefix_of(after.taken())
    &&& is_heard(before.pool(), events, start, data, out)
    &&& after.pool() == pool_at(before.pool(), events, start, data.count(), out.len())
    &&& after.events() == still_pending(events, start + out.len())
    &&& after.clock() == start + out.len()
    &&& after.sample() == before.sample()
    &&& after.carried() == before.carried()
}

/// An engine that was `before` is `after` once it has emptied its queue: it went on taking commands
/// until it found none left, and then stopped.
pub open spec fn has_drained<T>(before: Engine<T>, after: Engine<T>) -> bool {
    &&& before.taken().is_prefix_of(after.taken())
    &&& after.attempts() == drained(
        before.attempts(),
        after.taken().skip(before.taken().len() as int),
    )
}

impl<T: Copy + Default + Add<Output = T>> Engine<T> {
    /// Advance the engine by one block: dispatch due events and render `out.len()` frames.
    ///
    /// Events land on their exact frame because the block is rendered as a series of spans split
    /// at event boundaries. The engine owns that split; a host that drained commands itself and
    /// then asked for one flat render could only ever start notes on frame 0.
    ///
    /// Which commands have arrived is up to the sending thread: they are those by which
    /// [`Engine::taken`] grows, and the engine takes them until it finds the queue empty.
    pub fn process(&mut self, out: &mut [Frame<T>])
        requires
            old(self).wf(),
            old(self).clock() + old(out)@.len() <= u64::MAX,
            add_is_total::<T>(),
        ensures
            final(out)@.len() == old(out)@.len(),
            is_processed(*old(self), *final(self), final(out)@),
            has_drained(*old(self), *final(self)),
    {
        self.collect_commands();
        self.render_block(out);
    }

    /// Render `out.len()` frames, dispatching the pending events that fall due on the way.
    pub fn render_block(&mut self, out: &mut [Frame<T>])
        requires
            old(self).wf(),
            old(self).clock() + old(out)@.len() <= u64::MAX,
            add_is_total::<T>(),
        ensures
            final(self).wf(),
            final(out)@.len() == old(out)@.len(),
            is_heard(
                old(self).pool(),
                old(self).events(),
                old(self).clock() as nat,
                old(self).sample().data(),
                final(out)@,
            ),
            final(self).pool() == pool_at(
                old(self).pool(),
                old(self).events(),
                old(self).clock() as nat,
                old(self).sample().data().count(),
                old(out)@.len(),
            ),
            final(self).events() == still_pending(
                old(self).events(),
                (old(self).clock() + old(out)@.len()) as nat,
            ),
            final(self).clock() == old(self).clock() + old(out)@.len(),
            final(self).sample() == old(self).sample(),
            final(self).taken() == old(self).taken(),
            final(self).attempts() == old(self).attempts(),
            final(self).carried() == old(self).carried(),
    {
        let ghost pool = self.pool();
        let ghost events = self.events();
        let ghost start = self.clock() as nat;
        let ghost data = self.sample().data();
        let ghost len = data.count();
        let n: usize = out.len();
        let total: usize = self.sample.frames().len();
        let block_end: u64 = self.frame + n as u64;
        let mut cursor: usize = 0;
        let mut next = self.next_event(self.frame, block_end);
        loop
            invariant_except_break
                cursor < n || n == 0,
                n == 0 ==> self.pool() == pool && self.events() == events,
                started_times(self.pool(), due_at(self.events(), (start + cursor) as nat))
                    == pool_heard(pool, events, start, len, cursor as nat),
                forall|t: u64| t < start + cursor ==> #[trigger] self.events().count(t) == 0,
                forall|t: u64|
                    t > start + cursor ==> #[trigger] self.events().count(t) == events.count(t),
                match next {
                    Some(at) => {
                        &&& start + cursor <= at < block_end
                        &&& self.events().count(at) > 0
                        &&& forall|t: u64|
                            start + cursor <= t < at ==> #[trigger] self.events().count(t) == 0
                    },
                    None => forall|t: u64|
                        start + cursor <= t < block_end ==> #[trigger] self.events().count(t) == 0,
                },
            invariant
                pool == old(self).pool(),
                events == old(self).events(),
                start == old(self).clock(),
                data == old(self).sample().data(),
                len == data.count(),
                len == total,
                self.events().len() <= PENDING_CAPACITY,
                n == out@.len(),
                n == old(out)@.len(),
                block_end == start + n,
                add_is_total::<T>(),
                0 <= cursor <= n,
                self.sample() == old(self).sample(),
                self.clock() == old(self).clock(),
                self.taken() == old(self).taken(),
                self.attempts() == old(self).attempts(),
                self.carried() == old(self).carried(),
                self.sample().wf(),
                old(self).wf(),
                pool_wf(pool, len),
                pool_wf(self.pool(), len),
                forall|k: int|
                    0 <= k < cursor ==> is_mix(
                        pool_heard(pool, events, start, len, k as nat),
                        data,
                        #[trigger] out@[k],
                    ),
            ensures
                next is None,
                cursor == n,
                forall|t: u64| t < block_end ==> #[trigger] self.events().count(t) == 0,
                forall|t: u64| t >= block_end ==> #[trigger] self.events().count(t) == events.count(t),
                self.pool() == pool_at(pool, events, start, len, n as nat),
                pool_wf(self.pool(), len),
                self.events().len() <= PENDING_CAPACITY,
                forall|k: int|
                    0 <= k < n ==> is_mix(
                        pool_heard(pool, events, start, len, k as nat),
                        data,
                        #[trigger] out@[k],
                    ),
            decreases
                    if next is Some {
                        1int
                    } else {
                        0int
                    },
                    self.events().len(),
        {
            let split: usize = match next {
                Some(at) => (at - self.frame) as usize,
                None => n,
            };
            if split > cursor {
                let ghost from = cursor as nat;
                proof {
                    assert forall|j: nat| from < j < split implies #[trigger] due_at(
                        events,
                        start + j,
                    ) == 0 by {
                        assert(self.events().count((start + j) as u64) == 0);
                    }
                }
                mix_span(&mut self.voices, self.sample.frames(), out, cursor, split);
                proof {
                    let heard = pool_heard(pool, events, start, len, from);
                    lemma_quiet_span(pool, events, start, len, from, split as nat);
                    lemma_pool_at_wf(pool, events, start, len, split as nat);
                    assert forall|k: int| 0 <= k < split implies is_mix(
                        pool_heard(pool, events, start, len, k as nat),
                        data,
                        #[trigger] out@[k],
                    ) by {
                        if k == from {
                            lemma_sounding_after_zero(heard, data, 0);
                            lemma_sounding_after_zero(heard, data, 1);
                        } else if k > from {
                            lemma_quiet_span(pool, events, start, len, from, k as nat);
                        }
                    }
                }
                cursor = split;
            }
            match next {
                Some(at) => {
                    proof {
                        lemma_started_wf(self.pool(), self.events().count(at), len);
                    }
                    self.fire_pending_at(at);
                    next = self.next_event(self.frame + cursor as u64, block_end);
                },
                None => break,
            }
        }
        self.frame = block_end;
        proof {
            assert(self.events() =~= still_pending(events, block_end as nat));
        }
    }
}

} // verus!
