//! Playback by hand: a smaller engine without a timeline.
//!
//! Where nothing is ever scheduled, the host can do with less: it drains the commands itself at
//! the start of each block ([`Engine::pump`]) and then renders ([`Engine::render`]). Every note
//! starts on a block boundary, and when the pool is exhausted the first slot loses its note.
use core::ops::Add;
use vstd::prelude::*;

use crate::engine::new_pool;
use crate::frames::{Frame, Frames};
#[allow(unused_imports)]
use crate::level::add_is_total;
#[allow(unused_imports)]
use crate::queue::{
    attempts, capacity, carried_from, carried_to, drained, freed, lemma_success_extends, sent,
    successes, taken,
};
use crate::queue::{new_queue, pop, push, Command};
use crate::sample::render_wave;
#[allow(unused_imports)]
use crate::voices::{
    fresh, has_free, idle, is_first_free, is_span, lemma_first_free_exists,
    lemma_first_free_unique, lemma_pool_after_wf, pool_after, pool_wf,
};
use crate::voices::{mix_span, Voice};
use crate::wav::{decode, deinterleave, Contents, DecodeError, Refusal, WavSpec};
#[allow(unused_imports)]
use crate::wav::{is_decoding, is_deinterleaved, takes_every_depth};

verus! {

/// How many commands can be in flight between the two threads.
pub const COMMAND_CAPACITY: usize = 64;

/// A decoded audio sample.
pub struct Sample<T> {
    /// PCM data.
    pub frames: Frames<T>,
    /// Sample rate the data was recorded at, in Hz.
    pub sample_rate: u32,
    /// Channel count of the source file, kept only so the host can warn about material that was
    /// reduced on load.
    pub source_channels: u16,
}

/// Real-time playback engine. Lives inside the audio callback.
///
/// Mixes a fixed pool of voices, each an independent playback of the same sample. Everything
/// here is allocation- and lock-free.
pub struct Engine<T> {
    sample: Sample<T>,
    voices: Vec<Voice>,
    commands: rtrb::Consumer<Command>,
}

/// Control-side handle used to trigger the sample from another thread.
pub struct Trigger {
    tx: rtrb::Producer<Command>,
}

/// The slot a new voice goes to: the lowest free one, else the first.
pub open spec fn start_slot(pool: Seq<Voice>) -> int {
    if has_free(pool) {
        choose|slot: int| is_first_free(pool, slot)
    } else {
        0
    }
}

/// The pool with one more voice started.
pub open spec fn started(pool: Seq<Voice>) -> Seq<Voice> {
    pool.update(start_slot(pool), fresh())
}

/// The pool with `n` more voices started, one after another.
pub open spec fn started_times(pool: Seq<Voice>, n: nat) -> Seq<Voice>
    decreases n,
{
    if n == 0 {
        pool
    } else {
        started(started_times(pool, (n - 1) as nat))
    }
}

impl<T: Copy> Sample<T> {
    /// Load a WAV file, preserving mono/stereo layout. `opened` is what came of opening
    /// the file, and inside it how far reading it came.
    ///
    /// Files with more than two channels are truncated to the first two. Any sample rate but
    /// zero is accepted.
    pub fn load_wav<I: Fn(i32, i64) -> T, F: Fn(&[u8]) -> Result<Vec<T>, Refusal>>(
        opened: Result<Contents, hound::Error>,
        from_int: I,
        read_floats: F,
    ) -> (r: Result<Self, DecodeError>)
        requires
            takes_every_depth(from_int),
            forall|bytes: &[u8]| call_requires(read_floats, (bytes,)),
        ensures
            opened matches Err(err) ==> (r matches Err(DecodeError::Unreadable(cause))
                && cause.error() == err),
            opened matches Ok(contents) ==> exists|
                bytes: &[u8],
                decoded: Result<(WavSpec, Vec<T>), DecodeError>,
            |
                bytes@ == contents.bytes@ && #[trigger] is_decoding(
                    bytes,
                    contents.failure,
                    1,
                    u32::MAX,
                    from_int,
                    read_floats,
                    decoded,
                ) && match decoded {
                    Ok((spec, raw)) => {
                        &&& r matches Ok(sample)
                        &&& is_deinterleaved(spec.channels, raw@, sample.frames)
                        &&& sample.sample_rate == spec.sample_rate
                        &&& sample.source_channels == spec.channels
                    },
                    Err(fault) => r == Err::<Self, DecodeError>(fault),
                },
    {
        let contents = match opened {
            Ok(contents) => contents,
            Err(err) => return Err(DecodeError::from_hound(err)),
        };
        match decode(contents, 1, u32::MAX, from_int, read_floats) {
            Ok((spec, raw)) => Ok(
                Sample {
                    frames: deinterleave(spec.channels, raw),
                    sample_rate: spec.sample_rate,
                    source_channels: spec.channels,
                },
            ),
            Err(fault) => Err(fault),
        }
    }

    /// Synthesize a short percussive blip, 250 ms of `wave`, so the engine can be tested without
    /// a real audio file on hand.
    pub fn blip<W: Fn(usize) -> T>(sample_rate: u32, wave: W) -> (r: Self)
        requires
            forall|i: usize| i < sample_rate / 4 ==> call_requires(wave, (i,)),
        ensures
            r.frames is Mono,
            r.frames.count() == sample_rate / 4,
            forall|i: int|
                0 <= i < sample_rate / 4 ==> call_ensures(
                    wave,
                    (i as usize,),
                    #[trigger] r.frames.level(i, 0),
                ),
            r.sample_rate == sample_rate,
            r.source_channels == 1,
    {
        Sample { frames: render_wave(sample_rate, wave), sample_rate, source_channels: 1 }
    }
}

impl Trigger {
    /// Every command sent through this handle so far, oldest first.
    pub closed spec fn sent(self) -> Seq<Command> {
        sent(self.tx)
    }

    /// How many commands can be in flight at once.
    pub closed spec fn capacity(self) -> nat {
        capacity(self.tx)
    }

    /// How many of the commands sent the engine had taken, as far as this handle had noticed when
    /// it last sent.
    pub closed spec fn freed(self) -> nat {
        freed(self.tx)
    }

    /// Every command that the queue behind this handle carries over its whole life.
    pub closed spec fn carried(self) -> Seq<Command> {
        carried_from(self.tx)
    }

    /// What holds of every handle: what was sent is part of what the queue carries, and no more is
    /// in flight than fits.
    pub open spec fn wf(self) -> bool {
        &&& self.sent().is_prefix_of(self.carried())
        &&& self.freed() <= self.sent().len()
        &&& self.sent().len() - self.freed() <= self.capacity()
    }

    /// Fire the sample once. Silently dropped if the command queue is full.
    pub fn fire(&mut self)
        requires
            old(self).wf(),
        ensures
            final(self).wf(),
            final(self).sent() == if old(self).sent().len() - final(self).freed() < old(
                self,
            ).capacity() {
                old(self).sent().push(Command::Trigger)
            } else {
                old(self).sent()
            },
            old(self).freed() <= final(self).freed() <= old(self).sent().len(),
            final(self).capacity() == old(self).capacity(),
            final(self).carried() == old(self).carried(),
    {
        let _ = push(&mut self.tx, Command::Trigger);
    }
}

/// Create an [`Engine`] and its paired [`Trigger`] handle.
///
/// `polyphony` is the number of overlapping sample instances allowed at once.
pub fn engine<T>(sample: Sample<T>, polyphony: usize) -> (r: (Engine<T>, Trigger))
    ensures
        r.0.wf(),
        r.1.wf(),
        r.0.sample() == sample,
        r.0.pool().len() == if polyphony == 0 {
            1
        } else {
            polyphony as nat
        },
        forall|i: int| 0 <= i < r.0.pool().len() ==> #[trigger] r.0.pool()[i] == idle(),
        r.0.taken() == Seq::<Command>::empty(),
        r.0.attempts() == Seq::<Option<Command>>::empty(),
        r.1.sent() == Seq::<Command>::empty(),
        r.1.freed() == 0,
        r.1.capacity() == COMMAND_CAPACITY,
        r.0.carried() == r.1.carried(),
{
    let (tx, rx) = new_queue(COMMAND_CAPACITY);
    let voices = new_pool(polyphony);
    (Engine { sample, voices, commands: rx }, Trigger { tx })
}

/// Start a voice in the slot that is free, or in the first if none is.
pub fn start_voice(pool: &mut Vec<Voice>)
    requires
        old(pool)@.len() >= 1,
    ensures
        final(pool)@ == started(old(pool)@),
{
    let mut slot: usize = 0;
    while slot < pool.len() && pool[slot].active
        invariant
            0 <= slot <= pool@.len(),
            pool@ == old(pool)@,
            forall|i: int| 0 <= i < slot ==> (#[trigger] pool@[i]).active,
        decreases pool@.len() - slot,
    {
        slot = slot + 1;
    }
    if slot < pool.len() {
        proof {
            assert(is_first_free(pool@, slot as int));
            lemma_first_free_unique(pool@, slot as int, start_slot(pool@));
        }
    } else {
        slot = 0;
    }
    pool[slot] = Voice { pos: 0, active: true };
}

/// There is always a slot for a new voice to go to, and starting one keeps the pool usable.
pub(crate) proof fn lemma_started_wf(pool: Seq<Voice>, len: nat)
    requires
        pool_wf(pool, len),
    ensures
        0 <= start_slot(pool) < pool.len(),
        started(pool).len() == pool.len(),
        pool_wf(started(pool), len),
{
    if has_free(pool) {
        let some = choose|i: int| 0 <= i < pool.len() && !(#[trigger] pool[i]).active;
        lemma_first_free_exists(pool, some);
    }
}

impl<T> Engine<T> {
    /// The sample it plays.
    pub closed spec fn sample(self) -> Sample<T> {
        self.sample
    }

    /// Its voices, slot by slot.
    pub closed spec fn pool(self) -> Seq<Voice> {
        self.voices@
    }

    /// Every command taken from the queue so far, oldest first.
    pub closed spec fn taken(self) -> Seq<Command> {
        taken(self.commands)
    }

    /// What every attempt to take a command from the queue has come back with so far.
    pub closed spec fn attempts(self) -> Seq<Option<Command>> {
        attempts(self.commands)
    }

    /// Every command that the queue behind this engine carries over its whole life.
    pub closed spec fn carried(self) -> Seq<Command> {
        carried_to(self.commands)
    }

    /// What holds of every engine: its voices are within the sample, and what it took from the
    /// queue is part of what that carries.
    pub open spec fn wf(self) -> bool {
        &&& pool_wf(self.pool(), self.sample().frames.count())
        &&& self.taken().is_prefix_of(self.carried())
    }

    /// Drain pending commands. Call once at the start of each audio block.
    ///
    /// Which commands have arrived is up to the sending thread: they are those by which
    /// [`Engine::taken`] grows, and each starts a voice. The engine goes on taking them until it
    /// finds the queue empty, and then stops.
    pub fn pump(&mut self)
        requires
            old(self).wf(),
        ensures
            final(self).wf(),
            old(self).taken().is_prefix_of(final(self).taken()),
            final(self).attempts() == drained(
                old(self).attempts(),
                final(self).taken().skip(old(self).taken().len() as int),
            ),
            final(self).pool() == started_times(
                old(self).pool(),
                (final(self).taken().len() - old(self).taken().len()) as nat,
            ),
            final(self).sample() == old(self).sample(),
            final(self).carried() == old(self).carried(),
    {
        let ghost before = self.taken();
        let ghost asked = self.attempts();
        let mut next = pop(&mut self.commands);
        assert(asked + successes(Seq::empty()) =~= asked);
        assert(before.skip(before.len() as int) =~= Seq::<Command>::empty());
        proof {
            if let Some(command) = next {
                lemma_success_extends(asked, Seq::empty(), command);
                assert(self.taken().skip(before.len() as int) =~= Seq::empty().push(command));
            }
        }
        loop
            invariant
                before == old(self).taken(),
                asked == old(self).attempts(),
                next is None ==> self.attempts() == drained(
                    asked,
                    self.taken().skip(before.len() as int),
                ),
                next is Some ==> self.attempts() == asked + successes(
                    self.taken().skip(before.len() as int),
                ),
                self.sample() == old(self).sample(),
                self.carried() == old(self).carried(),
                pool_wf(self.pool(), self.sample().frames.count()),
                self.taken().is_prefix_of(self.carried()),
                before.is_prefix_of(self.taken()),
                next is Some ==> self.taken().len() > before.len(),
                self.pool() == started_times(
                    old(self).pool(),
                    (self.taken().len() - before.len() - if next is Some {
                        1int
                    } else {
                        0
                    }) as nat,
                ),
            ensures
                next is None,
            decreases
                    self.carried().len() - self.taken().len(),
                    if next is Some {
                        1int
                    } else {
                        0int
                    },
        {
            match next {
                Some(_) => {},
                None => break,
            }
            proof {
                lemma_started_wf(self.pool(), self.sample().frames.count());
            }
            let ghost seen = self.taken().skip(before.len() as int);
            start_voice(&mut self.voices);
            next = pop(&mut self.commands);
            proof {
                if let Some(command) = next {
                    lemma_success_extends(asked, seen, command);
                    assert(self.taken().skip(before.len() as int) =~= seen.push(command));
                }
            }
        }
    }

    /// Sample rate the loaded sample was recorded at, in Hz.
    pub fn sample_rate(&self) -> (rate: u32)
        ensures
            rate == self.sample().sample_rate,
    {
        self.sample.sample_rate
    }
}

impl<T: Copy + Default + Add<Output = T>> Engine<T> {
    /// Render `out.len()` stereo frames, mixing every active voice.
    ///
    /// Overwrites `out` rather than accumulating, so a caller cannot forget to clear it.
    /// Rendering a sub-slice is well-defined: two renders in a row play what one over both would.
    pub fn render(&mut self, out: &mut [Frame<T>])
        requires
            old(self).wf(),
            add_is_total::<T>(),
        ensures
            final(self).wf(),
            final(out)@.len() == old(out)@.len(),
            is_span(
                old(self).pool(),
                old(self).sample().frames,
                final(out)@,
                0,
                final(out)@.len() as int,
            ),
            final(self).pool() == pool_after(
                old(self).pool(),
                old(out)@.len(),
                old(self).sample().frames.count(),
            ),
            final(self).sample() == old(self).sample(),
            final(self).taken() == old(self).taken(),
            final(self).attempts() == old(self).attempts(),
            final(self).carried() == old(self).carried(),
    {
        let n: usize = out.len();
        let total: usize = self.sample.frames.len();
        proof {
            lemma_pool_after_wf(self.pool(), n as nat, total as nat);
        }
        mix_span(&mut self.voices, &self.sample.frames, out, 0, n);
    }
}

} // verus!
