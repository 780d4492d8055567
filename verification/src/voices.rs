//! The voice pool: a fixed set of slots, each an independent playback of the same sample.
//!
//! Slots are claimed by [`start_voice`], and [`mix_span`] plays every claimed slot onto a stereo
//! bus. Nothing here allocates: the pool is built once and only ever updated in place.
use core::ops::Add;
use vstd::prelude::*;

use crate::frames::{Frame, Frames};
#[allow(unused_imports)]
use crate::level::{add_is_total, lemma_sum_extends, silent, sums_to};

verus! {

/// A single playing instance of the sample.
#[derive(Clone, Copy, Debug, PartialEq, Eq, Structural)]
pub struct Voice {
    /// The next frame of the sample to play.
    pub pos: usize,
    /// Whether the slot is in use.
    pub active: bool,
}

/// A slot that nothing has claimed yet.
pub open spec fn idle() -> Voice {
    Voice { pos: 0, active: false }
}

/// A slot at the very start of the sample.
pub open spec fn fresh() -> Voice {
    Voice { pos: 0, active: true }
}

/// The pool is usable with a sample of `len` frames: it has a slot, no slot is past the end, and
/// a slot that reached the end is released, unless the sample has no frames to begin with.
pub open spec fn pool_wf(pool: Seq<Voice>, len: nat) -> bool {
    &&& pool.len() >= 1
    &&& forall|i: int|
        0 <= i < pool.len() ==> {
            &&& (#[trigger] pool[i]).pos <= len
            &&& pool[i].active ==> pool[i].pos < len || len == 0
        }
}

/// `voice` once a span of `n` frames has been rendered from a sample of `len` frames: it moves
/// one frame per frame rendered, and the slot is released when the sample has run out.
pub open spec fn advanced(voice: Voice, n: nat, len: nat) -> Voice {
    if !voice.active {
        voice
    } else if voice.pos + n < len {
        Voice { pos: (voice.pos + n) as usize, active: true }
    } else {
        Voice { pos: if voice.pos < len { len as usize } else { voice.pos }, active: false }
    }
}

/// Every slot of the pool once a span of `n` frames has been rendered.
pub open spec fn pool_after(pool: Seq<Voice>, n: nat, len: nat) -> Seq<Voice> {
    pool.map_values(|voice: Voice| advanced(voice, n, len))
}

/// What the pool puts on `channel` for the frame it is at: one level per sounding slot, in slot
/// order.
pub open spec fn sounding<T>(pool: Seq<Voice>, frames: Frames<T>, channel: int) -> Seq<T>
    decreases pool.len(),
{
    if pool.len() == 0 {
        Seq::empty()
    } else {
        let before = sounding(pool.drop_last(), frames, channel);
        let voice = pool.last();
        if voice.active && voice.pos < frames.count() {
            before.push(frames.level(voice.pos as int, channel))
        } else {
            before
        }
    }
}

/// `frame` is the pool's mix for the frame it is at: on each channel the sum of what sounds.
pub open spec fn is_mix<T: Default + Add<Output = T>>(
    pool: Seq<Voice>,
    frames: Frames<T>,
    frame: Frame<T>,
) -> bool {
    &&& sums_to(sounding(pool, frames, 0), frame@[0])
    &&& sums_to(sounding(pool, frames, 1), frame@[1])
}

/// `out[from..to]` is what the pool plays over the next `to - from` frames.
pub open spec fn is_span<T: Default + Add<Output = T>>(
    pool: Seq<Voice>,
    frames: Frames<T>,
    out: Seq<Frame<T>>,
    from: int,
    to: int,
) -> bool {
    forall|i: int|
        from <= i < to ==> is_mix(
            pool_after(pool, (i - from) as nat, frames.count()),
            frames,
            #[trigger] out[i],
        )
}

/// The lowest slot not in use.
pub open spec fn is_first_free(pool: Seq<Voice>, slot: int) -> bool {
    &&& 0 <= slot < pool.len()
    &&& !pool[slot].active
    &&& forall|i: int| 0 <= i < slot ==> (#[trigger] pool[i]).active
}

/// The slot furthest into the sample, and the highest of those where several are level.
pub open spec fn is_furthest(pool: Seq<Voice>, slot: int) -> bool {
    &&& 0 <= slot < pool.len()
    &&& forall|i: int| 0 <= i < slot ==> (#[trigger] pool[i]).pos <= pool[slot].pos
    &&& forall|i: int| slot < i < pool.len() ==> (#[trigger] pool[i]).pos < pool[slot].pos
}

/// Whether some slot is not in use.
pub open spec fn has_free(pool: Seq<Voice>) -> bool {
    exists|i: int| 0 <= i < pool.len() && !(#[trigger] pool[i]).active
}

/// The slot a new voice goes to: the lowest free one, else the one furthest into the sample.
pub open spec fn start_slot(pool: Seq<Voice>) -> int {
    if has_free(pool) {
        choose|slot: int| is_first_free(pool, slot)
    } else {
        choose|slot: int| is_furthest(pool, slot)
    }
}

/// The pool with one more voice started.
pub open spec fn started(pool: Seq<Voice>) -> Seq<Voice> {
    pool.update(start_slot(pool), fresh())
}

/// The pool with `n` more voices started, one after another.
pub open spec fn started_times(pool: Seq<Voice>, n: nat) -> Seq<Voice>
    decreases n,
{
    if n == 0 {
        pool
    } else {
        started(started_times(pool, (n - 1) as nat))
    }
}

/// How many slots are in use.
pub open spec fn active_count(pool: Seq<Voice>) -> nat
    decreases pool.len(),
{
    if pool.len() == 0 {
        0
    } else {
        active_count(pool.drop_last()) + if pool.last().active {
            1nat
        } else {
            0nat
        }
    }
}

/// Two slots cannot both be the lowest free one.
pub(crate) proof fn lemma_first_free_unique(pool: Seq<Voice>, a: int, b: int)
    requires
        is_first_free(pool, a),
        is_first_free(pool, b),
    ensures
        a == b,
{
    if a < b {
        assert(pool[a].active);
    } else if b < a {
        assert(pool[b].active);
    }
}

/// Two slots cannot both be the furthest.
proof fn lemma_furthest_unique(pool: Seq<Voice>, a: int, b: int)
    requires
        is_furthest(pool, a),
        is_furthest(pool, b),
    ensures
        a == b,
{
    if a < b {
        assert(pool[b].pos < pool[a].pos);
        assert(pool[a].pos <= pool[b].pos);
    } else if b < a {
        assert(pool[a].pos < pool[b].pos);
        assert(pool[b].pos <= pool[a].pos);
    }
}

/// The pool slot that [`started`] names exists, given that it has been found.
proof fn lemma_start_slot(pool: Seq<Voice>, slot: int)
    requires
        is_first_free(pool, slot) || (!has_free(pool) && is_furthest(pool, slot)),
    ensures
        start_slot(pool) == slot,
{
    if is_first_free(pool, slot) {
        assert(!pool[slot].active);
        lemma_first_free_unique(pool, slot, choose|s: int| is_first_free(pool, s));
    } else {
        lemma_furthest_unique(pool, slot, choose|s: int| is_furthest(pool, s));
    }
}

/// Start a voice in the slot that is free, or steal one if none is.
///
/// When the pool is exhausted, whichever voice is furthest into the sample goes. For a decaying
/// one-shot that is also the quietest, so it is both the least missed and the one whose abrupt
/// restart makes the smallest discontinuity.
pub fn start_voice(pool: &mut Vec<Voice>)
    requires
        old(pool)@.len() >= 1,
    ensures
        final(pool)@ == started(old(pool)@),
{
    let mut slot: usize = 0;
    let mut furthest: usize = 0;
    while slot < pool.len() && pool[slot].active
        invariant
            0 <= slot <= pool@.len(),
            0 <= furthest < pool@.len(),
            pool@ == old(pool)@,
            slot == 0 ==> furthest == 0,
            slot > 0 ==> furthest < slot,
            forall|i: int| 0 <= i < slot ==> (#[trigger] pool@[i]).active,
            forall|i: int| 0 <= i < furthest ==> (#[trigger] pool@[i]).pos <= pool@[furthest as int].pos,
            forall|i: int|
                furthest < i < slot ==> (#[trigger] pool@[i]).pos < pool@[furthest as int].pos,
        decreases pool@.len() - slot,
    {
        if pool[slot].pos >= pool[furthest].pos {
            furthest = slot;
        }
        slot = slot + 1;
    }
    let chosen: usize = if slot < pool.len() {
        slot
    } else {
        furthest
    };
    proof {
        lemma_start_slot(pool@, chosen as int);
    }
    pool[chosen] = Voice { pos: 0, active: true };
}

/// There is always a slot for a new voice to go to.
pub(crate) proof fn lemma_start_slot_exists(pool: Seq<Voice>)
    requires
        pool.len() >= 1,
    ensures
        0 <= start_slot(pool) < pool.len(),
        has_free(pool) ==> is_first_free(pool, start_slot(pool)),
        !has_free(pool) ==> is_furthest(pool, start_slot(pool)),
{
    if has_free(pool) {
        let some = choose|i: int| 0 <= i < pool.len() && !(#[trigger] pool[i]).active;
        lemma_first_free_exists(pool, some);
    } else {
        lemma_furthest_exists(pool, pool.len() as int);
        let slot = choose|slot: int| is_furthest(pool.take(pool.len() as int), slot);
        assert(pool.take(pool.len() as int) =~= pool);
        assert(is_furthest(pool, slot));
    }
}

/// Where some slot is free, one is the lowest.
pub(crate) proof fn lemma_first_free_exists(pool: Seq<Voice>, some: int)
    requires
        0 <= some < pool.len(),
        !pool[some].active,
    ensures
        exists|slot: int| is_first_free(pool, slot),
    decreases some,
{
    if exists|i: int| 0 <= i < some && !(#[trigger] pool[i]).active {
        let lower = choose|i: int| 0 <= i < some && !(#[trigger] pool[i]).active;
        lemma_first_free_exists(pool, lower);
    } else {
        assert(is_first_free(pool, some));
    }
}

/// Among the first `n` slots one is the furthest.
proof fn lemma_furthest_exists(pool: Seq<Voice>, n: int)
    requires
        1 <= n <= pool.len(),
    ensures
        exists|slot: int| is_furthest(pool.take(n), slot),
    decreases n,
{
    let prefix = pool.take(n);
    if n == 1 {
        assert(is_furthest(prefix, 0));
    } else {
        lemma_furthest_exists(pool, n - 1);
        let shorter = pool.take(n - 1);
        let slot = choose|slot: int| is_furthest(shorter, slot);
        assert forall|i: int| 0 <= i < n - 1 implies #[trigger] prefix[i] == shorter[i] by {}
        if prefix[n - 1].pos >= prefix[slot].pos {
            assert forall|i: int| 0 <= i < n - 1 implies (#[trigger] prefix[i]).pos <= prefix[n
                - 1].pos by {
                assert(shorter[i].pos <= shorter[slot].pos);
            }
            assert(is_furthest(prefix, n - 1));
        } else {
            assert forall|i: int| slot < i < n implies (#[trigger] prefix[i]).pos
                < prefix[slot].pos by {
                if i < n - 1 {
                    assert(shorter[i].pos < shorter[slot].pos);
                }
            }
            assert forall|i: int| 0 <= i < slot implies (#[trigger] prefix[i]).pos
                <= prefix[slot].pos by {
                assert(shorter[i].pos <= shorter[slot].pos);
            }
            assert(is_furthest(prefix, slot));
        }
    }
}

/// Starting voices keeps the pool usable and its size the same.
pub(crate) proof fn lemma_started_wf(pool: Seq<Voice>, n: nat, len: nat)
    requires
        pool_wf(pool, len),
    ensures
        pool_wf(started_times(pool, n), len),
        started_times(pool, n).len() == pool.len(),
    decreases n,
{
    if n > 0 {
        lemma_started_wf(pool, (n - 1) as nat, len);
        let before = started_times(pool, (n - 1) as nat);
        lemma_start_slot_exists(before);
    }
}

/// Taking one more slot into account adds that slot's level, if it sounds, and nothing else.
proof fn lemma_sounding_step<T>(pool: Seq<Voice>, frames: Frames<T>, channel: int, s: int)
    requires
        0 <= s < pool.len(),
    ensures
        sounding(pool.take(s + 1), frames, channel) == (if pool[s].active && pool[s].pos
            < frames.count() {
            sounding(pool.take(s), frames, channel).push(
                frames.level(pool[s].pos as int, channel),
            )
        } else {
            sounding(pool.take(s), frames, channel)
        }),
{
    assert(pool.take(s + 1).drop_last() =~= pool.take(s));
    assert(pool.take(s + 1).last() == pool[s]);
}

/// Rendering `a` frames and then `b` is rendering `a + b`.
pub(crate) proof fn lemma_advanced_adds(voice: Voice, a: nat, b: nat, len: nat)
    requires
        voice.pos <= len <= usize::MAX,
    ensures
        advanced(advanced(voice, a, len), b, len) == advanced(voice, a + b, len),
{
}

/// Rendering `a` frames and then `b` is rendering `a + b`, for the whole pool.
pub(crate) proof fn lemma_pool_after_adds(pool: Seq<Voice>, a: nat, b: nat, len: nat)
    requires
        pool_wf(pool, len),
        len <= usize::MAX,
    ensures
        pool_after(pool_after(pool, a, len), b, len) == pool_after(pool, a + b, len),
{
    assert forall|i: int| 0 <= i < pool.len() implies advanced(
        advanced(pool[i], a, len),
        b,
        len,
    ) == advanced(pool[i], a + b, len) by {
        lemma_advanced_adds(pool[i], a, b, len);
    }
    assert(pool_after(pool_after(pool, a, len), b, len) =~= pool_after(pool, a + b, len));
}

/// Rendering no frames changes nothing that can be heard.
pub(crate) proof fn lemma_sounding_after_zero<T>(
    pool: Seq<Voice>,
    frames: Frames<T>,
    channel: int,
)
    ensures
        sounding(pool_after(pool, 0, frames.count()), frames, channel) == sounding(
            pool,
            frames,
            channel,
        ),
    decreases pool.len(),
{
    let after = pool_after(pool, 0, frames.count());
    if pool.len() > 0 {
        lemma_sounding_after_zero(pool.drop_last(), frames, channel);
        assert(after.drop_last() =~= pool_after(pool.drop_last(), 0, frames.count()));
        assert(after.last() == advanced(pool.last(), 0, frames.count()));
    }
}

/// Rendering keeps the pool usable.
pub(crate) proof fn lemma_pool_after_wf(pool: Seq<Voice>, n: nat, len: nat)
    requires
        pool_wf(pool, len),
        len <= usize::MAX,
    ensures
        pool_wf(pool_after(pool, n, len), len),
{
    let after = pool_after(pool, n, len);
    assert forall|i: int| 0 <= i < after.len() implies (#[trigger] after[i]).pos <= len && (
    after[i].active ==> after[i].pos < len || len == 0) by {
        assert(pool[i].pos <= len);
    }
}

/// Play the pool onto `out[from..to]`, overwriting it so a caller cannot forget to clear the
/// buffer, and move every voice on by as many frames.
pub fn mix_span<T: Copy + Default + Add<Output = T>>(
    pool: &mut Vec<Voice>,
    frames: &Frames<T>,
    out: &mut [Frame<T>],
    from: usize,
    to: usize,
)
    requires
        pool_wf(old(pool)@, frames.count()),
        from <= to <= old(out)@.len(),
        add_is_total::<T>(),
    ensures
        final(pool)@ == pool_after(old(pool)@, (to - from) as nat, frames.count()),
        final(out)@.len() == old(out)@.len(),
        is_span(old(pool)@, *frames, final(out)@, from as int, to as int),
        forall|i: int|
            0 <= i < old(out)@.len() && !(from <= i < to) ==> final(out)@[i] == old(out)@[i],
{
    let ghost pool0 = pool@;
    let ghost out0 = out@;
    let len: usize = frames.len();
    let span: usize = to - from;
    let mut i: usize = from;
    while i < to
        invariant
            from <= i <= to,
            to <= out@.len(),
            out@.len() == out0.len(),
            forall|k: int| from <= k < i ==> silent((#[trigger] out@[k])@[0]) && silent(out@[k]@[1]),
            forall|k: int| 0 <= k < out0.len() && !(from <= k < i) ==> out@[k] == out0[k],
        decreases to - i,
    {
        let left = T::default();
        let right = T::default();
        out[i] = [left, right];
        i = i + 1;
    }
    let mut s: usize = 0;
    proof {
        assert forall|k: int| from <= k < to implies is_mix(
            pool_after(pool0, (k - from) as nat, len as nat).take(0),
            *frames,
            #[trigger] out@[k],
        ) by {
            assert(silent(out@[k]@[0]));
        }
    }
    while s < pool.len()
        invariant
            0 <= s <= pool@.len(),
            pool@.len() == pool0.len(),
            pool_wf(pool0, len as nat),
            len == frames.count(),
            add_is_total::<T>(),
            from <= to,
            span == to - from,
            to <= out@.len(),
            out@.len() == out0.len(),
            forall|k: int| 0 <= k < s ==> pool@[k] == advanced(pool0[k], span as nat, len as nat),
            forall|k: int| s <= k < pool0.len() ==> pool@[k] == pool0[k],
            forall|k: int|
                from <= k < to ==> is_mix(
                    pool_after(pool0, (k - from) as nat, len as nat).take(s as int),
                    *frames,
                    #[trigger] out@[k],
                ),
            forall|k: int| 0 <= k < out0.len() && !(from <= k < to) ==> out@[k] == out0[k],
        decreases pool@.len() - s,
    {
        let voice = pool[s];
        assert(voice == pool0[s as int]);
        let mut n: usize = 0;
        if voice.active {
            let left: usize = len - voice.pos;
            n = if left < span {
                left
            } else {
                span
            };
            let mut k: usize = 0;
            while k < n
                invariant
                    0 <= k <= n,
                    n <= span,
                    span == to - from,
                    from <= to,
                    to <= out@.len(),
                    out@.len() == out0.len(),
                    len == frames.count(),
                    0 <= s < pool0.len(),
                    voice == pool0[s as int],
                    voice.active,
                    voice.pos + n <= len,
                    add_is_total::<T>(),
                    forall|j: int|
                        from <= j < from + k ==> is_mix(
                            pool_after(pool0, (j - from) as nat, len as nat).take(s + 1),
                            *frames,
                            #[trigger] out@[j],
                        ),
                    forall|j: int|
                        from + k <= j < to ==> is_mix(
                            pool_after(pool0, (j - from) as nat, len as nat).take(s as int),
                            *frames,
                            #[trigger] out@[j],
                        ),
                    forall|j: int| 0 <= j < out0.len() && !(from <= j < to) ==> out@[j] == out0[j],
                decreases n - k,
            {
                let x = frames.frame(voice.pos + k);
                let o = out[from + k];
                let ghost j = from + k;
                let l = o[0] + x[0];
                let r = o[1] + x[1];
                proof {
                    let p = pool_after(pool0, k as nat, len as nat);
                    assert(is_mix(p.take(s as int), *frames, o));
                    assert(p[s as int].pos == voice.pos + k);
                    lemma_sounding_step(p, *frames, 0, s as int);
                    lemma_sounding_step(p, *frames, 1, s as int);
                    lemma_sum_extends(sounding(p.take(s as int), *frames, 0), o@[0], x@[0], l);
                    lemma_sum_extends(sounding(p.take(s as int), *frames, 1), o@[1], x@[1], r);
                }
                out[from + k] = [l, r];
                k = k + 1;
            }
        }
        proof {
            assert forall|j: int| from + n <= j < to implies is_mix(
                pool_after(pool0, (j - from) as nat, len as nat).take(s + 1),
                *frames,
                #[trigger] out@[j],
            ) by {
                let p = pool_after(pool0, (j - from) as nat, len as nat);
                assert(is_mix(p.take(s as int), *frames, out@[j]));
                lemma_sounding_step(p, *frames, 0, s as int);
                lemma_sounding_step(p, *frames, 1, s as int);
            }
        }
        if voice.active {
            let pos: usize = voice.pos + n;
            pool[s] = Voice { pos, active: pos < len };
        }
        s = s + 1;
    }
    proof {
        assert(pool@ =~= pool_after(pool0, span as nat, len as nat));
        assert forall|k: int| from <= k < to implies is_mix(
            pool_after(pool0, (k - from) as nat, frames.count()),
            *frames,
            #[trigger] out@[k],
        ) by {
            let p = pool_after(pool0, (k - from) as nat, len as nat);
            assert(p.take(pool0.len() as int) =~= p);
        }
    }
}

} // verus!
