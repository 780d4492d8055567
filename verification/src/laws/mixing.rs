//! Laws of the voice pool and of the mix it makes.
use core::ops::Add;
use vstd::prelude::*;

use crate::frames::{Frame, Frames};
#[allow(unused_imports)]
use crate::level::{adds, is_deterministic, silent, sums_to};
use crate::live;
use crate::voices::Voice;
#[allow(unused_imports)]
use crate::voices::{
    active_count, advanced, fresh, has_free, is_first_free, is_furthest, is_mix, is_span,
    lemma_pool_after_adds, lemma_start_slot_exists, pool_after, pool_wf, sounding, start_slot,
    started,
};

verus! {

/// A new voice always gets a slot. A free one is taken if there is one, the lowest; otherwise the
/// voice furthest into the sample is restarted. Every other voice is left alone, so that one more
/// voice sounds exactly if a slot was free.
pub proof fn starting_a_voice_never_drops_it(pool: Seq<Voice>)
    requires
        pool.len() >= 1,
    ensures
        started(pool).len() == pool.len(),
        0 <= start_slot(pool) < pool.len(),
        started(pool)[start_slot(pool)] == fresh(),
        has_free(pool) ==> is_first_free(pool, start_slot(pool)),
        !has_free(pool) ==> is_furthest(pool, start_slot(pool)),
        forall|i: int|
            0 <= i < pool.len() && i != start_slot(pool) ==> #[trigger] started(pool)[i] == pool[i],
        active_count(started(pool)) == active_count(pool) + if has_free(pool) {
            1nat
        } else {
            0nat
        },
        active_count(started(pool)) <= pool.len(),
{
    lemma_start_slot_exists(pool);
    let slot = start_slot(pool);
    lemma_count_after_update(pool, slot);
    lemma_count_bounded(started(pool));
    if !has_free(pool) {
        assert(pool[slot].active);
    }
}

/// The same for the engine without a timeline, where a full pool restarts its first slot.
pub proof fn starting_a_live_voice_never_drops_it(pool: Seq<Voice>, len: nat)
    requires
        pool_wf(pool, len),
    ensures
        live::started(pool).len() == pool.len(),
        0 <= live::start_slot(pool) < pool.len(),
        live::started(pool)[live::start_slot(pool)] == fresh(),
        has_free(pool) ==> is_first_free(pool, live::start_slot(pool)),
        !has_free(pool) ==> live::start_slot(pool) == 0,
        forall|i: int|
            0 <= i < pool.len() && i != live::start_slot(pool) ==> #[trigger] live::started(pool)[i]
                == pool[i],
        active_count(live::started(pool)) == active_count(pool) + if has_free(pool) {
            1nat
        } else {
            0nat
        },
        active_count(live::started(pool)) <= pool.len(),
{
    live::lemma_started_wf(pool, len);
    let slot = live::start_slot(pool);
    if has_free(pool) {
        let some = choose|i: int| 0 <= i < pool.len() && !(#[trigger] pool[i]).active;
        crate::voices::lemma_first_free_exists(pool, some);
    } else {
        assert(pool[slot].active);
    }
    lemma_count_after_update(pool, slot);
    lemma_count_bounded(live::started(pool));
}

/// Starting a voice in `slot` makes one more active if that slot was not.
proof fn lemma_count_after_update(pool: Seq<Voice>, slot: int)
    requires
        0 <= slot < pool.len(),
    ensures
        active_count(pool.update(slot, fresh())) == active_count(pool) + if pool[slot].active {
            0nat
        } else {
            1nat
        },
    decreases pool.len(),
{
    let after = pool.update(slot, fresh());
    if slot == pool.len() - 1 {
        assert(after.drop_last() =~= pool.drop_last());
    } else {
        assert(after.drop_last() =~= pool.drop_last().update(slot, fresh()));
        lemma_count_after_update(pool.drop_last(), slot);
    }
}

/// No more voices are active than there are.
proof fn lemma_count_bounded(pool: Seq<Voice>)
    ensures
        active_count(pool) <= pool.len(),
    decreases pool.len(),
{
    if pool.len() > 0 {
        lemma_count_bounded(pool.drop_last());
    }
}

/// A voice plays every frame of the sample once, in order, and its slot is released when the last
/// one has been played: `k` frames after its start it is at frame `k`, and at the end it is done.
pub proof fn a_voice_plays_the_sample_through(len: nat, k: nat)
    requires
        len <= usize::MAX,
    ensures
        k < len ==> advanced(fresh(), k, len) == (Voice { pos: k as usize, active: true }),
        k >= len ==> advanced(fresh(), k, len) == (Voice { pos: len as usize, active: false }),
{
}

/// Rendering a stretch in two goes plays what one go over both would, and leaves the voices in
/// the same place.
pub proof fn two_renders_play_what_one_would<T: Default + Add<Output = T>>(
    pool: Seq<Voice>,
    frames: Frames<T>,
    first: Seq<Frame<T>>,
    second: Seq<Frame<T>>,
)
    requires
        pool_wf(pool, frames.count()),
        frames.count() <= usize::MAX,
        is_span(pool, frames, first, 0, first.len() as int),
        is_span(
            pool_after(pool, first.len(), frames.count()),
            frames,
            second,
            0,
            second.len() as int,
        ),
    ensures
        is_span(pool, frames, first + second, 0, (first + second).len() as int),
        pool_after(
            pool_after(pool, first.len(), frames.count()),
            second.len(),
            frames.count(),
        ) == pool_after(pool, (first + second).len(), frames.count()),
{
    let len = frames.count();
    let out = first + second;
    lemma_pool_after_adds(pool, first.len(), second.len(), len);
    assert forall|i: int| 0 <= i < out.len() implies is_mix(
        pool_after(pool, (i - 0) as nat, len),
        frames,
        #[trigger] out[i],
    ) by {
        if i < first.len() {
            assert(out[i] == first[i]);
        } else {
            let j = i - first.len();
            assert(out[i] == second[j]);
            lemma_pool_after_adds(pool, first.len(), j as nat, len);
        }
    }
}

/// Mono material puts the same levels on both channels; where levels add up in one way only, the
/// two sides of every rendered frame are equal.
pub proof fn mono_lands_equally_in_both_channels<T: Default + Add<Output = T>>(
    pool: Seq<Voice>,
    frames: Frames<T>,
    frame: Frame<T>,
)
    requires
        frames is Mono,
        is_mix(pool, frames, frame),
    ensures
        sounding(pool, frames, 0) == sounding(pool, frames, 1),
        is_deterministic::<T>() ==> frame@[0] == frame@[1],
{
    lemma_mono_sounding(pool, frames);
    if is_deterministic::<T>() {
        lemma_sum_unique(sounding(pool, frames, 0), frame@[0], frame@[1]);
    }
}

proof fn lemma_mono_sounding<T>(pool: Seq<Voice>, frames: Frames<T>)
    requires
        frames is Mono,
    ensures
        sounding(pool, frames, 0) == sounding(pool, frames, 1),
    decreases pool.len(),
{
    if pool.len() > 0 {
        lemma_mono_sounding(pool.drop_last(), frames);
    }
}

/// Where levels add up in one way only, a sequence of them has one sum.
pub(crate) proof fn lemma_sum_unique<T: Default + Add<Output = T>>(levels: Seq<T>, r: T, s: T)
    requires
        is_deterministic::<T>(),
        sums_to(levels, r),
        sums_to(levels, s),
    ensures
        r == s,
    decreases levels.len(),
{
    if levels.len() > 0 {
        let shorter = levels.drop_last();
        let a = choose|a: T| sums_to(shorter, a) && #[trigger] adds(a, levels.last(), r);
        let b = choose|b: T| sums_to(shorter, b) && #[trigger] adds(b, levels.last(), s);
        lemma_sum_unique(shorter, a, b);
    } else {
        assert(silent(r) && silent(s));
    }
}

/// Every voice that plays is heard: the level of the frame it is at is one of those summed, on
/// either channel. A voice that has just started is heard with the first frame of the sample.
pub proof fn every_voice_is_heard<T>(
    pool: Seq<Voice>,
    frames: Frames<T>,
    channel: int,
    slot: int,
)
    requires
        0 <= slot < pool.len(),
        pool[slot].active,
        pool[slot].pos < frames.count(),
    ensures
        sounding(pool, frames, channel).contains(frames.level(pool[slot].pos as int, channel)),
    decreases pool.len(),
{
    let level = frames.level(pool[slot].pos as int, channel);
    let heard = sounding(pool, frames, channel);
    if slot == pool.len() - 1 {
        assert(heard.last() == level);
    } else {
        let shorter = pool.drop_last();
        every_voice_is_heard(shorter, frames, channel, slot);
        let before = sounding(shorter, frames, channel);
        let k = choose|k: int| 0 <= k < before.len() && before[k] == level;
        assert(heard[k] == level);
    }
}

/// What is on one channel has no bearing on the other: material that agrees on a channel sounds
/// the same there, whatever the rest of it holds.
pub proof fn channels_stay_apart<T>(
    pool: Seq<Voice>,
    a: Frames<T>,
    b: Frames<T>,
    channel: int,
)
    requires
        a.channel(channel) == b.channel(channel),
    ensures
        sounding(pool, a, channel) == sounding(pool, b, channel),
    decreases pool.len(),
{
    assert(a.channel(channel).len() == a.count());
    assert(b.channel(channel).len() == b.count());
    if pool.len() > 0 {
        channels_stay_apart(pool.drop_last(), a, b, channel);
        let pos = pool.last().pos as int;
        if pos < a.count() {
            assert(a.channel(channel)[pos] == a.level(pos, channel));
            assert(b.channel(channel)[pos] == b.level(pos, channel));
        }
    }
}

/// No more levels are summed than voices are active, and exactly as many unless the sample has no
/// frames. With no voice active, or no frames, a rendered frame is silent.
pub proof fn the_mix_is_one_level_per_active_voice<T: Default + Add<Output = T>>(
    pool: Seq<Voice>,
    frames: Frames<T>,
    channel: int,
)
    requires
        pool_wf(pool, frames.count()),
    ensures
        frames.count() > 0 ==> sounding(pool, frames, channel).len() == active_count(pool),
        frames.count() == 0 ==> sounding(pool, frames, channel).len() == 0,
        sounding(pool, frames, channel).len() <= pool.len(),
        forall|frame: Frame<T>|
            (active_count(pool) == 0 || frames.count() == 0) && #[trigger] is_mix(
                pool,
                frames,
                frame,
            ) ==> silent(frame@[0]) && silent(frame@[1]),
{
    lemma_sounding_count(pool, frames, channel);
    lemma_sounding_count(pool, frames, 0);
    lemma_sounding_count(pool, frames, 1);
    lemma_count_bounded(pool);
}

proof fn lemma_sounding_count<T>(pool: Seq<Voice>, frames: Frames<T>, channel: int)
    requires
        forall|i: int|
            0 <= i < pool.len() && (#[trigger] pool[i]).active ==> pool[i].pos < frames.count()
                || frames.count() == 0,
    ensures
        frames.count() > 0 ==> sounding(pool, frames, channel).len() == active_count(pool),
        frames.count() == 0 ==> sounding(pool, frames, channel).len() == 0,
    decreases pool.len(),
{
    if pool.len() > 0 {
        assert forall|i: int|
            0 <= i < pool.len() - 1 && (#[trigger] pool.drop_last()[i]).active implies
            pool.drop_last()[i].pos < frames.count() || frames.count() == 0 by {
            assert(pool.drop_last()[i] == pool[i]);
        }
        lemma_sounding_count(pool.drop_last(), frames, channel);
        assert(pool.last() == pool[pool.len() - 1]);
    }
}

} // verus!
