//! What starting voices and mixing them does, said of the calls themselves.
use core::ops::Add;
use vstd::prelude::*;

use crate::frames::{Frame, Frames};
#[allow(unused_imports)]
use crate::laws::arithmetic::{a_sum_takes_in_every_level, adds_like};
use crate::level::at;
use crate::live;
use crate::voices::{mix_span, start_voice, Voice};
#[allow(unused_imports)]
use crate::voices::{
    is_first_free, is_mix, lemma_first_free_exists, lemma_start_slot_exists, pool_after, sounding,
    start_slot,
};

verus! {

/// Where every voice is playing, a new one takes the place of one that is at least as far into the
/// sample as every other, and of the last of those that are level. It starts at the first frame, and
/// no other voice is touched.
pub proof fn a_full_pool_gives_up_its_furthest_voice(pool: &mut Vec<Voice>)
    requires
        call_ensures(start_voice, (pool,), ()),
        old(pool)@.len() >= 1,
        forall|i: int| 0 <= i < old(pool)@.len() ==> (#[trigger] old(pool)@[i]).active,
    ensures
        exists|slot: int|
            {
                &&& 0 <= slot < old(pool)@.len()
                &&& forall|i: int|
                    0 <= i < old(pool)@.len() ==> (#[trigger] old(pool)@[i]).pos <= old(pool)@[slot].pos
                &&& forall|i: int|
                    slot < i < old(pool)@.len() ==> (#[trigger] old(pool)@[i]).pos < old(pool)@[slot].pos
                &&& final(pool)@ == #[trigger] old(pool)@.update(
                    slot,
                    Voice { pos: 0, active: true },
                )
            },
{
    let before = old(pool)@;
    lemma_start_slot_exists(before);
    let slot = start_slot(before);
    assert(before.update(slot, Voice { pos: 0, active: true }) == final(pool)@);
    assert forall|i: int| 0 <= i < before.len() implies (#[trigger] before[i]).pos
        <= before[slot].pos by {
        if i > slot {
            assert(before[i].pos < before[slot].pos);
        }
    }
}

/// Where a slot is free, a new voice takes the lowest free one, and no voice that is playing is
/// touched.
pub proof fn a_free_slot_is_taken_before_any_voice(pool: &mut Vec<Voice>, free: int)
    requires
        call_ensures(start_voice, (pool,), ()),
        0 <= free < old(pool)@.len(),
        !old(pool)@[free].active,
    ensures
        exists|slot: int|
            {
                &&& 0 <= slot <= free
                &&& !old(pool)@[slot].active
                &&& forall|i: int| 0 <= i < slot ==> (#[trigger] old(pool)@[i]).active
                &&& final(pool)@ == #[trigger] old(pool)@.update(
                    slot,
                    Voice { pos: 0, active: true },
                )
            },
{
    let before = old(pool)@;
    lemma_start_slot_exists(before);
    let slot = start_slot(before);
    assert(before.update(slot, Voice { pos: 0, active: true }) == final(pool)@);
    if free < slot {
        assert(before[free].active);
    }
}

/// In the engine without a timeline a full pool restarts its first slot, whatever plays there.
pub proof fn a_full_live_pool_gives_up_its_first_voice(pool: &mut Vec<Voice>)
    requires
        call_ensures(live::start_voice, (pool,), ()),
        old(pool)@.len() >= 1,
        forall|i: int| 0 <= i < old(pool)@.len() ==> (#[trigger] old(pool)@[i]).active,
    ensures
        final(pool)@ == old(pool)@.update(0, Voice { pos: 0, active: true }),
{
}

/// And a free slot is taken before any voice there too, the lowest first.
pub proof fn a_free_live_slot_is_taken_before_any_voice(pool: &mut Vec<Voice>, free: int)
    requires
        call_ensures(live::start_voice, (pool,), ()),
        0 <= free < old(pool)@.len(),
        !old(pool)@[free].active,
    ensures
        exists|slot: int|
            {
                &&& 0 <= slot <= free
                &&& !old(pool)@[slot].active
                &&& forall|i: int| 0 <= i < slot ==> (#[trigger] old(pool)@[i]).active
                &&& final(pool)@ == #[trigger] old(pool)@.update(
                    slot,
                    Voice { pos: 0, active: true },
                )
            },
{
    let before = old(pool)@;
    lemma_first_free_exists(before, free);
    let slot = live::start_slot(before);
    assert(is_first_free(before, slot));
    assert(before.update(slot, Voice { pos: 0, active: true }) == final(pool)@);
    if free < slot {
        assert(before[free].active);
    }
}

/// What the frames hold at `pos` for side `side` of a stereo bus.
pub open spec fn stored<T>(frames: Frames<T>, pos: int, side: int) -> T {
    match frames {
        Frames::Mono(levels) => levels@[pos],
        Frames::Stereo(pairs) => pairs@[pos]@[side],
    }
}

/// How many frames there are.
pub open spec fn stored_len<T>(frames: Frames<T>) -> nat {
    match frames {
        Frames::Mono(levels) => levels@.len(),
        Frames::Stereo(pairs) => pairs@.len(),
    }
}

/// A frame sounds as it is stored: a mono one the same on both sides, a stereo one each side for itself.
pub proof fn a_frame_sounds_as_it_is_stored<T: Copy>(
    frames: &Frames<T>,
    pos: usize,
    frame: Frame<T>,
    len: usize,
    empty: bool,
    layout: &'static str,
)
    requires
        call_ensures(Frames::<T>::frame, (frames, pos), frame),
        call_ensures(Frames::<T>::layout, (frames,), layout),
        call_ensures(Frames::<T>::len, (frames,), len),
        call_ensures(Frames::<T>::is_empty, (frames,), empty),
    ensures
        match frames {
            Frames::Mono(levels) => {
                &&& frame@[0] == levels@[pos as int]
                &&& frame@[1] == levels@[pos as int]
                &&& len == levels@.len()
                &&& layout@ == "Mono"@
            },
            Frames::Stereo(pairs) => {
                &&& frame@[0] == pairs@[pos as int]@[0]
                &&& frame@[1] == pairs@[pos as int]@[1]
                &&& len == pairs@.len()
                &&& layout@ == "Stereo"@
            },
        },
        empty <==> len == 0,
{
}

/// What lies outside a source reads as silence, and what lies inside as it is.
pub proof fn outside_a_source_is_silence<T: Copy + Default>(src: &[T], j: isize, r: T)
    requires
        call_ensures(at::<T>, (src, j), r),
    ensures
        0 <= j < src@.len() ==> r == src@[j as int],
        j < 0 || j >= src@.len() ==> call_ensures(T::default, (), r),
{
}

/// What is heard of `pool` on side `side`, `k` frames from now: the levels of the voices that have not
/// run out by then, each as far on as that, added up from silence in slot order.
pub open spec fn heard<T>(
    pool: Seq<Voice>,
    frames: Frames<T>,
    side: int,
    k: nat,
    zero: T,
    plus: spec_fn(T, T) -> T,
) -> T {
    pool.filter(|voice: Voice| voice.active && voice.pos + k < stored_len(frames)).map_values(
        |voice: Voice| stored(frames, voice.pos + k, side),
    ).fold_left(zero, plus)
}

/// A voice, `n` frames on: one that has run out by then is released, one that has not stands `n`
/// frames further, and one that was not playing is as it was.
pub open spec fn moved_on(before: Voice, after: Voice, n: nat, len: nat) -> bool {
    &&& !before.active ==> after == before
    &&& before.active && before.pos + n < len ==> after.active && after.pos == before.pos + n
    &&& before.active && before.pos + n >= len ==> !after.active
    &&& before.active && before.pos + n >= len && before.pos <= len ==> after.pos == len
}

/// Mixing a span overwrites it with what is heard of the pool frame by frame, leaves the rest of the
/// buffer alone, and moves every voice on by the length of the span.
pub proof fn mixing_plays_every_voice<T: Copy + Default + Add<Output = T>>(
    pool: &mut Vec<Voice>,
    frames: &Frames<T>,
    out: &mut [Frame<T>],
    from: usize,
    to: usize,
    zero: T,
    plus: spec_fn(T, T) -> T,
)
    requires
        call_ensures(mix_span::<T>, (pool, frames, out, from, to), ()),
        adds_like(zero, plus),
        from <= to <= old(out)@.len(),
        stored_len(*frames) <= usize::MAX,
    ensures
        final(out)@.len() == old(out)@.len(),
        forall|i: int, side: int|
            from <= i < to && 0 <= side < 2 ==> (#[trigger] final(out)@[i]@[side]) == heard(
                old(pool)@,
                *frames,
                side,
                (i - from) as nat,
                zero,
                plus,
            ),
        forall|i: int|
            0 <= i < old(out)@.len() && !(from <= i < to) ==> final(out)@[i] == old(out)@[i],
        final(pool)@.len() == old(pool)@.len(),
        forall|i: int|
            0 <= i < old(pool)@.len() ==> moved_on(
                old(pool)@[i],
                #[trigger] final(pool)@[i],
                (to - from) as nat,
                stored_len(*frames),
            ),
{
    assert forall|i: int, side: int| from <= i < to && 0 <= side < 2 implies (
    #[trigger] final(out)@[i]@[side]) == heard(
        old(pool)@,
        *frames,
        side,
        (i - from) as nat,
        zero,
        plus,
    ) by {
        lemma_span_is_heard(
            old(pool)@,
            *frames,
            final(out)@[i],
            side,
            (i - from) as nat,
            zero,
            plus,
        );
    }
}

/// What a mix `k` frames on comes to.
pub(crate) proof fn lemma_span_is_heard<T: Default + Add<Output = T>>(
    pool: Seq<Voice>,
    frames: Frames<T>,
    frame: Frame<T>,
    side: int,
    k: nat,
    zero: T,
    plus: spec_fn(T, T) -> T,
)
    requires
        adds_like(zero, plus),
        0 <= side < 2,
        stored_len(frames) <= usize::MAX,
        is_mix(pool_after(pool, k, frames.count()), frames, frame),
    ensures
        frame@[side] == heard(pool, frames, side, k, zero, plus),
{
    let after = pool_after(pool, k, frames.count());
    lemma_sounding_is_filtered(pool, frames, side, k);
    assert(side == 0 || side == 1);
    a_sum_takes_in_every_level(zero, plus, sounding(after, frames, side), frame@[side]);
}

/// What sounds of a pool `k` frames on.
proof fn lemma_sounding_is_filtered<T>(pool: Seq<Voice>, frames: Frames<T>, side: int, k: nat)
    requires
        0 <= side < 2,
        stored_len(frames) <= usize::MAX,
    ensures
        sounding(pool_after(pool, k, frames.count()), frames, side) == pool.filter(
            |voice: Voice| voice.active && voice.pos + k < stored_len(frames),
        ).map_values(|voice: Voice| stored(frames, voice.pos + k, side)),
    decreases pool.len(),
{
    reveal(Seq::filter);
    let playing = |voice: Voice| voice.active && voice.pos + k < stored_len(frames);
    let level = |voice: Voice| stored(frames, voice.pos + k, side);
    let after = pool_after(pool, k, frames.count());
    if pool.len() == 0 {
        assert(pool.filter(playing).map_values(level) =~= Seq::<T>::empty());
    } else {
        let shorter = pool.drop_last();
        let last = pool.last();
        lemma_sounding_is_filtered(shorter, frames, side, k);
        assert(after.drop_last() =~= pool_after(shorter, k, frames.count()));
        if playing(last) {
            assert(pool.filter(playing) == shorter.filter(playing).push(last));
            assert(pool.filter(playing).map_values(level) =~= shorter.filter(playing).map_values(
                level,
            ).push(level(last)));
        }
    }
}

/// Rendering without a timeline does the same for the whole buffer.
pub proof fn a_live_render_plays_every_voice<T: Copy + Default + Add<Output = T>>(
    engine: &mut live::Engine<T>,
    out: &mut [Frame<T>],
    zero: T,
    plus: spec_fn(T, T) -> T,
)
    requires
        call_ensures(live::Engine::<T>::render, (engine, out), ()),
        adds_like(zero, plus),
        stored_len(old(engine).sample().frames) <= usize::MAX,
    ensures
        final(out)@.len() == old(out)@.len(),
        forall|i: int, side: int|
            0 <= i < old(out)@.len() && 0 <= side < 2 ==> (#[trigger] final(out)@[i]@[side])
                == heard(
                old(engine).pool(),
                old(engine).sample().frames,
                side,
                i as nat,
                zero,
                plus,
            ),
        final(engine).pool().len() == old(engine).pool().len(),
        forall|i: int|
            0 <= i < old(engine).pool().len() ==> moved_on(
                old(engine).pool()[i],
                #[trigger] final(engine).pool()[i],
                old(out)@.len(),
                stored_len(old(engine).sample().frames),
            ),
        final(engine).sample() == old(engine).sample(),
        final(engine).taken() == old(engine).taken(),
{
    assert forall|i: int, side: int| 0 <= i < old(out)@.len() && 0 <= side < 2 implies (
    #[trigger] final(out)@[i]@[side]) == heard(
        old(engine).pool(),
        old(engine).sample().frames,
        side,
        i as nat,
        zero,
        plus,
    ) by {
        assert(is_mix(
            pool_after(
                old(engine).pool(),
                (i - 0) as nat,
                old(engine).sample().frames.count(),
            ),
            old(engine).sample().frames,
            final(out)@[i],
        ));
        lemma_span_is_heard(
            old(engine).pool(),
            old(engine).sample().frames,
            final(out)@[i],
            side,
            i as nat,
            zero,
            plus,
        );
    }
}

} // verus!
