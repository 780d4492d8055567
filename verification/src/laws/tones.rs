//! How a test tone goes on from sample to sample, said of the calls themselves.
use vstd::arithmetic::div_mod::{
    lemma_div_pos_is_pos, lemma_fundamental_div_mod, lemma_mod_bound, lemma_multiply_divide_lt,
};
use vstd::arithmetic::mul::lemma_mul_is_commutative;
use vstd::prelude::*;

use crate::tone::{fill_tone, gain_at, Gain, Tone};
#[allow(unused_imports)]
use crate::tone::{are_converted, fills_frames, frame_count, gain, gives, is_next};

verus! {

/// The gain at any sample: as far up the first ramp as samples have gone by, then as far up the second
/// as samples are left, full between the two and silence past the end. A sample that is in both ramps
/// is in the first.
pub proof fn the_gain_follows_the_ramps(n: u64, total: u64, fade: u64, g: Gain)
    requires
        call_ensures(gain_at, (n, total, fade), g),
    ensures
        n < fade ==> g == (Gain::Ratio { num: n, den: fade }),
        fade <= n < total && total - n <= fade ==> g == (Gain::Ratio {
            num: (total - n) as u64,
            den: fade,
        }),
        fade <= n && total - n > fade ==> g == Gain::Full,
        n >= fade && n >= total ==> g == Gain::Silence,
{
}

/// One sample is voiced at the phase the tone stands at and at the gain of the place it has come to,
/// and moves the tone on by one step of its phase and one place. Its length and its ramps stay.
pub proof fn a_sample_moves_a_tone_on<P: Copy, S, V: Fn(P, Gain) -> S, A: Fn(P) -> P>(
    tone: &mut Tone<P>,
    voice: &V,
    advance: &A,
    level: S,
)
    requires
        call_ensures(Tone::<P>::next_sample::<S, V, A>, (tone, voice, advance), level),
    ensures
        call_ensures(*advance, (old(tone).phase,), final(tone).phase),
        final(tone).played == old(tone).played + 1,
        final(tone).total == old(tone).total,
        final(tone).fade == old(tone).fade,
        old(tone).played < old(tone).fade ==> call_ensures(
            *voice,
            (
                old(tone).phase,
                (Gain::Ratio { num: old(tone).played, den: old(tone).fade }),
            ),
            level,
        ),
        old(tone).fade <= old(tone).played < old(tone).total && old(tone).total - old(tone).played
            <= old(tone).fade ==> call_ensures(
            *voice,
            (
                old(tone).phase,
                (Gain::Ratio {
                    num: (old(tone).total - old(tone).played) as u64,
                    den: old(tone).fade,
                }),
            ),
            level,
        ),
        old(tone).fade <= old(tone).played && old(tone).total - old(tone).played > old(tone).fade
            ==> call_ensures(*voice, (old(tone).phase, Gain::Full), level),
        old(tone).played >= old(tone).fade && old(tone).played >= old(tone).total ==> call_ensures(
            *voice,
            (old(tone).phase, Gain::Silence),
            level,
        ),
{
}

/// The phase that `k` steps lead to from `phase`.
pub open spec fn onward<P>(phase: P, step: spec_fn(P) -> P, k: nat) -> P
    decreases k,
{
    if k == 0 {
        phase
    } else {
        step(onward(phase, step, (k - 1) as nat))
    }
}

/// `level` is voiced at `phase` and at the gain of place `n`, and the tone steps from there to `next`.
pub open spec fn is_step<P, S, V: Fn(P, Gain) -> S, A: Fn(P) -> P>(
    n: int,
    total: u64,
    fade: u64,
    voice: V,
    advance: A,
    level: S,
    phase: P,
    next: P,
) -> bool {
    &&& call_ensures(advance, (phase,), next)
    &&& n < fade ==> call_ensures(
        voice,
        (phase, (Gain::Ratio { num: n as u64, den: fade })),
        level,
    )
    &&& fade <= n < total && total - n <= fade ==> call_ensures(
        voice,
        (phase, (Gain::Ratio { num: (total - n) as u64, den: fade })),
        level,
    )
    &&& fade <= n && total - n > fade ==> call_ensures(voice, (phase, Gain::Full), level)
    &&& n >= fade && n >= total ==> call_ensures(voice, (phase, Gain::Silence), level)
}

/// `phases` are those a tone goes through as it gives `levels`: each is one step of `advance` past the
/// one before, and every level is voiced at its own.
pub open spec fn goes_through<P, S, V: Fn(P, Gain) -> S, A: Fn(P) -> P>(
    before: Tone<P>,
    after: Tone<P>,
    voice: V,
    advance: A,
    levels: Seq<S>,
    phases: Seq<P>,
) -> bool {
    &&& phases.len() == levels.len() + 1
    &&& phases[0] == before.phase
    &&& phases[levels.len() as int] == after.phase
    &&& after.played == before.played + levels.len()
    &&& after.total == before.total
    &&& after.fade == before.fade
    &&& forall|k: int|
        0 <= k < levels.len() ==> is_step(
            before.played + k,
            before.total,
            before.fade,
            voice,
            advance,
            #[trigger] levels[k],
            phases[k],
            phases[k + 1],
        )
}

/// A tone goes through its phases one step at a time, for tones of any length and any ramp.
pub proof fn a_tone_goes_through_its_phases<P, S, V: Fn(P, Gain) -> S, A: Fn(P) -> P>(
    before: Tone<P>,
    after: Tone<P>,
    voice: V,
    advance: A,
    levels: Seq<S>,
)
    requires
        gives(before, after, voice, advance, levels),
    ensures
        exists|phases: Seq<P>| #[trigger]
            goes_through(before, after, voice, advance, levels, phases),
    decreases levels.len(),
{
    if levels.len() == 0 {
        assert(goes_through(before, after, voice, advance, levels, seq![before.phase]));
    } else {
        let shorter = levels.drop_last();
        let mid = choose|mid: Tone<P>|
            gives(before, mid, voice, advance, shorter) && #[trigger] is_next(
                mid,
                after,
                voice,
                advance,
                levels.last(),
            );
        a_tone_goes_through_its_phases(before, mid, voice, advance, shorter);
        let phases = choose|phases: Seq<P>| #[trigger]
            goes_through(before, mid, voice, advance, shorter, phases);
        let longer = phases.push(after.phase);
        assert forall|k: int| 0 <= k < levels.len() implies is_step(
            before.played + k,
            before.total,
            before.fade,
            voice,
            advance,
            #[trigger] levels[k],
            longer[k],
            longer[k + 1],
        ) by {
            if k < levels.len() - 1 {
                assert(shorter[k] == levels[k]);
            }
        }
        assert(goes_through(before, after, voice, advance, levels, longer));
    }
}

/// The sample a tone gives at place `k` is voiced at the phase that `k` steps lead to from the one it
/// began with, and after all its samples the tone stands at the phase that as many steps lead to: for
/// tones of any length and any ramp, where `advance` moves a phase on by `step`.
pub proof fn a_tone_is_voiced_at_the_phase_it_has_come_to<
    P,
    S,
    V: Fn(P, Gain) -> S,
    A: Fn(P) -> P,
>(
    before: Tone<P>,
    after: Tone<P>,
    voice: V,
    advance: A,
    levels: Seq<S>,
    step: spec_fn(P) -> P,
    k: int,
)
    requires
        gives(before, after, voice, advance, levels),
        forall|p: P, q: P| #[trigger] call_ensures(advance, (p,), q) ==> q == step(p),
    ensures
        after.phase == onward(before.phase, step, levels.len()),
        0 <= k < levels.len() ==> exists|g: Gain| #[trigger]
            call_ensures(voice, (onward(before.phase, step, k as nat), g), levels[k]),
{
    a_tone_goes_through_its_phases(before, after, voice, advance, levels);
    let phases = choose|phases: Seq<P>| #[trigger]
        goes_through(before, after, voice, advance, levels, phases);
    lemma_phases(before, after, voice, advance, levels, phases, step, levels.len());
    if 0 <= k < levels.len() {
        lemma_phases(before, after, voice, advance, levels, phases, step, k as nat);
        let level = levels[k];
    }
}

proof fn lemma_phases<P, S, V: Fn(P, Gain) -> S, A: Fn(P) -> P>(
    before: Tone<P>,
    after: Tone<P>,
    voice: V,
    advance: A,
    levels: Seq<S>,
    phases: Seq<P>,
    step: spec_fn(P) -> P,
    k: nat,
)
    requires
        goes_through(before, after, voice, advance, levels, phases),
        forall|p: P, q: P| #[trigger] call_ensures(advance, (p,), q) ==> q == step(p),
        k <= levels.len(),
    ensures
        phases[k as int] == onward(before.phase, step, k),
    decreases k,
{
    if k > 0 {
        lemma_phases(before, after, voice, advance, levels, phases, step, (k - 1) as nat);
        let level = levels[k - 1];
    }
}

/// The callback of a tone shows its levels one to a frame, the same sample on every channel of it: as
/// many levels as there are frames, counting one that is cut short.
pub proof fn a_tone_fills_one_frame_after_another<
    P: Copy,
    S,
    D: Copy,
    V: Fn(P, Gain) -> S,
    A: Fn(P) -> P,
    C: Fn(S) -> D,
>(
    tone: &mut Tone<P>,
    output: &mut [D],
    channels: u16,
    voice: &V,
    advance: &A,
    convert: &C,
)
    requires
        call_ensures(
            fill_tone::<P, S, D, V, A, C>,
            (tone, output, channels, voice, advance, convert),
            (),
        ),
        channels >= 1,
    ensures
        final(output)@.len() == old(output)@.len(),
        exists|levels: Seq<S>, phases: Seq<P>|
            {
                &&& #[trigger] goes_through(
                    *old(tone),
                    *final(tone),
                    *voice,
                    *advance,
                    levels,
                    phases,
                )
                &&& (levels.len() - 1) * channels < old(output)@.len() <= levels.len() * channels
                    || levels.len() == 0 && old(output)@.len() == 0
                &&& forall|i: int|
                    0 <= i < final(output)@.len() ==> call_ensures(
                        *convert,
                        (levels[i / channels as int],),
                        #[trigger] final(output)@[i],
                    )
                &&& forall|i: int, j: int|
                    0 <= i < final(output)@.len() && 0 <= j < final(output)@.len() && i
                        / channels as int == j / channels as int ==> #[trigger] final(output)@[i]
                        == #[trigger] final(output)@[j]
            },
{
    let len = old(output)@.len();
    let stride = channels as int;
    let (levels, samples) = choose|levels: Seq<S>, samples: Seq<D>|
        {
            &&& levels.len() == frame_count(len, channels as nat)
            &&& #[trigger] gives(*old(tone), *final(tone), *voice, *advance, levels)
            &&& #[trigger] are_converted(levels, *convert, samples)
            &&& fills_frames(samples, channels as int, final(output)@)
        };
    a_tone_goes_through_its_phases(*old(tone), *final(tone), *voice, *advance, levels);
    let padded = len + stride - 1;
    let n = levels.len() as int;
    lemma_fundamental_div_mod(padded, stride);
    lemma_mod_bound(padded, stride);
    lemma_mul_is_commutative(n, stride);
    assert((n - 1) * stride == n * stride - stride) by (nonlinear_arith);
    if n == 0 {
        assert(n * stride == 0) by (nonlinear_arith)
            requires
                n == 0,
        ;
    }
    assert forall|i: int| 0 <= i < len implies call_ensures(
        *convert,
        (levels[i / stride],),
        #[trigger] final(output)@[i],
    ) by {
        lemma_div_pos_is_pos(i, stride);
        lemma_multiply_divide_lt(i, stride, n);
    }
}

/// Sample `i` of a tone's output is voiced at the phase that `i / channels` steps lead to from the one
/// the tone stood at, and the callback leaves the tone at the phase that one step per frame leads to.
pub proof fn a_tone_callback_steps_once_a_frame<
    P: Copy,
    S,
    D: Copy,
    V: Fn(P, Gain) -> S,
    A: Fn(P) -> P,
    C: Fn(S) -> D,
>(
    tone: &mut Tone<P>,
    output: &mut [D],
    channels: u16,
    voice: &V,
    advance: &A,
    convert: &C,
    step: spec_fn(P) -> P,
)
    requires
        call_ensures(
            fill_tone::<P, S, D, V, A, C>,
            (tone, output, channels, voice, advance, convert),
            (),
        ),
        channels >= 1,
        forall|p: P, q: P| #[trigger] call_ensures(*advance, (p,), q) ==> q == step(p),
    ensures
        final(tone).phase == onward(
            old(tone).phase,
            step,
            (final(tone).played - old(tone).played) as nat,
        ),
        (final(tone).played - old(tone).played) * channels >= old(output)@.len(),
        old(output)@.len() > 0 ==> (final(tone).played - old(tone).played - 1) * channels < old(
            output
        )@.len(),
        forall|i: int|
            0 <= i < final(output)@.len() ==> is_shown_at(
                onward(old(tone).phase, step, (i / channels as int) as nat),
                *voice,
                *convert,
                #[trigger] final(output)@[i],
            ),
{
    a_tone_fills_one_frame_after_another::<P, S, D, V, A, C>(
        tone,
        output,
        channels,
        voice,
        advance,
        convert,
    );
    let stride = channels as int;
    let (levels, phases) = choose|levels: Seq<S>, phases: Seq<P>|
        {
            &&& #[trigger] goes_through(*old(tone), *final(tone), *voice, *advance, levels, phases)
            &&& (levels.len() - 1) * channels < old(output)@.len() <= levels.len() * channels
                || levels.len() == 0 && old(output)@.len() == 0
            &&& forall|i: int|
                0 <= i < final(output)@.len() ==> call_ensures(
                    *convert,
                    (levels[i / stride],),
                    #[trigger] final(output)@[i],
                )
        };
    lemma_phases(
        *old(tone),
        *final(tone),
        *voice,
        *advance,
        levels,
        phases,
        step,
        levels.len(),
    );
    if levels.len() == 0 {
        assert(levels.len() * stride == 0) by (nonlinear_arith)
            requires
                levels.len() == 0,
        ;
    }
    assert forall|i: int| 0 <= i < final(output)@.len() implies is_shown_at(
        onward(old(tone).phase, step, (i / stride) as nat),
        *voice,
        *convert,
        #[trigger] final(output)@[i],
    ) by {
        let k = i / stride;
        lemma_div_pos_is_pos(i, stride);
        lemma_mul_is_commutative(levels.len() as int, stride);
        lemma_multiply_divide_lt(i, stride, levels.len() as int);
        lemma_phases(*old(tone), *final(tone), *voice, *advance, levels, phases, step, k as nat);
        assert(is_step(
            old(tone).played + k,
            old(tone).total,
            old(tone).fade,
            *voice,
            *advance,
            levels[k],
            phases[k],
            phases[k + 1],
        ));
        let g = gain((old(tone).played + k) as u64, old(tone).total, old(tone).fade);
        assert(call_ensures(*voice, (phases[k], g), levels[k]));
    }
}

/// `sample` shows a level that was voiced at `phase`.
pub open spec fn is_shown_at<P, S, D, V: Fn(P, Gain) -> S, C: Fn(S) -> D>(
    phase: P,
    voice: V,
    convert: C,
    sample: D,
) -> bool {
    exists|g: Gain, level: S| #[trigger]
        call_ensures(voice, (phase, g), level) && call_ensures(convert, (level,), sample)
}

} // verus!
