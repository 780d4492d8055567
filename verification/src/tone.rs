//! A test tone: a wave of a fixed length with a short ramp at either end.
//!
//! A tone that starts or stops at full level clicks. Ramping the gain up at the start and down
//! at the end leaves no discontinuity in the waveform, and so no click.
//!
//! The wave is generated on the fly from a phase that a tone carries along, with no tables and
//! no allocation. What a phase is, how it moves on and how it sounds is the host's.
use vstd::arithmetic::div_mod::{
    lemma_div_is_ordered, lemma_div_multiples_vanish_fancy, lemma_div_pos_is_pos,
    lemma_fundamental_div_mod_converse, lemma_multiply_divide_lt,
};
use vstd::arithmetic::mul::lemma_mul_is_commutative;
use vstd::prelude::*;

verus! {

/// A gain between nothing and full.
#[derive(Clone, Copy, Debug, PartialEq, Eq, Structural)]
pub enum Gain {
    /// Past the end.
    Silence,
    /// `num / den` of full level.
    Ratio {
        num: u64,
        den: u64,
    },
    /// Full level.
    Full,
}

/// The gain at sample `n` of a tone of `total` samples that fades over `fade` at either end.
pub open spec fn gain(n: u64, total: u64, fade: u64) -> Gain {
    if n < fade {
        Gain::Ratio { num: n, den: fade }
    } else if n >= total {
        Gain::Silence
    } else if n >= total - fade {
        Gain::Ratio { num: (total - n) as u64, den: fade }
    } else {
        Gain::Full
    }
}

/// The gain at sample `n` of a tone of `total` samples that fades over `fade` at either end.
pub fn gain_at(n: u64, total: u64, fade: u64) -> (r: Gain)
    ensures
        r == gain(n, total, fade),
{
    if n < fade {
        Gain::Ratio { num: n, den: fade }
    } else if n >= total {
        Gain::Silence
    } else if n >= total - fade {
        Gain::Ratio { num: total - n, den: fade }
    } else {
        Gain::Full
    }
}

/// A tone being played.
pub struct Tone<P> {
    /// Where in its cycle the wave is.
    pub phase: P,
    /// Samples played so far.
    pub played: u64,
    /// Samples there are.
    pub total: u64,
    /// Samples in each ramp.
    pub fade: u64,
}

impl<P> Tone<P> {
    /// The gain of the sample that comes next.
    pub open spec fn gain(self) -> Gain {
        gain(self.played, self.total, self.fade)
    }
}

/// A tone that was `before` is `after` once it has given `level`.
pub open spec fn is_next<P, S, V: Fn(P, Gain) -> S, A: Fn(P) -> P>(
    before: Tone<P>,
    after: Tone<P>,
    voice: V,
    advance: A,
    level: S,
) -> bool {
    &&& call_ensures(voice, (before.phase, before.gain()), level)
    &&& call_ensures(advance, (before.phase,), after.phase)
    &&& after.played == before.played + 1
    &&& after.total == before.total
    &&& after.fade == before.fade
}

/// A tone that was `before` is `after` once it has given `levels`, one after another.
pub open spec fn gives<P, S, V: Fn(P, Gain) -> S, A: Fn(P) -> P>(
    before: Tone<P>,
    after: Tone<P>,
    voice: V,
    advance: A,
    levels: Seq<S>,
) -> bool
    decreases levels.len(),
{
    if levels.len() == 0 {
        after == before
    } else {
        exists|mid: Tone<P>|
            gives(before, mid, voice, advance, levels.drop_last()) && #[trigger] is_next(
                mid,
                after,
                voice,
                advance,
                levels.last(),
            )
    }
}

impl<P: Copy> Tone<P> {
    /// The next sample of the tone: what `voice` makes of the phase and the gain. The phase moves
    /// on by `advance`.
    pub fn next_sample<S, V: Fn(P, Gain) -> S, A: Fn(P) -> P>(
        &mut self,
        voice: &V,
        advance: &A,
    ) -> (level: S)
        requires
            old(self).played < u64::MAX,
            forall|phase: P, gain: Gain| call_requires(*voice, (phase, gain)),
            forall|phase: P| call_requires(*advance, (phase,)),
        ensures
            is_next(*old(self), *final(self), *voice, *advance, level),
    {
        let gain = gain_at(self.played, self.total, self.fade);
        let level = voice(self.phase, gain);
        self.phase = advance(self.phase);
        self.played = self.played + 1;
        level
    }
}

/// How many device frames of `channels` samples an output of `len` samples holds, the last of
/// them possibly cut short.
pub open spec fn frame_count(len: nat, channels: nat) -> nat
    recommends
        channels > 0,
{
    (len + channels - 1) as nat / channels
}

/// `samples` are what `convert` made of `levels`, one for one.
pub open spec fn are_converted<S, D, C: Fn(S) -> D>(
    levels: Seq<S>,
    convert: C,
    samples: Seq<D>,
) -> bool {
    &&& samples.len() == levels.len()
    &&& forall|k: int|
        0 <= k < samples.len() ==> call_ensures(convert, (levels[k],), #[trigger] samples[k])
}

/// Every channel of every device frame in `output` carries the sample for that frame.
pub open spec fn fills_frames<D>(samples: Seq<D>, channels: int, output: Seq<D>) -> bool {
    forall|i: int| 0 <= i < output.len() ==> #[trigger] output[i] == samples[i / channels]
}

/// The audio callback of a tone: walk `output` frame by frame, the same sample into every
/// channel.
pub fn fill_tone<P: Copy, S, D: Copy, V: Fn(P, Gain) -> S, A: Fn(P) -> P, C: Fn(S) -> D>(
    tone: &mut Tone<P>,
    output: &mut [D],
    channels: u16,
    voice: &V,
    advance: &A,
    convert: &C,
)
    requires
        channels >= 1,
        old(tone).played + frame_count(old(output)@.len(), channels as nat) <= u64::MAX,
        forall|phase: P, gain: Gain| call_requires(*voice, (phase, gain)),
        forall|phase: P| call_requires(*advance, (phase,)),
        forall|level: S| call_requires(*convert, (level,)),
    ensures
        final(output)@.len() == old(output)@.len(),
        exists|levels: Seq<S>, samples: Seq<D>|
            {
                &&& levels.len() == frame_count(old(output)@.len(), channels as nat)
                &&& #[trigger] gives(*old(tone), *final(tone), *voice, *advance, levels)
                &&& #[trigger] are_converted(levels, *convert, samples)
                &&& fills_frames(samples, channels as int, final(output)@)
            },
{
    let stride: usize = channels as usize;
    let total: usize = output.len();
    let ghost tone0 = *tone;
    let ghost frames = frame_count(total as nat, channels as nat);
    let ghost mut levels: Seq<S> = Seq::empty();
    let ghost mut samples: Seq<D> = Seq::empty();
    let mut start: usize = 0;
    proof {
        lemma_frame_count(0, 0, total as nat, channels as nat);
    }
    while start < total
        invariant
            stride == channels,
            stride >= 1,
            total == output@.len(),
            start <= total,
            start < total ==> start == levels.len() * stride,
            start == total ==> levels.len() == frames,
            frames == frame_count(total as nat, channels as nat),
            tone0.played + frames <= u64::MAX,
            tone.played == tone0.played + levels.len(),
            forall|phase: P, gain: Gain| call_requires(*voice, (phase, gain)),
            forall|phase: P| call_requires(*advance, (phase,)),
            forall|level: S| call_requires(*convert, (level,)),
            gives(tone0, *tone, *voice, *advance, levels),
            are_converted(levels, *convert, samples),
            forall|i: int| 0 <= i < start ==> #[trigger] output@[i] == samples[i / channels as int],
        decreases total - start,
    {
        let left: usize = total - start;
        let n: usize = if left < stride {
            left
        } else {
            stride
        };
        let ghost done = levels.len();
        proof {
            lemma_frame_count(done, start as nat, total as nat, channels as nat);
        }
        let ghost mid = *tone;
        let level = tone.next_sample(voice, advance);
        let ghost given = level;
        let sample = convert(level);
        proof {
            let longer = levels.push(given);
            assert(longer.drop_last() =~= levels);
            assert(is_next(mid, *tone, *voice, *advance, longer.last()));
            levels = longer;
            let shown = samples.push(sample);
            lemma_mul_is_commutative(done as int, stride as int);
            assert forall|i: int| 0 <= i < start implies #[trigger] output@[i] == shown[i
                / channels as int] by {
                lemma_multiply_divide_lt(i, stride as int, done as int);
                lemma_div_pos_is_pos(i, stride as int);
            }
            samples = shown;
        }
        let mut c: usize = 0;
        while c < n
            invariant
                0 <= c <= n,
                n <= stride,
                stride == channels,
                start + n <= total,
                total == output@.len(),
                start == done * stride,
                samples.len() == done + 1,
                samples[done as int] == sample,
                forall|i: int|
                    0 <= i < start + c ==> #[trigger] output@[i] == samples[i / channels as int],
            decreases n - c,
        {
            output[start + c] = sample;
            proof {
                lemma_fundamental_div_mod_converse(
                    start + c,
                    stride as int,
                    done as int,
                    c as int,
                );
            }
            c = c + 1;
        }
        proof {
            assert((done + 1) * stride == done * stride + stride) by (nonlinear_arith);
        }
        start = start + n;
    }
}

/// How far whole frames have come tells how many are left.
proof fn lemma_frame_count(done: nat, start: nat, total: nat, channels: nat)
    requires
        channels > 0,
        start == done * channels,
        start <= total,
    ensures
        start == total ==> frame_count(total, channels) == done,
        start < total ==> frame_count(total, channels) >= done + 1,
        start < total <= start + channels ==> frame_count(total, channels) == done + 1,
{
    let c = channels as int;
    let padded = total + channels - 1;
    if start == total {
        lemma_fundamental_div_mod_converse(padded, c, done as int, c - 1);
    } else if total <= start + channels {
        assert((done + 1) * c == done * c + c) by (nonlinear_arith);
        lemma_fundamental_div_mod_converse(padded, c, (done + 1) as int, total - start - 1);
    } else {
        assert((done + 1) * c == done * c + c) by (nonlinear_arith);
        lemma_div_multiples_vanish_fancy((done + 1) as int, 0, c);
        lemma_div_is_ordered((done + 1) * c, padded, c);
        lemma_mul_is_commutative((done + 1) as int, c);
    }
}

} // verus!
