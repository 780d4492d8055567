//! In-memory layout of decoded audio.
use vstd::prelude::*;

verus! {

/// One stereo frame: `[left, right]`.
///
/// An array rather than a flat slice of levels, so a slice's length is a frame count with no
/// `len % 2 == 0` invariant to uphold.
pub type Frame<T> = [T; 2];

/// Decoded PCM, kept in its source channel layout.
///
/// Mono stays mono: drum one-shots are overwhelmingly mono, and widening them on load would
/// double the memory of the common case for nothing. An enum rather than a channel count, so
/// the compiler forces every consumer to handle both layouts.
pub enum Frames<T> {
    Mono(Vec<T>),
    Stereo(Vec<Frame<T>>),
}

impl<T> Frames<T> {
    /// Number of frames, independent of channel layout.
    pub open spec fn count(self) -> nat {
        match self {
            Frames::Mono(data) => data@.len(),
            Frames::Stereo(data) => data@.len(),
        }
    }

    /// What frame `pos` puts on channel `channel` of a stereo bus. A mono frame goes to both.
    pub open spec fn level(self, pos: int, channel: int) -> T
        recommends
            0 <= pos < self.count(),
            0 <= channel < 2,
    {
        match self {
            Frames::Mono(data) => data@[pos],
            Frames::Stereo(data) => data@[pos]@[channel],
        }
    }

    /// What the frames put on channel `channel` of a stereo bus, from first to last.
    pub open spec fn channel(self, channel: int) -> Seq<T> {
        Seq::new(self.count(), |pos: int| self.level(pos, channel))
    }

    /// Number of frames, independent of channel layout.
    pub fn len(&self) -> (n: usize)
        ensures
            n == self.count(),
    {
        match self {
            Frames::Mono(data) => data.len(),
            Frames::Stereo(data) => data.len(),
        }
    }

    /// Whether there are no frames at all.
    pub fn is_empty(&self) -> (empty: bool)
        ensures
            empty == (self.count() == 0),
    {
        self.len() == 0
    }

    /// The name of the layout, for display: the levels themselves are never worth printing.
    pub fn layout(&self) -> (name: &'static str)
        ensures
            name@ == (match self {
                Frames::Mono(_) => "Mono"@,
                Frames::Stereo(_) => "Stereo"@,
            }),
    {
        match self {
            Frames::Mono(_) => "Mono",
            Frames::Stereo(_) => "Stereo",
        }
    }
}

impl<T: Copy> Frames<T> {
    /// Frame `pos` as it sounds on a stereo bus.
    pub fn frame(&self, pos: usize) -> (frame: Frame<T>)
        requires
            pos < self.count(),
        ensures
            frame@[0] == self.level(pos as int, 0),
            frame@[1] == self.level(pos as int, 1),
    {
        match self {
            Frames::Mono(data) => [data[pos], data[pos]],
            Frames::Stereo(data) => data[pos],
        }
    }
}

} // verus!
