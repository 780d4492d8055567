# beat-forge

An audio engine for a DAW, written in Rust and verified with [Verus](https://github.com/verus-lang/verus).

Sample playback with polyphony: overlapping hits mix on a stereo bus, and an event can be scheduled
to land on an exact frame rather than at the start of whatever buffer the device happened to ask
for.

## Layout

- `src/` — the engine, verified: the voice pool and the mix, the timeline and the engine that renders
  it, the command queue, WAV loading, resampling, the mapping onto an output device, and the laws that
  tie them together (`src/laws/`).
- `app/` — a thin host: opens the audio device, builds the output stream, reads the keyboard, and holds
  the floating-point arithmetic that the library is handed.
- `tests/` — the library on 32-bit float levels.

## The design, in one paragraph

Everything is organized around separating the real-time audio thread from everything else. The two
sides talk only through lock-free single-producer queues, never mutexes: inside the audio callback
there is no allocation, no locking, no I/O and no printing. State the engine needs is preallocated
when it is built. Timing is counted in frames rather than read from an OS clock, so the beat cannot
drift.

## What is proved

The reference is `src/timeline.rs`: at every frame the events due there each start a voice, then the
pool is heard, then every voice moves on by one frame. The engine renders in blocks, and inside a block
in spans between events; its contract says that what comes out is what the timeline says is heard.

Levels are a type parameter. A contract names the additions and multiplications behind a result and
their order, and says nothing about rounding, so it holds of floats as it does of any other level type.

What is not proved is named where it stands: the `rtrb` queue (`src/queue.rs`) and the `hound` decoder
(`src/wav.rs`) are taken at their word for what the comments there say.

## Use

    beat-forge path/to/file.wav   # load and trigger a WAV
    beat-forge                    # play the built-in synthesized blip
    BEAT_FORGE_TONE=1 beat-forge  # play a 440 Hz tone and exit

While it runs: Enter fires the sample, `q` then Enter quits.

A file at a sample rate other than the device's is converted once, on load. Files with more than two
channels keep their first two.
