//! beat-forge audio engine core.
//!
//! UI-agnostic playback engine. The design splits into two sides:
//! - [`Engine`] runs inside the real-time audio callback and must never allocate, lock, or block.
//! - [`Trigger`] lives on the control thread and pushes commands to the engine over a lock-free
//!   single-producer/single-consumer queue.
//!
//! The internal bus is stereo: the engine always produces [`Frame`]s, whatever the source layout.
//! [`device`] maps that pair onto an output device.
//!
//! The crate is generic over the type of a level. Contracts say which additions and
//! multiplications make up a result, and in which order; what those come to is up to the level
//! type. Where only the host's own arithmetic will do, a function takes it as an argument.
//!
//! - [`voices`] is the pool and the mix, [`timeline`] says what is heard at every frame, and
//!   [`engine`](crate::engine) renders it block by block; [`live`] is a smaller engine without a
//!   timeline. [`queue`] is the way in.
//! - [`wav`], [`sample`] and [`resample`] get material into the engine.
//! - [`device`], [`stream`] and [`tone`] are the host's side of the callback.
//! - [`laws`] states what all of it adds up to.
pub mod device;
pub mod engine;
pub mod frames;
pub mod laws;
pub mod level;
pub mod live;
pub mod queue;
pub mod resample;
pub mod sample;
pub mod stream;
pub mod timeline;
pub mod tone;
pub mod voices;
pub mod wav;

pub use crate::engine::{engine, Engine, Trigger};
pub use crate::frames::{Frame, Frames};
pub use crate::sample::{LoadError, Sample};
pub use crate::wav::DecodeError;
