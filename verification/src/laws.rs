//! What holds of the crate as a whole.
//!
//! The contracts say what each call does. The proofs here say what that adds up to: a note lands
//! on its frame however the stream is cut into blocks, a full pool never drops a note, a block is
//! the sum of the notes under way, what was sent arrives in order. Nothing here runs.
//!
//! [`calling`], [`converting`], [`output`], [`reading`], [`reporting`], [`scheduling`], [`tones`] and
//! [`voicing`] speak of the calls themselves: given that a call was made and what came of it, they say
//! how that relates to what went in, in plain comparisons, sums and sequences.
pub mod arithmetic;
pub mod calling;
pub mod converting;
pub mod host;
pub mod loading;
pub mod material;
pub mod mixing;
pub mod notes;
pub mod output;
pub mod reading;
pub mod reporting;
pub mod scheduling;
pub mod timing;
pub mod tones;
pub mod voicing;
