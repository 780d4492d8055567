//! What travels back from the audio thread, and what the operator types.
//!
//! A stream may report a failure from the audio thread, where printing would take a lock and
//! allocate. So what happened travels to the control thread as a plain integer; only the
//! distinctions the operator can act on are kept, and the message text is dropped.
use std::sync::atomic::{AtomicU32, Ordering};
use vstd::prelude::*;

verus! {

/// Nothing happened.
pub const ERR_NONE: u32 = 0;

pub const ERR_DEVICE_LOST: u32 = 1;

pub const ERR_STREAM_INVALIDATED: u32 = 2;

pub const ERR_DEVICE_CHANGED: u32 = 3;

pub const ERR_XRUN: u32 = 4;

pub const ERR_OTHER: u32 = 5;

/// The ways a stream can fail, as far as they are told apart.
#[derive(Clone, Copy, Debug, PartialEq, Eq, Structural)]
pub enum Fault {
    DeviceNotAvailable,
    HostUnavailable,
    StreamInvalidated,
    DeviceChanged,
    Xrun,
    Other,
}

/// What a line of input asks for.
#[derive(Clone, Copy, Debug, PartialEq, Eq, Structural)]
pub enum Request {
    Quit,
    Fire,
}

/// The code a fault travels as.
pub open spec fn code_of(fault: Fault) -> u32 {
    match fault {
        Fault::DeviceNotAvailable => ERR_DEVICE_LOST,
        Fault::HostUnavailable => ERR_DEVICE_LOST,
        Fault::StreamInvalidated => ERR_STREAM_INVALIDATED,
        Fault::DeviceChanged => ERR_DEVICE_CHANGED,
        Fault::Xrun => ERR_XRUN,
        Fault::Other => ERR_OTHER,
    }
}

/// The code a fault travels as.
pub fn fault_code(fault: Fault) -> (code: u32)
    ensures
        code == code_of(fault),
{
    match fault {
        Fault::DeviceNotAvailable | Fault::HostUnavailable => ERR_DEVICE_LOST,
        Fault::StreamInvalidated => ERR_STREAM_INVALIDATED,
        Fault::DeviceChanged => ERR_DEVICE_CHANGED,
        Fault::Xrun => ERR_XRUN,
        Fault::Other => ERR_OTHER,
    }
}

/// What the operator is told about a code: nothing if nothing happened.
pub open spec fn message_of(code: u32) -> Option<Seq<char>> {
    if code == ERR_NONE {
        None
    } else if code == ERR_DEVICE_LOST {
        Some("output device went away — audio has stopped"@)
    } else if code == ERR_STREAM_INVALIDATED {
        Some("stream config is no longer valid — restart to recover"@)
    } else if code == ERR_DEVICE_CHANGED {
        Some("audio route changed; the stream was rerouted and kept playing"@)
    } else if code == ERR_XRUN {
        Some("buffer under/overrun — audio glitched"@)
    } else {
        Some("the audio stream failed"@)
    }
}

/// What the operator is told about a code: nothing if nothing happened.
pub fn stream_message(code: u32) -> (message: Option<&'static str>)
    ensures
        match message {
            Some(text) => message_of(code) == Some(text@),
            None => message_of(code) is None,
        },
{
    if code == ERR_NONE {
        None
    } else if code == ERR_DEVICE_LOST {
        Some("output device went away — audio has stopped")
    } else if code == ERR_STREAM_INVALIDATED {
        Some("stream config is no longer valid — restart to recover")
    } else if code == ERR_DEVICE_CHANGED {
        Some("audio route changed; the stream was rerouted and kept playing")
    } else if code == ERR_XRUN {
        Some("buffer under/overrun — audio glitched")
    } else {
        Some("the audio stream failed")
    }
}

/// Take whatever the audio thread reported, and leave behind that nothing happened. The text is for
/// the operator; there is none if there was nothing to report.
///
/// What is taken is up to the audio thread: it is the code that stood there last.
pub fn report_stream_error(errors: &AtomicU32) -> (message: Option<&'static str>)
    ensures
        exists|code: u32|
            {
                &&& #[trigger] call_ensures(
                    AtomicU32::swap,
                    (errors, ERR_NONE, Ordering::Relaxed),
                    code,
                )
                &&& match message {
                    Some(text) => message_of(code) == Some(text@),
                    None => message_of(code) is None,
                }
            },
{
    let code: u32 = errors.swap(ERR_NONE, Ordering::Relaxed);
    stream_message(code)
}

/// A line that ends the session: `q` or `quit`.
pub open spec fn is_quit(line: Seq<u8>) -> bool {
    line == seq![0x71u8] || line == seq![0x71u8, 0x75u8, 0x69u8, 0x74u8]
}

/// What a line of input, without the space around it, asks for: anything but a word for quitting
/// fires the sample.
pub fn request(line: &[u8]) -> (r: Request)
    ensures
        r is Quit <==> is_quit(line@),
{
    let n: usize = line.len();
    if n == 1 && line[0] == 0x71 {
        assert(line@ =~= seq![0x71u8]);
        Request::Quit
    } else if n == 4 && line[0] == 0x71 && line[1] == 0x75 && line[2] == 0x69 && line[3] == 0x74 {
        assert(line@ =~= seq![0x71u8, 0x75u8, 0x69u8, 0x74u8]);
        Request::Quit
    } else {
        Request::Fire
    }
}

} // verus!
