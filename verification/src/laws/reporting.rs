//! What the operator is told and what they ask for, said of the calls themselves.
use std::sync::atomic::{AtomicU32, Ordering};
use vstd::prelude::*;

use crate::stream::{fault_code, report_stream_error, request, stream_message, Fault, Request};

verus! {

/// Faults that call for the same from the operator travel as the same code, all others as codes of
/// their own, and none as the one for nothing.
pub proof fn faults_are_told_apart(one: Fault, two: Fault, first: u32, second: u32)
    requires
        call_ensures(fault_code, (one,), first),
        call_ensures(fault_code, (two,), second),
    ensures
        first != 0,
        one is DeviceNotAvailable || one is HostUnavailable ==> first == 1,
        one is StreamInvalidated ==> first == 2,
        one is DeviceChanged ==> first == 3,
        one is Xrun ==> first == 4,
        one is Other ==> first == 5,
        first == second <==> one == two || (one is DeviceNotAvailable && two is HostUnavailable) || (
        one is HostUnavailable && two is DeviceNotAvailable),
{
}

/// Nothing is said of nothing, and of every other code what its fault is: that the device is gone, that
/// the stream has to be restarted, that it was rerouted, that it glitched, or just that it failed.
pub proof fn every_code_has_its_message(code: u32, message: Option<&'static str>)
    requires
        call_ensures(stream_message, (code,), message),
    ensures
        code == 0 <==> message is None,
        code == 1 ==> (message matches Some(text) && text@
            == "output device went away — audio has stopped"@),
        code == 2 ==> (message matches Some(text) && text@
            == "stream config is no longer valid — restart to recover"@),
        code == 3 ==> (message matches Some(text) && text@
            == "audio route changed; the stream was rerouted and kept playing"@),
        code == 4 ==> (message matches Some(text) && text@
            == "buffer under/overrun — audio glitched"@),
        code >= 5 ==> (message matches Some(text) && text@ == "the audio stream failed"@),
{
}

/// A report says what stood where the audio thread leaves its codes, and leaves nothing there.
pub proof fn a_report_takes_what_stood_there(errors: &AtomicU32, message: Option<&'static str>)
    requires
        call_ensures(report_stream_error, (errors,), message),
    ensures
        exists|code: u32|
            {
                &&& #[trigger] call_ensures(
                    AtomicU32::swap,
                    (errors, 0u32, Ordering::Relaxed),
                    code,
                )
                &&& code == 0 <==> message is None
                &&& code == 1 ==> (message matches Some(text) && text@
                    == "output device went away — audio has stopped"@)
                &&& code == 2 ==> (message matches Some(text) && text@
                    == "stream config is no longer valid — restart to recover"@)
                &&& code == 3 ==> (message matches Some(text) && text@
                    == "audio route changed; the stream was rerouted and kept playing"@)
                &&& code == 4 ==> (message matches Some(text) && text@
                    == "buffer under/overrun — audio glitched"@)
                &&& code >= 5 ==> (message matches Some(text) && text@
                    == "the audio stream failed"@)
            },
{
}

/// A line ends the session exactly if it is `q` or `quit`, letter for letter; any other fires.
pub proof fn only_a_word_for_quitting_quits(line: &[u8], r: Request)
    requires
        call_ensures(request, (line,), r),
    ensures
        r is Quit <==> (line@.len() == 1 && line@[0] == 113) || (line@.len() == 4 && line@[0] == 113
            && line@[1] == 117 && line@[2] == 105 && line@[3] == 116),
        r is Fire <==> !(r is Quit),
{
    if line@.len() == 1 && line@[0] == 113 {
        assert(line@ =~= seq![0x71u8]);
    }
    if line@.len() == 4 && line@[0] == 113 && line@[1] == 117 && line@[2] == 105 && line@[3]
        == 116 {
        assert(line@ =~= seq![0x71u8, 0x75u8, 0x69u8, 0x74u8]);
    }
}

} // verus!
