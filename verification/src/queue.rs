//! The one way from the control thread into the engine: a lock-free single-producer queue.
//!
//! The queue itself is `rtrb`'s. The two ends run on different threads, so neither end can say
//! what the queue holds at a given moment; each can say what has passed through it so far. The
//! contracts below are written over those histories.
use vstd::prelude::*;

verus! {

/// Messages sent from the control thread to the real-time engine.
///
/// The two variants exist because live input and scheduled input want opposite things. A
/// keypress has no trustworthy timestamp: placing it on an exact frame would mean deferring it
/// into the future, buying accuracy with latency, which is the wrong trade for playing by hand.
/// A sequenced event does know its frame and must land on it.
#[derive(Clone, Copy, Debug, PartialEq, Eq, Structural)]
pub enum Command {
    /// Start at the beginning of whichever block the engine sees this in.
    Trigger,
    /// Start at this absolute engine frame.
    TriggerAt(u64),
}

/// The sending end of a queue, as `rtrb` implements it.
#[verifier::external_type_specification]
#[verifier::external_body]
#[verifier::reject_recursive_types(T)]
pub struct ExProducer<T>(rtrb::Producer<T>);

/// The receiving end of a queue, as `rtrb` implements it.
#[verifier::external_type_specification]
#[verifier::external_body]
#[verifier::reject_recursive_types(T)]
pub struct ExConsumer<T>(rtrb::Consumer<T>);

/// Every command this end has put into its queue so far, oldest first.
pub uninterp spec fn sent(tx: rtrb::Producer<Command>) -> Seq<Command>;

/// Every command this end has taken out of its queue so far, oldest first.
pub uninterp spec fn taken(rx: rtrb::Consumer<Command>) -> Seq<Command>;

/// What every attempt of this end to take a command has come back with so far, oldest first: the
/// command, or nothing where the queue was found empty.
pub uninterp spec fn attempts(rx: rtrb::Consumer<Command>) -> Seq<Option<Command>>;

/// How many commands the queue behind this end can hold at once.
pub uninterp spec fn capacity(tx: rtrb::Producer<Command>) -> nat;

/// How many of the commands sent the receiving end had taken out again, as far as this end had
/// noticed when it last sent.
pub uninterp spec fn freed(tx: rtrb::Producer<Command>) -> nat;

/// Every command that the queue behind this end carries over its whole life, oldest first.
pub uninterp spec fn carried_from(tx: rtrb::Producer<Command>) -> Seq<Command>;

/// Every command that the queue behind this end carries over its whole life, oldest first.
pub uninterp spec fn carried_to(rx: rtrb::Consumer<Command>) -> Seq<Command>;

/// The attempts of an end that had made those in `before`, once it has taken `commands` and then
/// found its queue empty: it stopped there and not earlier.
pub open spec fn drained(before: Seq<Option<Command>>, commands: Seq<Command>) -> Seq<
    Option<Command>,
> {
    (before + successes(commands)).push(None)
}

/// Attempts that came back with `commands`, one after another.
pub open spec fn successes(commands: Seq<Command>) -> Seq<Option<Command>> {
    commands.map_values(|command: Command| Some(command))
}

/// One more command taken is one more attempt that came back with it.
pub(crate) proof fn lemma_success_extends(
    before: Seq<Option<Command>>,
    commands: Seq<Command>,
    command: Command,
)
    ensures
        (before + successes(commands)).push(Some(command)) == before + successes(
            commands.push(command),
        ),
{
    assert((before + successes(commands)).push(Some(command)) =~= before + successes(
        commands.push(command),
    ));
}

/// Calls `rtrb::RingBuffer::new`, which allocates a queue for `slots` commands and returns its
/// two ends. Trusted: nothing has been sent, taken or asked for, the queue holds `slots` commands, and the
/// two ends belong to the same queue, so that what one carries the other carries. The bound
/// keeps the allocation, a few bytes per slot, inside what a `Vec` can be asked for.
#[verifier::external_body]
pub(crate) fn new_queue(slots: usize) -> (ends: (
    rtrb::Producer<Command>,
    rtrb::Consumer<Command>,
))
    requires
        slots <= 0x10000,
    ensures
        sent(ends.0) == Seq::<Command>::empty(),
        taken(ends.1) == Seq::<Command>::empty(),
        attempts(ends.1) == Seq::<Option<Command>>::empty(),
        freed(ends.0) == 0,
        capacity(ends.0) == slots,
        carried_from(ends.0) == carried_to(ends.1),
{
    rtrb::RingBuffer::new(slots)
}

/// Calls `rtrb::Producer::push`, which puts the command behind the last one sent, or hands it
/// back if the queue is full. Trusted: exactly that, where full means that `capacity` commands have
/// been sent and, as far as this end then notices, not taken out again. How much of the receiving
/// thread's progress it notices is left open, but for what it noticed before.
#[verifier::external_body]
pub(crate) fn push(tx: &mut rtrb::Producer<Command>, command: Command) -> (r: Result<(), Command>)
    ensures
        r is Ok ==> sent(*final(tx)) == sent(*old(tx)).push(command),
        r is Err ==> sent(*final(tx)) == sent(*old(tx)),
        r matches Err(back) ==> back == command,
        freed(*old(tx)) <= freed(*final(tx)),
        freed(*old(tx)) <= sent(*old(tx)).len() ==> freed(*final(tx)) <= sent(*old(tx)).len(),
        r is Ok <==> sent(*old(tx)).len() - freed(*final(tx)) < capacity(*old(tx)),
        capacity(*final(tx)) == capacity(*old(tx)),
        carried_from(*final(tx)) == carried_from(*old(tx)),
        r is Ok ==> sent(*final(tx)).is_prefix_of(carried_from(*final(tx))),
{
    tx.push(command).map_err(|rtrb::PushError::Full(back)| back)
}

/// Calls `rtrb::Consumer::pop`, which takes the oldest command out of the queue, if there is
/// one, and hands back nothing if the queue is empty. Trusted: what comes out is what was put in,
/// in the same order, each command once; what came back is this end's latest attempt; and over its
/// life a queue carries finitely many. Whether there is one depends on the sending thread, and is
/// left open.
#[verifier::external_body]
pub(crate) fn pop(rx: &mut rtrb::Consumer<Command>) -> (r: Option<Command>)
    ensures
        r matches Some(command) ==> taken(*final(rx)) == taken(*old(rx)).push(command),
        r is None ==> taken(*final(rx)) == taken(*old(rx)),
        attempts(*final(rx)) == attempts(*old(rx)).push(r),
        carried_to(*final(rx)) == carried_to(*old(rx)),
        r is Some ==> taken(*final(rx)).is_prefix_of(carried_to(*final(rx))),
{
    rx.pop().ok()
}

/// Calls `rtrb::Producer::slots`, which counts the free slots. Trusted: never more than there
/// are, and never fewer than this end knew of when it last sent. The exact number depends on how
/// far the receiving thread has come.
#[verifier::external_body]
pub(crate) fn free_slots(tx: &rtrb::Producer<Command>) -> (n: usize)
    ensures
        n <= capacity(*tx),
        n + sent(*tx).len() >= capacity(*tx) + freed(*tx),
{
    tx.slots()
}

} // verus!
