//! The bounded queue that carries finished packets from the tasks of the
//! connections to the batcher. A sender never waits for the receiver.

use crate::packet::PacketAccumulator;
use crossbeam_channel::Sender;
use crossbeam_channel::TrySendError;
use vstd::prelude::*;

verus! {

/// `crossbeam_channel::Sender`: the sending side of a queue.
#[verifier::external_type_specification]
#[verifier::external_body]
#[verifier::reject_recursive_types(T)]
pub struct ExSender<T>(Sender<T>);

/// How an attempt to hand something on has ended.
#[derive(Clone, Copy, Debug, PartialEq, Eq, Structural)]
pub enum SendOutcome {
    /// The queue has taken it.
    Sent,
    /// The queue was full: it was dropped.
    Full,
    /// Nobody receives from the queue any more: it was dropped.
    Disconnected,
}

/// `Sender::try_send`: hands the packet to the queue without waiting. What
/// comes back rests on the state of the queue, which other threads fill and
/// drain.
#[verifier::external_body]
pub(crate) fn try_send_packet(
    sender: &Sender<PacketAccumulator>,
    packet: PacketAccumulator,
) -> SendOutcome {
    match sender.try_send(packet) {
        Ok(()) => SendOutcome::Sent,
        Err(TrySendError::Full(_)) => SendOutcome::Full,
        Err(TrySendError::Disconnected(_)) => SendOutcome::Disconnected,
    }
}

} // verus!
