//! The channel over which producers tell waiting consumers how far the log
//! reaches. It holds one number, the offset behind the last message.

use tokio::sync::watch;
use vstd::prelude::*;

verus! {

/// The sending half of a tokio `watch` channel.
#[verifier::external_type_specification]
#[verifier::external_body]
#[verifier::reject_recursive_types(T)]
pub struct ExSender<T>(watch::Sender<T>);

/// The receiving half of a tokio `watch` channel.
#[verifier::external_type_specification]
#[verifier::external_body]
#[verifier::reject_recursive_types(T)]
pub struct ExReceiver<T>(watch::Receiver<T>);

/// The value with which the channel of a receiver was opened.
pub uninterp spec fn initial_tail(rx: watch::Receiver<u64>) -> u64;

/// Whether a sender and a receiver belong to the same channel.
pub uninterp spec fn linked(tx: watch::Sender<u64>, rx: watch::Receiver<u64>) -> bool;

/// Calls `tokio::sync::watch::channel`. The channel starts out with `initial` in it, and
/// the two halves share it.
#[verifier::external_body]
fn channel(initial: u64) -> (halves: (watch::Sender<u64>, watch::Receiver<u64>))
    ensures
        initial_tail(halves.1) == initial,
        linked(halves.0, halves.1),
    opens_invariants none
{
    watch::channel(initial)
}

/// Calls `tokio::sync::watch::Receiver::borrow` and copies the number out. Which
/// number that is depends on what other tasks have sent by then, so nothing is
/// claimed of it.
#[verifier::external_body]
pub fn latest(rx: &watch::Receiver<u64>) -> u64
    opens_invariants none
{
    *rx.borrow()
}

/// Calls `tokio::sync::watch::Sender::send`. Whether a receiver is left depends on
/// other tasks; where none is, the number comes back in the error.
///
/// The call counts as opening the namespace of the number it sends, and no other. So a
/// function that may open only some namespaces can send only these numbers, and one that
/// may open none sends nothing.
#[verifier::external_body]
pub fn announce(tx: &watch::Sender<u64>, tail: u64) -> (sent: Result<(), u64>)
    ensures
        sent matches Err(unsent) ==> unsent == tail,
    opens_invariants [tail as int]
{
    tx.send(tail).map_err(|e| e.0)
}

/// A way to announce the end of the log that is only good for the ends it permits.
///
/// What is written for every announcer, without knowing what it permits, can announce only
/// the ends for which it was promised the permission.
pub trait Announcer {
    /// Whether this end may be announced.
    spec fn permits(&self, end: u64) -> bool;

    /// Whether a call has announced this end.
    spec fn has_announced(&self, end: u64) -> bool;

    /// Announces an end of the log, and no other number.
    fn tell(&self, end: u64)
        requires
            self.permits(end),
        ensures
            self.has_announced(end),
        opens_invariants [end as int]
    ;
}

impl Announcer for watch::Sender<u64> {
    /// The channel takes any number.
    open spec fn permits(&self, end: u64) -> bool {
        true
    }

    /// The number has been handed to the channel.
    open spec fn has_announced(&self, end: u64) -> bool {
        exists|sent: Result<(), u64>| #[trigger] call_ensures(announce, (self, end), sent)
    }

    fn tell(&self, end: u64) {
        let sent = announce(self, end);
        assert(call_ensures(announce, (self, end), sent));
    }
}

/// The sender of the channel takes every end of the log, and announcing one is handing it to
/// the channel.
pub proof fn announcing_is_sending(tx: &watch::Sender<u64>, end: u64)
    ensures
        tx.permits(end),
        tx.has_announced(end) ==> exists|sent: Result<(), u64>| #[trigger]
            call_ensures(announce, (tx, end), sent),
{
}

/// Opens the channel with the offset at which the log ends.
pub fn watch_tail(initial: u64) -> (halves: (watch::Sender<u64>, watch::Receiver<u64>))
    ensures
        initial_tail(halves.1) == initial,
        linked(halves.0, halves.1),
    opens_invariants none
{
    channel(initial)
}

} // verus!
