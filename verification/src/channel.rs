//! The cross-thread event channel.
//!
//! Hook callbacks run on foreign threads and hand their events over through an
//! unbounded multi-producer queue; the polling side takes whatever is buffered
//! without ever waiting. Unbounded means that no event is ever dropped or
//! refused for want of room. The price is that the queue grows for as long as
//! the host does not poll.
//!
//! The queue itself is `crossbeam_channel`'s. What a channel holds changes
//! under the feet of any one handle, so nothing here describes its contents.
//! What does not change is which channel a handle belongs to, and [`feeds`]
//! speaks of that.

use vstd::prelude::*;
use crossbeam_channel::{Receiver, Sender};

verus! {

/// `crossbeam_channel::Sender`, the producing end of a channel, as an opaque
/// type: nothing is known of what is inside a handle.
#[verifier::external_type_specification]
#[verifier::external_body]
#[verifier::reject_recursive_types(T)]
pub struct ExSender<T>(crossbeam_channel::Sender<T>);

/// `crossbeam_channel::Receiver`, the consuming end of a channel, as an
/// opaque type: nothing is known of what is inside a handle.
#[verifier::external_type_specification]
#[verifier::external_body]
#[verifier::reject_recursive_types(T)]
pub struct ExReceiver<T>(crossbeam_channel::Receiver<T>);

/// Whether `tx` is a producing end of the channel that `rx` drains: whether
/// a message sent through `tx` is queued where `rx` takes messages from.
/// Which channel a handle belongs to is settled when the handle is made and
/// never changes.
pub uninterp spec fn feeds(tx: Sender<String>, rx: Receiver<String>) -> bool;

/// Calls `crossbeam_channel::unbounded`, which makes a fresh channel with no
/// capacity limit and returns its two ends. The claim is that the two belong
/// together: the sender feeds the receiver.
#[verifier::external_body]
pub(crate) fn unbounded_channel() -> (ends: (Sender<String>, Receiver<String>))
    ensures
        feeds(ends.0, ends.1),
{
    crossbeam_channel::unbounded()
}

/// Calls `Sender::clone`, which yields one more producer handle on the same
/// channel. The claim is that the new handle feeds exactly the receivers
/// that `tx` feeds.
#[verifier::external_body]
pub(crate) fn another_sender(tx: &Sender<String>) -> (handle: Sender<String>)
    ensures
        forall|rx: Receiver<String>| #[trigger] feeds(handle, rx) == feeds(*tx, rx),
{
    tx.clone()
}

/// Calls `Sender::try_send`, which never waits, whatever kind of channel the
/// handle belongs to. The result tells whether the message was queued; it is
/// not queued when every receiver is gone, nor when a channel of limited
/// capacity has no room. Which of these happens is up to the other end, so no
/// clause says.
#[verifier::external_body]
pub(crate) fn send_message<T>(tx: &Sender<T>, message: T) -> (queued: bool) {
    tx.try_send(message).is_ok()
}

/// Calls `Receiver::try_iter` and collects what it yields: the messages that
/// are ready, in the order they were queued, without waiting for more. Which
/// messages those are depends on the producers, so no clause says.
#[verifier::external_body]
pub(crate) fn take_buffered<T>(rx: &Receiver<T>) -> (messages: Vec<T>) {
    rx.try_iter().collect()
}

} // verus!
