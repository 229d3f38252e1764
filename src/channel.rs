//! Per-user delivery channels, backed by tokio's broadcast channel.

use std::sync::Arc;
use tokio::sync::broadcast::{Receiver, Sender};
use vstd::prelude::*;

use crate::message::ChannelMessage;

verus! {

#[verifier::external_type_specification]
#[verifier::external_body]
#[verifier::reject_recursive_types(T)]
pub struct ExSender<T>(Sender<T>);

#[verifier::external_type_specification]
#[verifier::external_body]
#[verifier::reject_recursive_types(T)]
pub struct ExReceiver<T>(Receiver<T>);

/// How many undelivered messages a user's channel holds before the oldest is
/// overwritten (a lagging receiver skips them).
pub const CHANNEL_CAPACITY: usize = 128;

/// Relies on `tokio::sync::broadcast::Sender::new`: a sender with no receiver
/// yet. It panics when the capacity is zero or above `usize::MAX / 2`.
#[verifier::external_body]
pub(crate) fn new_sender(capacity: usize) -> Sender<Arc<ChannelMessage>>
    requires
        0 < capacity <= usize::MAX / 2,
{
    Sender::new(capacity)
}

/// Relies on `tokio::sync::broadcast::Sender::subscribe`: a receiver of every
/// message sent after the call. (It panics only once `usize::MAX >> 2`
/// receivers of one channel are alive; a registry subscribes at most one live
/// session per user.)
#[verifier::external_body]
pub(crate) fn subscribe(sender: &Sender<Arc<ChannelMessage>>) -> Receiver<Arc<ChannelMessage>> {
    sender.subscribe()
}

/// Relies on `tokio::sync::broadcast::Sender::send`: it never blocks, and
/// reports whether some receiver was alive to take the message.
#[verifier::external_body]
pub(crate) fn send(sender: &Sender<Arc<ChannelMessage>>, message: &Arc<ChannelMessage>) -> bool {
    sender.send(Arc::clone(message)).is_ok()
}

} // verus!
