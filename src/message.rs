//! The values exchanged between sessions and the router.

use vstd::prelude::*;

verus! {

/// A registered chat user; identity is the name alone.
pub struct User {
    pub name: String,
}

/// A named broadcast scope.
pub struct Room {
    pub name: String,
}

/// The unit of fan-out: what every recipient of one delivery receives.
pub struct ChannelMessage {
    pub room: Room,
    pub from: Option<String>,
    pub message: String,
}

/// A directive sent by a client over its session.
pub enum SocketMessage {
    Join(String),
    Leave(String),
    Content(ChannelMessage),
}

/// One message together with the users it is addressed to.
pub struct Fanout {
    pub message: ChannelMessage,
    pub recipients: Vec<String>,
}

} // verus!
