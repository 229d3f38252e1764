//! The lifecycle of one connection: `Connecting → Active → Draining → Closed`.
//!
//! The caller runs the inbound and outbound duties and reports what happens
//! as events; the session decides what each event does to the registry.

use std::sync::Arc;
use tokio::sync::broadcast::Receiver;
use vstd::prelude::*;

use crate::error::RoomError;
use crate::message::{ChannelMessage, Fanout, SocketMessage};
use crate::model::left_notices;
use crate::registry::Registry;
use crate::router::routed;

verus! {

#[derive(Debug, Clone, Copy, PartialEq, Eq, Structural)]
pub enum SessionState {
    Connecting,
    Active,
    Draining,
    Closed,
}

/// What the duties of a connection observe.
pub enum SessionEvent {
    /// A decoded directive from the peer.
    Directive(SocketMessage),
    /// A frame that did not decode as a directive.
    Malformed,
    /// The peer closed the connection.
    PeerClosed,
    /// Reading from or writing to the connection failed.
    TransportError,
    /// The user's delivery channel was closed.
    ChannelClosed,
}

/// What the caller does next.
pub enum SessionAction {
    /// Hand the message to its recipients.
    Deliver(Fanout),
    /// The directive was dropped; the session goes on.
    Dropped(RoomError),
    /// Cancel the other duty, then close the session.
    Drain,
    /// The session is not active: nothing to do.
    Ignored,
}

pub struct Session {
    user: String,
    state: SessionState,
}

impl Session {
    pub closed spec fn spec_user(&self) -> Seq<char> {
        self.user@
    }

    pub closed spec fn spec_state(&self) -> SessionState {
        self.state
    }

    /// A session for the principal `user`, not yet attached.
    pub fn new(user: String) -> (r: Session)
        ensures
            r.spec_user() == user@,
            r.spec_state() == SessionState::Connecting,
    {
        Session { user, state: SessionState::Connecting }
    }

    pub fn user(&self) -> (r: &str)
        ensures
            r@ == self.spec_user(),
    {
        self.user.as_str()
    }

    pub fn state(&self) -> (r: SessionState)
        ensures
            r == self.spec_state(),
    {
        self.state
    }

    /// Attaches the session to its registered user. An unknown user, or one
    /// that already has a live session, is refused and the session closes with
    /// no side effect.
    pub fn attach(&mut self, registry: &mut Registry) -> (r: Result<Receiver<Arc<ChannelMessage>>, RoomError>)
        requires
            old(registry).wf(),
            old(self).spec_state() == SessionState::Connecting,
        ensures
            final(registry).wf(),
            final(self).spec_user() == old(self).spec_user(),
            final(registry).sends() == old(registry).sends(),
            match old(registry)@.connect_error(old(self).spec_user()) {
                Some(e) => (r matches Err(x) && x == e) && final(registry)@ == old(registry)@
                    && final(registry).subscriptions() == old(registry).subscriptions()
                    && final(self).spec_state() == SessionState::Closed,
                None => r is Ok && final(registry)@ == old(registry)@.connect(old(self).spec_user())
                    && final(registry).subscriptions() == old(registry).subscriptions().push(
                    old(self).spec_user(),
                ) && final(self).spec_state() == SessionState::Active,
            },
    {
        let r = registry.connect(self.user.as_str());
        if r.is_ok() {
            self.state = SessionState::Active;
        } else {
            self.state = SessionState::Closed;
        }
        r
    }

    /// Decides what one event of an active session does.
    pub fn on_event(&mut self, registry: &mut Registry, event: SessionEvent) -> (a: SessionAction)
        requires
            old(registry).wf(),
        ensures
            final(registry).wf(),
            final(registry).logs() == old(registry).logs(),
            final(self).spec_user() == old(self).spec_user(),
            old(self).spec_state() != SessionState::Active ==> a is Ignored && final(registry)@ == old(
                registry,
            )@ && final(self).spec_state() == old(self).spec_state(),
            old(self).spec_state() == SessionState::Active ==> match event {
                SessionEvent::Directive(m) => final(self).spec_state() == SessionState::Active
                    && match a {
                    SessionAction::Deliver(f) => routed(
                        old(registry)@,
                        final(registry)@,
                        old(self).spec_user(),
                        m,
                        Ok(f),
                    ),
                    SessionAction::Dropped(e) => routed(
                        old(registry)@,
                        final(registry)@,
                        old(self).spec_user(),
                        m,
                        Err(e),
                    ),
                    _ => false,
                },
                SessionEvent::Malformed => (a matches SessionAction::Dropped(e) && e
                    == RoomError::MalformedDirective) && final(registry)@ == old(registry)@
                    && final(self).spec_state() == SessionState::Active,
                _ => a is Drain && final(registry)@ == old(registry)@ && final(self).spec_state()
                    == SessionState::Draining,
            },
    {
        if self.state != SessionState::Active {
            return SessionAction::Ignored;
        }
        match event {
            SessionEvent::Directive(m) => match registry.route(self.user.as_str(), m) {
                Ok(f) => SessionAction::Deliver(f),
                Err(e) => SessionAction::Dropped(e),
            },
            SessionEvent::Malformed => SessionAction::Dropped(RoomError::MalformedDirective),
            _ => {
                self.state = SessionState::Draining;
                SessionAction::Drain
            },
        }
    }

    /// Ends the session. The first close of an attached session runs the
    /// cleanup (the user leaves every room, with a "left" notice to each
    /// room's remaining members, and is no longer connected); any later close
    /// does nothing.
    pub fn close(&mut self, registry: &mut Registry) -> (r: Vec<Fanout>)
        requires
            old(registry).wf(),
        ensures
            final(registry).wf(),
            final(registry).logs() == old(registry).logs(),
            final(self).spec_user() == old(self).spec_user(),
            final(self).spec_state() == SessionState::Closed,
            (old(self).spec_state() == SessionState::Active || old(self).spec_state()
                == SessionState::Draining) && old(registry)@.users().contains(old(self).spec_user())
                ==> final(registry)@ == old(registry)@.disconnect(old(self).spec_user()) && left_notices(
                r@,
                old(registry)@,
                old(self).spec_user(),
            ),
            !((old(self).spec_state() == SessionState::Active || old(self).spec_state()
                == SessionState::Draining) && old(registry)@.users().contains(old(self).spec_user()))
                ==> r@.len() == 0 && final(registry)@ == old(registry)@,
    {
        let attached = self.state == SessionState::Active || self.state == SessionState::Draining;
        self.state = SessionState::Closed;
        if attached {
            registry.disconnect(self.user.as_str())
        } else {
            Vec::new()
        }
    }
}

} // verus!
