//! The router: applies one client directive to the registry and computes the
//! resulting fan-out.

use vstd::prelude::*;

use crate::error::RoomError;
use crate::message::{ChannelMessage, Fanout, Room, SocketMessage};
use crate::model::{is_fanout, joined_text, left_text, RegistryView};
use crate::registry::Registry;

verus! {

/// What routing `m` from `u` does: `pre` and `post` are the registry before
/// and after, `r` the result.
///
/// A join or leave that cannot happen, or content from a non-member, leaves
/// the registry as it was and delivers nothing. Otherwise the notice or the
/// content goes, from `u`, to every current member of the room: after a join
/// that includes the joiner, after a leave it is the remaining members, and
/// content also reaches its sender. The `from` a client supplies is ignored.
pub open spec fn routed(
    pre: RegistryView,
    post: RegistryView,
    u: Seq<char>,
    m: SocketMessage,
    r: Result<Fanout, RoomError>,
) -> bool {
    match m {
        SocketMessage::Join(room) => match pre.join_error(u, room@) {
            Some(e) => r == Err::<Fanout, RoomError>(e) && post == pre,
            None => post == pre.join(u, room@) && (r matches Ok(f) && is_fanout(
                f,
                room@,
                u,
                joined_text(u, room@),
                post.room_users[room@],
            )),
        },
        SocketMessage::Leave(room) => match pre.member_error(u, room@) {
            Some(e) => r == Err::<Fanout, RoomError>(e) && post == pre,
            None => post == pre.leave(u, room@) && (r matches Ok(f) && is_fanout(
                f,
                room@,
                u,
                left_text(u, room@),
                post.room_users[room@],
            )),
        },
        SocketMessage::Content(c) => match pre.member_error(u, c.room.name@) {
            Some(e) => r == Err::<Fanout, RoomError>(e) && post == pre,
            None => post == pre && (r matches Ok(f) && is_fanout(
                f,
                c.room.name@,
                u,
                c.message@,
                pre.room_users[c.room.name@],
            )),
        },
    }
}

impl Registry {
    /// Applies a directive from `user` and returns the message to fan out
    /// with its recipients, or why the directive was dropped.
    pub fn route(&mut self, user: &str, message: SocketMessage) -> (r: Result<Fanout, RoomError>)
        requires
            old(self).wf(),
        ensures
            final(self).wf(),
            final(self).logs() == old(self).logs(),
            routed(old(self)@, final(self)@, user@, message, r),
    {
        match message {
            SocketMessage::Join(room) => {
                if let Err(e) = self.join_room(user, room.as_str()) {
                    return Err(e);
                }
                let recipients = match self.members_of(room.as_str()) {
                    Ok(v) => v,
                    Err(e) => return Err(e),
                };
                let text = user.to_owned().concat(" joined ").concat(room.as_str());
                Ok(
                    Fanout {
                        message: ChannelMessage {
                            room: Room { name: room },
                            from: Some(user.to_owned()),
                            message: text,
                        },
                        recipients,
                    },
                )
            },
            SocketMessage::Leave(room) => {
                if let Err(e) = self.leave_room(user, room.as_str()) {
                    return Err(e);
                }
                let recipients = match self.members_of(room.as_str()) {
                    Ok(v) => v,
                    Err(e) => return Err(e),
                };
                let text = user.to_owned().concat(" left ").concat(room.as_str());
                Ok(
                    Fanout {
                        message: ChannelMessage {
                            room: Room { name: room },
                            from: Some(user.to_owned()),
                            message: text,
                        },
                        recipients,
                    },
                )
            },
            SocketMessage::Content(content) => {
                let ChannelMessage { room, message: text, .. } = content;
                if let Err(e) = self.rooms_of(user) {
                    return Err(e);
                }
                let recipients = match self.members_of(room.name.as_str()) {
                    Ok(v) => v,
                    Err(e) => return Err(e),
                };
                if !self.is_user_in_room(user, room.name.as_str()) {
                    return Err(RoomError::NotMember);
                }
                Ok(
                    Fanout {
                        message: ChannelMessage { room, from: Some(user.to_owned()), message: text },
                        recipients,
                    },
                )
            },
        }
    }
}

} // verus!
