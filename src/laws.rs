//! Properties of the registry and the router, stated over the model and
//! proved.

use vstd::prelude::*;

use crate::error::RoomError;
use crate::message::{ChannelMessage, Fanout, SocketMessage};
use crate::model::{
    delivered, distinct, lemma_registered_recipients, left_notices, left_text, names, sent_to,
    RegistryView, SendRecord,
};
use crate::registry::Registry;
use crate::router::routed;

verus! {

/// After a join of `u` to `r`, `r` is among the rooms of `u` and `u` among
/// the members of `r`; after a leave, neither holds.
pub proof fn law_join_leave_membership(v: RegistryView, u: Seq<char>, r: Seq<char>)
    requires
        v.consistent(),
        v.users().contains(u),
        v.rooms().contains(r),
    ensures
        v.join(u, r).in_rooms_of(u, r),
        v.join(u, r).in_members_of(u, r),
        !v.leave(u, r).in_rooms_of(u, r),
        !v.leave(u, r).in_members_of(u, r),
{
}

/// In every well-formed registry the two membership maps agree: `u` is a
/// member of `r` exactly when `r` is a room of `u`. Every operation that
/// changes the registry keeps it well formed.
pub proof fn law_membership_consistent(registry: &Registry)
    requires
        registry.wf(),
    ensures
        forall|u: Seq<char>, r: Seq<char>|
            #[trigger] registry@.in_members_of(u, r) <==> registry@.in_rooms_of(u, r),
{
    registry.lemma_wf_consistent();
}

/// Content from a user that is not a member of the room is dropped: nothing
/// is delivered and the registry does not change.
pub proof fn law_content_from_non_member(
    pre: RegistryView,
    post: RegistryView,
    u: Seq<char>,
    c: ChannelMessage,
    r: Result<Fanout, RoomError>,
)
    requires
        pre.consistent(),
        !pre.in_members_of(u, c.room.name@),
        routed(pre, post, u, SocketMessage::Content(c), r),
    ensures
        r is Err,
        post == pre,
{
    assert(!pre.in_rooms_of(u, c.room.name@));
}

/// Content from a member of a room goes to exactly the room's current
/// members: the other members, and the sender itself.
pub proof fn law_content_recipients(
    pre: RegistryView,
    post: RegistryView,
    u: Seq<char>,
    c: ChannelMessage,
    r: Result<Fanout, RoomError>,
)
    requires
        pre.consistent(),
        pre.in_members_of(u, c.room.name@),
        routed(pre, post, u, SocketMessage::Content(c), r),
    ensures
        post == pre,
        r matches Ok(f) && names(f.recipients@) == pre.room_users[c.room.name@] && names(
            f.recipients@,
        ).remove(u) == pre.room_users[c.room.name@].remove(u) && names(f.recipients@).contains(u)
            && f.message.message@ == c.message@,
{
    assert(pre.in_rooms_of(u, c.room.name@));
}

/// Disconnecting `u` takes it out of every room it belonged to, and each of
/// those rooms gets one "left" notice addressed to its remaining members.
pub proof fn law_disconnect_leaves_every_room(v: RegistryView, u: Seq<char>, out: Seq<Fanout>)
    requires
        v.consistent(),
        v.users().contains(u),
        left_notices(out, v, u),
    ensures
        forall|r: Seq<char>| !v.disconnect(u).in_rooms_of(u, r),
        forall|r: Seq<char>| !#[trigger] v.disconnect(u).in_members_of(u, r),
        forall|r: Seq<char>|
            #![trigger v.user_rooms[u].contains(r)]
            v.user_rooms[u].contains(r) ==> exists|k: int|
                0 <= k < out.len() && (#[trigger] out[k]).message.room.name@ == r
                    && out[k].message.message@ == left_text(u, r) && names(out[k].recipients@)
                    == v.disconnect(u).room_users[r],
{
    let w = v.disconnect(u);
    assert forall|r: Seq<char>|
        #![trigger v.user_rooms[u].contains(r)]
        v.user_rooms[u].contains(r) implies exists|k: int|
            0 <= k < out.len() && (#[trigger] out[k]).message.room.name@ == r
                && out[k].message.message@ == left_text(u, r) && names(out[k].recipients@)
                == w.room_users[r] by {
        let k = choose|k: int| 0 <= k < out.len() && #[trigger] out[k].message.room.name@ == r;
        assert(v.in_rooms_of(u, r));
        assert(v.room_users.contains_key(r));
    }
}

/// Joining twice is joining once: the second join is refused as
/// `AlreadyMember` and changes nothing, and the model of the two joins equals
/// the model of one.
pub proof fn law_join_idempotent(v: RegistryView, u: Seq<char>, r: Seq<char>)
    requires
        v.consistent(),
        v.join_error(u, r) is None,
    ensures
        v.join(u, r).join_error(u, r) == Some(RoomError::AlreadyMember),
        v.join(u, r).join(u, r) == v.join(u, r),
{
    let w = v.join(u, r);
    assert(w.user_rooms[u].insert(r) =~= w.user_rooms[u]);
    assert(w.room_users[r].insert(u) =~= w.room_users[r]);
    assert(w.join(u, r).user_rooms =~= w.user_rooms);
    assert(w.join(u, r).room_users =~= w.room_users);
}

/// A delivery hands the message to every registered recipient's channel
/// exactly once, whatever the other sends returned, and to no one else.
pub proof fn law_delivery_reaches_each_recipient_once(
    log: Seq<SendRecord>,
    new_log: Seq<SendRecord>,
    rs: Seq<String>,
    users: Set<Seq<char>>,
    message: ChannelMessage,
    failed: Seq<String>,
)
    requires
        delivered(log, new_log, rs, users, message, failed),
        distinct(rs),
    ensures
        forall|n: Seq<char>|
            names(rs).contains(n) && users.contains(n) ==> exists|i: int|
                log.len() <= i < new_log.len() && (#[trigger] new_log[i]).0 == n && new_log[i].1 == message,
        forall|i: int, j: int|
            log.len() <= i < new_log.len() && log.len() <= j < new_log.len() && i != j ==> (
            #[trigger] new_log[i]).0 != (#[trigger] new_log[j]).0,
        forall|i: int|
            log.len() <= i < new_log.len() ==> names(rs).contains((#[trigger] new_log[i]).0) && users.contains(
                new_log[i].0,
            ),
{
    let run = new_log.skip(log.len() as int);
    lemma_registered_recipients(rs, users);
    let to = sent_to(run);
    assert forall|n: Seq<char>| names(rs).contains(n) && users.contains(n) implies exists|i: int|
        log.len() <= i < new_log.len() && (#[trigger] new_log[i]).0 == n && new_log[i].1 == message by {
        assert(to.contains(n));
        let x = choose|x: int| 0 <= x < to.len() && to[x] == n;
        assert(run[x] == new_log[log.len() + x]);
    }
    assert forall|i: int, j: int|
        log.len() <= i < new_log.len() && log.len() <= j < new_log.len() && i != j implies (
        #[trigger] new_log[i]).0 != (#[trigger] new_log[j]).0 by {
        assert(to[i - log.len()] == new_log[i].0);
        assert(to[j - log.len()] == new_log[j].0);
    }
    assert forall|i: int| log.len() <= i < new_log.len() implies names(rs).contains(
        (#[trigger] new_log[i]).0,
    ) && users.contains(new_log[i].0) by {
        assert(to[i - log.len()] == new_log[i].0);
        assert(to.contains(new_log[i].0));
    }
}

} // verus!
