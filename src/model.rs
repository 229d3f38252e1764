//! The mathematical model of the registry: users, rooms, the two membership
//! maps and the set of connected users, with the transitions the registry
//! makes on them.

use vstd::prelude::*;

use crate::error::RoomError;
use crate::message::{ChannelMessage, Fanout};

verus! {

/// The set of names held by a sequence of strings.
pub open spec fn names(s: Seq<String>) -> Set<Seq<char>> {
    Set::new(|n: Seq<char>| exists|k: int| 0 <= k < s.len() && #[trigger] s[k]@ == n)
}

/// No name occurs twice in the sequence.
pub open spec fn distinct(s: Seq<String>) -> bool {
    forall|a: int, b: int|
        #![trigger s[a], s[b]]
        0 <= a < s.len() && 0 <= b < s.len() && a != b ==> s[a]@ != s[b]@
}

pub proof fn lemma_names_empty(s: Seq<String>)
    requires
        s.len() == 0,
    ensures
        names(s) == Set::<Seq<char>>::empty(),
        distinct(s),
{
    assert(names(s) =~= Set::<Seq<char>>::empty());
}

pub proof fn lemma_names_push(s: Seq<String>, x: String)
    ensures
        names(s.push(x)) == names(s).insert(x@),
        distinct(s) && !names(s).contains(x@) ==> distinct(s.push(x)),
{
    let t = s.push(x);
    assert forall|n: Seq<char>| names(t).contains(n) <==> names(s).insert(x@).contains(n) by {
        if names(t).contains(n) {
            let k = choose|k: int| 0 <= k < t.len() && #[trigger] t[k]@ == n;
            if k < s.len() {
                assert(s[k]@ == n);
            }
        }
        if names(s).contains(n) {
            let k = choose|k: int| 0 <= k < s.len() && #[trigger] s[k]@ == n;
            assert(t[k]@ == n);
        }
        if n == x@ {
            assert(t[s.len() as int]@ == n);
        }
    }
    assert(names(t) =~= names(s).insert(x@));
    if distinct(s) && !names(s).contains(x@) {
        assert forall|a: int, b: int|
            #![trigger t[a], t[b]]
            0 <= a < t.len() && 0 <= b < t.len() && a != b implies t[a]@ != t[b]@ by {
            if a < s.len() && b < s.len() {
                assert(s[a]@ != s[b]@);
            } else if a < s.len() {
                assert(s[a]@ == t[a]@);
            } else {
                assert(s[b]@ == t[b]@);
            }
        }
    }
}

pub proof fn lemma_names_remove(s: Seq<String>, i: int)
    requires
        distinct(s),
        0 <= i < s.len(),
    ensures
        names(s.remove(i)) == names(s).remove(s[i]@),
        distinct(s.remove(i)),
{
    let t = s.remove(i);
    assert forall|n: Seq<char>| names(t).contains(n) <==> names(s).remove(s[i]@).contains(n) by {
        if names(t).contains(n) {
            let k = choose|k: int| 0 <= k < t.len() && #[trigger] t[k]@ == n;
            if k < i {
                assert(s[k]@ == n);
                assert(s[k]@ != s[i]@);
            } else {
                assert(s[k + 1]@ == n);
                assert(s[k + 1]@ != s[i]@);
            }
        }
        if names(s).remove(s[i]@).contains(n) {
            let k = choose|k: int| 0 <= k < s.len() && #[trigger] s[k]@ == n;
            assert(k != i);
            if k < i {
                assert(t[k]@ == n);
            } else {
                assert(t[k - 1]@ == n);
            }
        }
    }
    assert(names(t) =~= names(s).remove(s[i]@));
    assert forall|a: int, b: int|
        #![trigger t[a], t[b]]
        0 <= a < t.len() && 0 <= b < t.len() && a != b implies t[a]@ != t[b]@ by {
        let a2 = if a < i { a } else { a + 1 };
        let b2 = if b < i { b } else { b + 1 };
        assert(t[a] == s[a2]);
        assert(t[b] == s[b2]);
        assert(s[a2]@ != s[b2]@);
    }
}

/// Two sequences that hold the same names in the same places.
pub proof fn lemma_names_same(s: Seq<String>, t: Seq<String>)
    requires
        s.len() == t.len(),
        forall|k: int| 0 <= k < s.len() ==> #[trigger] s[k]@ == t[k]@,
    ensures
        names(s) == names(t),
        distinct(s) == distinct(t),
{
    assert forall|n: Seq<char>| names(s).contains(n) <==> names(t).contains(n) by {
        if names(s).contains(n) {
            let k = choose|k: int| 0 <= k < s.len() && #[trigger] s[k]@ == n;
            assert(t[k]@ == n);
        }
        if names(t).contains(n) {
            let k = choose|k: int| 0 <= k < t.len() && #[trigger] t[k]@ == n;
            assert(s[k]@ == n);
        }
    }
    assert(names(s) =~= names(t));
    if distinct(s) {
        assert forall|a: int, b: int|
            #![trigger t[a], t[b]]
            0 <= a < t.len() && 0 <= b < t.len() && a != b implies t[a]@ != t[b]@ by {
            assert(s[a]@ != s[b]@);
        }
    }
    if distinct(t) {
        assert forall|a: int, b: int|
            #![trigger s[a], s[b]]
            0 <= a < s.len() && 0 <= b < s.len() && a != b implies s[a]@ != s[b]@ by {
            assert(t[a]@ != t[b]@);
        }
    }
}

/// The notice text of a join.
pub open spec fn joined_text(u: Seq<char>, r: Seq<char>) -> Seq<char> {
    u + " joined "@ + r
}

/// The notice text of a leave.
pub open spec fn left_text(u: Seq<char>, r: Seq<char>) -> Seq<char> {
    u + " left "@ + r
}

/// `f` carries `text` into `room` from `from`, addressed to exactly the names
/// in `to`, each once.
pub open spec fn is_fanout(f: Fanout, room: Seq<char>, from: Seq<char>, text: Seq<char>, to: Set<Seq<char>>) -> bool {
    &&& f.message.room.name@ == room
    &&& (f.message.from matches Some(s) && s@ == from)
    &&& f.message.message@ == text
    &&& names(f.recipients@) == to
    &&& distinct(f.recipients@)
}

/// `f` is the notice that `u` left one of its rooms in `v`, addressed to that
/// room's other members.
pub open spec fn left_notice_ok(f: Fanout, v: RegistryView, u: Seq<char>) -> bool {
    let r = f.message.room.name@;
    &&& v.user_rooms[u].contains(r)
    &&& is_fanout(f, r, u, left_text(u, r), v.room_users[r].remove(u))
}

/// Each notice is right and no room has two.
pub open spec fn left_notices_so_far(out: Seq<Fanout>, v: RegistryView, u: Seq<char>) -> bool {
    &&& forall|k: int| #![trigger out[k]] 0 <= k < out.len() ==> left_notice_ok(out[k], v, u)
    &&& forall|a: int, b: int|
        #![trigger out[a], out[b]]
        0 <= a < out.len() && 0 <= b < out.len() && a != b ==> out[a].message.room.name@
            != out[b].message.room.name@
}

/// `out` holds exactly one "left" notice for each room of `u` in `v`.
pub open spec fn left_notices(out: Seq<Fanout>, v: RegistryView, u: Seq<char>) -> bool {
    &&& left_notices_so_far(out, v, u)
    &&& forall|r: Seq<char>|
        v.user_rooms[u].contains(r) ==> exists|k: int| 0 <= k < out.len() && #[trigger] out[k].message.room.name@ == r
}

/// The names of a sequence of strings, in order.
pub open spec fn views(s: Seq<String>) -> Seq<Seq<char>> {
    s.map_values(|x: String| x@)
}

/// One message handed to a user's delivery channel: the user, the message,
/// and whether a live receiver took it.
pub type SendRecord = (Seq<char>, ChannelMessage, bool);

/// The users that a run of sends went to, in order.
pub open spec fn sent_to(log: Seq<SendRecord>) -> Seq<Seq<char>> {
    log.map_values(|e: SendRecord| e.0)
}

/// Whether each send of a run was taken, in order.
pub open spec fn taken(log: Seq<SendRecord>) -> Seq<bool> {
    log.map_values(|e: SendRecord| e.2)
}

/// The recipients in `rs` that are registered users, in order.
pub open spec fn registered_recipients(rs: Seq<String>, users: Set<Seq<char>>) -> Seq<Seq<char>>
    decreases rs.len(),
{
    if rs.len() == 0 {
        Seq::empty()
    } else {
        let rest = registered_recipients(rs.drop_last(), users);
        if users.contains(rs.last()@) {
            rest.push(rs.last()@)
        } else {
            rest
        }
    }
}

/// The recipients in `rs` that did not get the message, in order: those that
/// are not registered, and those whose send (the outcomes `ok` of the
/// registered ones, in order) was not taken.
pub open spec fn undelivered(rs: Seq<String>, users: Set<Seq<char>>, ok: Seq<bool>) -> Seq<Seq<char>>
    decreases rs.len(),
{
    if rs.len() == 0 {
        Seq::empty()
    } else {
        let last = rs.last()@;
        if users.contains(last) {
            let rest = undelivered(rs.drop_last(), users, ok.drop_last());
            if ok.last() {
                rest
            } else {
                rest.push(last)
            }
        } else {
            undelivered(rs.drop_last(), users, ok).push(last)
        }
    }
}

/// The registered recipients are the names of `rs` that are users, each
/// once when `rs` holds each name once.
pub proof fn lemma_registered_recipients(rs: Seq<String>, users: Set<Seq<char>>)
    ensures
        forall|n: Seq<char>|
            #![trigger registered_recipients(rs, users).contains(n)]
            #![trigger names(rs).contains(n)]
            registered_recipients(rs, users).contains(n) <==> names(rs).contains(n) && users.contains(n),
        distinct(rs) ==> registered_recipients(rs, users).no_duplicates(),
    decreases rs.len(),
{
    if rs.len() == 0 {
        lemma_names_empty(rs);
    } else {
        let init = rs.drop_last();
        lemma_registered_recipients(init, users);
        assert(init.push(rs.last()) =~= rs);
        lemma_names_push(init, rs.last());
        let rest = registered_recipients(init, users);
        let last = rs.last()@;
        assert(registered_recipients(rs, users) == if users.contains(last) {
            rest.push(last)
        } else {
            rest
        });
        assert(names(rs) == names(init).insert(last));
        assert forall|n: Seq<char>|
            registered_recipients(rs, users).contains(n) <==> names(rs).contains(n) && users.contains(n) by {
            assert(rest.contains(n) <==> names(init).contains(n) && users.contains(n));
            assert(names(rs).contains(n) <==> names(init).contains(n) || n == last);
            if users.contains(last) {
                let all = rest.push(last);
                if all.contains(n) {
                    let k = choose|k: int| 0 <= k < all.len() && all[k] == n;
                    if k < rest.len() {
                        assert(rest[k] == n);
                    }
                }
                if rest.contains(n) {
                    let k = choose|k: int| 0 <= k < rest.len() && rest[k] == n;
                    assert(all[k] == n);
                }
                if n == last {
                    assert(all[rest.len() as int] == n);
                }
            }
        }
        if distinct(rs) {
            assert(distinct(init)) by {
                assert forall|a: int, b: int|
                    #![trigger init[a], init[b]]
                    0 <= a < init.len() && 0 <= b < init.len() && a != b implies init[a]@ != init[b]@ by {
                    assert(init[a] == rs[a] && init[b] == rs[b]);
                }
            }
            if users.contains(rs.last()@) {
                assert(!names(init).contains(rs.last()@)) by {
                    if names(init).contains(rs.last()@) {
                        let k = choose|k: int| 0 <= k < init.len() && #[trigger] init[k]@ == rs.last()@;
                        assert(rs[k]@ == rs[rs.len() - 1]@);
                    }
                }
            }
        }
    }
}

/// Delivering `message` to `rs` took the send log from `log` to `new_log`:
/// one send per registered recipient, in order, each of `message`, and
/// `failed` names exactly the recipients that did not get it.
pub open spec fn delivered(
    log: Seq<SendRecord>,
    new_log: Seq<SendRecord>,
    rs: Seq<String>,
    users: Set<Seq<char>>,
    message: ChannelMessage,
    failed: Seq<String>,
) -> bool {
    let run = new_log.skip(log.len() as int);
    &&& log.len() <= new_log.len()
    &&& new_log.take(log.len() as int) == log
    &&& sent_to(run) == registered_recipients(rs, users)
    &&& forall|i: int| 0 <= i < run.len() ==> (#[trigger] run[i]).1 == message
    &&& views(failed) == undelivered(rs, users, taken(run))
}

/// The registry as sets and maps of names.
pub struct RegistryView {
    /// Each registered user's rooms; its domain is the set of users.
    pub user_rooms: Map<Seq<char>, Set<Seq<char>>>,
    /// Each room's members; its domain is the set of rooms.
    pub room_users: Map<Seq<char>, Set<Seq<char>>>,
    /// Users with a live session.
    pub connected: Set<Seq<char>>,
}

impl RegistryView {
    pub open spec fn empty() -> RegistryView {
        RegistryView {
            user_rooms: Map::empty(),
            room_users: Map::empty(),
            connected: Set::empty(),
        }
    }

    pub open spec fn users(self) -> Set<Seq<char>> {
        self.user_rooms.dom()
    }

    pub open spec fn rooms(self) -> Set<Seq<char>> {
        self.room_users.dom()
    }

    /// `r` is among the rooms of `u`.
    pub open spec fn in_rooms_of(self, u: Seq<char>, r: Seq<char>) -> bool {
        self.user_rooms.contains_key(u) && self.user_rooms[u].contains(r)
    }

    /// `u` is among the members of `r`.
    pub open spec fn in_members_of(self, u: Seq<char>, r: Seq<char>) -> bool {
        self.room_users.contains_key(r) && self.room_users[r].contains(u)
    }

    /// The two membership maps agree pair by pair, and only registered users
    /// are connected.
    pub open spec fn consistent(self) -> bool {
        &&& forall|u: Seq<char>, r: Seq<char>|
            #[trigger] self.in_rooms_of(u, r) ==> self.in_members_of(u, r)
        &&& forall|u: Seq<char>, r: Seq<char>|
            #[trigger] self.in_members_of(u, r) ==> self.in_rooms_of(u, r)
        &&& self.connected.subset_of(self.users())
    }

    pub open spec fn add_user(self, u: Seq<char>) -> RegistryView {
        RegistryView { user_rooms: self.user_rooms.insert(u, Set::empty()), ..self }
    }

    pub open spec fn add_room(self, r: Seq<char>) -> RegistryView {
        RegistryView { room_users: self.room_users.insert(r, Set::empty()), ..self }
    }

    pub open spec fn join(self, u: Seq<char>, r: Seq<char>) -> RegistryView {
        RegistryView {
            user_rooms: self.user_rooms.insert(u, self.user_rooms[u].insert(r)),
            room_users: self.room_users.insert(r, self.room_users[r].insert(u)),
            connected: self.connected,
        }
    }

    pub open spec fn leave(self, u: Seq<char>, r: Seq<char>) -> RegistryView {
        RegistryView {
            user_rooms: self.user_rooms.insert(u, self.user_rooms[u].remove(r)),
            room_users: self.room_users.insert(r, self.room_users[r].remove(u)),
            connected: self.connected,
        }
    }

    /// `u` is taken out of every room and its presence is cleared; it stays
    /// registered.
    pub open spec fn disconnect(self, u: Seq<char>) -> RegistryView {
        RegistryView {
            user_rooms: self.user_rooms.insert(u, Set::empty()),
            room_users: Map::new(
                |r: Seq<char>| self.room_users.contains_key(r),
                |r: Seq<char>| self.room_users[r].remove(u),
            ),
            connected: self.connected.remove(u),
        }
    }

    pub open spec fn remove_user(self, u: Seq<char>) -> RegistryView {
        RegistryView {
            user_rooms: self.user_rooms.remove(u),
            room_users: Map::new(
                |r: Seq<char>| self.room_users.contains_key(r),
                |r: Seq<char>| self.room_users[r].remove(u),
            ),
            connected: self.connected.remove(u),
        }
    }

    pub open spec fn remove_room(self, r: Seq<char>) -> RegistryView {
        RegistryView {
            user_rooms: Map::new(
                |u: Seq<char>| self.user_rooms.contains_key(u),
                |u: Seq<char>| self.user_rooms[u].remove(r),
            ),
            room_users: self.room_users.remove(r),
            connected: self.connected,
        }
    }

    pub open spec fn connect(self, u: Seq<char>) -> RegistryView {
        RegistryView { connected: self.connected.insert(u), ..self }
    }

    /// Why `u` cannot join `r`, if it cannot.
    pub open spec fn join_error(self, u: Seq<char>, r: Seq<char>) -> Option<RoomError> {
        if !self.users().contains(u) {
            Some(RoomError::UserNotFound)
        } else if !self.rooms().contains(r) {
            Some(RoomError::RoomNotFound)
        } else if self.in_rooms_of(u, r) {
            Some(RoomError::AlreadyMember)
        } else {
            None
        }
    }

    /// Why `u` cannot act as a member of `r` (leave it, or post to it), if it
    /// cannot.
    pub open spec fn member_error(self, u: Seq<char>, r: Seq<char>) -> Option<RoomError> {
        if !self.users().contains(u) {
            Some(RoomError::UserNotFound)
        } else if !self.rooms().contains(r) {
            Some(RoomError::RoomNotFound)
        } else if !self.in_rooms_of(u, r) {
            Some(RoomError::NotMember)
        } else {
            None
        }
    }

    /// Why a session of `u` cannot be opened, if it cannot.
    pub open spec fn connect_error(self, u: Seq<char>) -> Option<RoomError> {
        if !self.users().contains(u) {
            Some(RoomError::UserNotFound)
        } else if self.connected.contains(u) {
            Some(RoomError::AlreadyConnected)
        } else {
            None
        }
    }
}

/// Registering a user keeps the membership maps consistent.
pub proof fn lemma_add_user_consistent(v: RegistryView, u: Seq<char>)
    requires
        v.consistent(),
        !v.users().contains(u),
    ensures
        v.add_user(u).consistent(),
{
    let w = v.add_user(u);
    assert forall|x: Seq<char>, r: Seq<char>| #[trigger] w.in_rooms_of(x, r) implies w.in_members_of(x, r) by {
        assert(v.in_rooms_of(x, r));
    }
    assert forall|x: Seq<char>, r: Seq<char>| #[trigger] w.in_members_of(x, r) implies w.in_rooms_of(x, r) by {
        assert(v.in_members_of(x, r));
    }
}

/// Creating a room keeps the membership maps consistent.
pub proof fn lemma_add_room_consistent(v: RegistryView, r: Seq<char>)
    requires
        v.consistent(),
        !v.rooms().contains(r),
    ensures
        v.add_room(r).consistent(),
{
    let w = v.add_room(r);
    assert forall|x: Seq<char>, y: Seq<char>| #[trigger] w.in_rooms_of(x, y) implies w.in_members_of(x, y) by {
        assert(v.in_rooms_of(x, y));
    }
    assert forall|x: Seq<char>, y: Seq<char>| #[trigger] w.in_members_of(x, y) implies w.in_rooms_of(x, y) by {
        assert(v.in_members_of(x, y));
    }
}

/// A join updates both maps together: it keeps them consistent.
pub proof fn lemma_join_consistent(v: RegistryView, u: Seq<char>, r: Seq<char>)
    requires
        v.consistent(),
        v.users().contains(u),
        v.rooms().contains(r),
    ensures
        v.join(u, r).consistent(),
{
    let w = v.join(u, r);
    assert forall|x: Seq<char>, y: Seq<char>| #[trigger] w.in_rooms_of(x, y) implies w.in_members_of(x, y) by {
        if !(x == u && y == r) {
            assert(v.in_rooms_of(x, y));
        }
    }
    assert forall|x: Seq<char>, y: Seq<char>| #[trigger] w.in_members_of(x, y) implies w.in_rooms_of(x, y) by {
        if !(x == u && y == r) {
            assert(v.in_members_of(x, y));
        }
    }
}

/// A leave updates both maps together: it keeps them consistent.
pub proof fn lemma_leave_consistent(v: RegistryView, u: Seq<char>, r: Seq<char>)
    requires
        v.consistent(),
        v.users().contains(u),
        v.rooms().contains(r),
    ensures
        v.leave(u, r).consistent(),
{
    let w = v.leave(u, r);
    assert forall|x: Seq<char>, y: Seq<char>| #[trigger] w.in_rooms_of(x, y) implies w.in_members_of(x, y) by {
        assert(v.in_rooms_of(x, y));
    }
    assert forall|x: Seq<char>, y: Seq<char>| #[trigger] w.in_members_of(x, y) implies w.in_rooms_of(x, y) by {
        assert(v.in_members_of(x, y));
    }
}

/// Marking a registered user connected keeps the registry consistent.
pub proof fn lemma_connect_consistent(v: RegistryView, u: Seq<char>)
    requires
        v.consistent(),
        v.users().contains(u),
    ensures
        v.connect(u).consistent(),
{
    let w = v.connect(u);
    assert forall|x: Seq<char>, y: Seq<char>| #[trigger] w.in_rooms_of(x, y) implies w.in_members_of(x, y) by {
        assert(v.in_rooms_of(x, y));
    }
    assert forall|x: Seq<char>, y: Seq<char>| #[trigger] w.in_members_of(x, y) implies w.in_rooms_of(x, y) by {
        assert(v.in_members_of(x, y));
    }
}

/// Disconnect cleanup keeps the membership maps consistent.
pub proof fn lemma_disconnect_consistent(v: RegistryView, u: Seq<char>)
    requires
        v.consistent(),
        v.users().contains(u),
    ensures
        v.disconnect(u).consistent(),
{
    let w = v.disconnect(u);
    assert forall|x: Seq<char>, y: Seq<char>| #[trigger] w.in_rooms_of(x, y) implies w.in_members_of(x, y) by {
        assert(v.in_rooms_of(x, y));
    }
    assert forall|x: Seq<char>, y: Seq<char>| #[trigger] w.in_members_of(x, y) implies w.in_rooms_of(x, y) by {
        assert(v.in_members_of(x, y));
    }
}

/// Deleting a user keeps the membership maps consistent.
pub proof fn lemma_remove_user_consistent(v: RegistryView, u: Seq<char>)
    requires
        v.consistent(),
    ensures
        v.remove_user(u).consistent(),
{
    let w = v.remove_user(u);
    assert forall|x: Seq<char>, y: Seq<char>| #[trigger] w.in_rooms_of(x, y) implies w.in_members_of(x, y) by {
        assert(v.in_rooms_of(x, y));
    }
    assert forall|x: Seq<char>, y: Seq<char>| #[trigger] w.in_members_of(x, y) implies w.in_rooms_of(x, y) by {
        assert(v.in_members_of(x, y));
    }
}

/// Deleting a room keeps the membership maps consistent.
pub proof fn lemma_remove_room_consistent(v: RegistryView, r: Seq<char>)
    requires
        v.consistent(),
    ensures
        v.remove_room(r).consistent(),
{
    let w = v.remove_room(r);
    assert forall|x: Seq<char>, y: Seq<char>| #[trigger] w.in_rooms_of(x, y) implies w.in_members_of(x, y) by {
        assert(v.in_rooms_of(x, y));
    }
    assert forall|x: Seq<char>, y: Seq<char>| #[trigger] w.in_members_of(x, y) implies w.in_rooms_of(x, y) by {
        assert(v.in_members_of(x, y));
    }
}

} // verus!
