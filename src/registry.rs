//! The registry: the authoritative store of users, rooms, both membership
//! maps, presence, and each user's delivery channel.
//!
//! Every mutation takes `&mut self`, so one owner (or one lock around the
//! registry) applies each join, leave or delete to both maps as a single step.

use std::sync::Arc;
use tokio::sync::broadcast::{Receiver, Sender};
use vstd::prelude::*;

use crate::channel::{new_sender, send, subscribe, CHANNEL_CAPACITY};
use crate::error::RoomError;
use crate::message::{ChannelMessage, Fanout, Room, User};
use crate::model::{
    delivered, distinct, lemma_add_room_consistent, lemma_add_user_consistent, lemma_connect_consistent,
    lemma_join_consistent, lemma_leave_consistent, lemma_names_empty, lemma_names_push,
    lemma_disconnect_consistent, lemma_names_remove, lemma_names_same, lemma_remove_room_consistent,
    lemma_remove_user_consistent, left_notice_ok, left_notices, left_notices_so_far, names, registered_recipients, sent_to, taken, undelivered, views,
    RegistryView, SendRecord,
};

verus! {

pub struct Registry {
    users: Vec<String>,
    /// `user_rooms[i]` holds the rooms of `users[i]`.
    user_rooms: Vec<Vec<String>>,
    /// `connected[i]` tells whether `users[i]` has a live session.
    connected: Vec<bool>,
    /// `senders[i]` is the delivery channel of `users[i]`.
    senders: Vec<Sender<Arc<ChannelMessage>>>,
    rooms: Vec<String>,
    /// `room_users[j]` holds the members of `rooms[j]`.
    room_users: Vec<Vec<String>>,
    model: Ghost<RegistryView>,
    /// The user of each subscription to a delivery channel, oldest first.
    subscriptions: Ghost<Seq<Seq<char>>>,
    /// Each message handed to a delivery channel, oldest first.
    sends: Ghost<Seq<SendRecord>>,
}

impl View for Registry {
    type V = RegistryView;

    closed spec fn view(&self) -> RegistryView {
        self.model@
    }
}

/// Index of `name` in `v`, if it is there.
fn find_name(v: &Vec<String>, name: &String) -> (r: Option<usize>)
    ensures
        match r {
            Some(k) => k < v@.len() && v@[k as int]@ == name@,
            None => !names(v@).contains(name@),
        },
{
    let mut k: usize = 0;
    while k < v.len()
        invariant
            k <= v@.len(),
            forall|a: int| 0 <= a < k ==> #[trigger] v@[a]@ != name@,
        decreases v@.len() - k,
    {
        if v[k] == *name {
            return Some(k);
        }
        k += 1;
    }
    None
}

/// A copy of a list of names.
pub(crate) fn copy_names(v: &Vec<String>) -> (r: Vec<String>)
    ensures
        names(r@) == names(v@),
        distinct(r@) == distinct(v@),
{
    let mut r: Vec<String> = Vec::new();
    let mut k: usize = 0;
    while k < v.len()
        invariant
            k <= v@.len(),
            r@.len() == k,
            forall|a: int| 0 <= a < k ==> #[trigger] r@[a]@ == v@[a]@,
        decreases v@.len() - k,
    {
        r.push(v[k].clone());
        k += 1;
    }
    proof {
        lemma_names_same(r@, v@);
    }
    r
}

impl Registry {
    spec fn user_entry_ok(&self, i: int) -> bool {
        &&& distinct(self.user_rooms@[i]@)
        &&& self.model@.user_rooms[self.users@[i]@] == names(self.user_rooms@[i]@)
        &&& (self.connected@[i] <==> self.model@.connected.contains(self.users@[i]@))
    }

    spec fn room_entry_ok(&self, j: int) -> bool {
        &&& distinct(self.room_users@[j]@)
        &&& self.model@.room_users[self.rooms@[j]@] == names(self.room_users@[j]@)
    }

    /// Whose delivery channel each receiver handed out by
    /// [`Registry::connect`] listens to, oldest first.
    pub closed spec fn subscriptions(&self) -> Seq<Seq<char>> {
        self.subscriptions@
    }

    /// Every message handed to a user's delivery channel, oldest first.
    pub closed spec fn sends(&self) -> Seq<SendRecord> {
        self.sends@
    }

    /// Both channel logs together.
    pub open spec fn logs(&self) -> (Seq<Seq<char>>, Seq<SendRecord>) {
        (self.subscriptions(), self.sends())
    }

    /// The vectors hold exactly the model, each name once.
    pub closed spec fn wf(&self) -> bool {
        &&& self.user_rooms@.len() == self.users@.len()
        &&& self.connected@.len() == self.users@.len()
        &&& self.senders@.len() == self.users@.len()
        &&& self.room_users@.len() == self.rooms@.len()
        &&& distinct(self.users@)
        &&& distinct(self.rooms@)
        &&& self.model@.user_rooms.dom() == names(self.users@)
        &&& self.model@.room_users.dom() == names(self.rooms@)
        &&& forall|i: int| 0 <= i < self.users@.len() ==> #[trigger] self.user_entry_ok(i)
        &&& forall|j: int| 0 <= j < self.rooms@.len() ==> #[trigger] self.room_entry_ok(j)
        &&& self.model@.consistent()
    }

    /// A well-formed registry's membership maps are consistent.
    pub proof fn lemma_wf_consistent(&self)
        requires
            self.wf(),
        ensures
            self@.consistent(),
    {
    }

    /// An empty registry.
    pub fn new() -> (r: Registry)
        ensures
            r.wf(),
            r@ == RegistryView::empty(),
            r.subscriptions() == Seq::<Seq<char>>::empty(),
            r.sends() == Seq::<SendRecord>::empty(),
    {
        let r = Registry {
            users: Vec::new(),
            user_rooms: Vec::new(),
            connected: Vec::new(),
            senders: Vec::new(),
            rooms: Vec::new(),
            room_users: Vec::new(),
            model: Ghost(RegistryView::empty()),
            subscriptions: Ghost(Seq::empty()),
            sends: Ghost(Seq::empty()),
        };
        proof {
            lemma_names_empty(r.users@);
            lemma_names_empty(r.rooms@);
        }
        r
    }

    fn user_index(&self, name: &String) -> (r: Option<usize>)
        requires
            self.wf(),
        ensures
            match r {
                Some(i) => i < self.users@.len() && self.users@[i as int]@ == name@,
                None => !self@.users().contains(name@),
            },
    {
        find_name(&self.users, name)
    }

    fn room_index(&self, name: &String) -> (r: Option<usize>)
        requires
            self.wf(),
        ensures
            match r {
                Some(j) => j < self.rooms@.len() && self.rooms@[j as int]@ == name@,
                None => !self@.rooms().contains(name@),
            },
    {
        find_name(&self.rooms, name)
    }

    proof fn lemma_user_index(&self, i: int)
        requires
            self.wf(),
            0 <= i < self.users@.len(),
        ensures
            self@.users().contains(self.users@[i]@),
            self@.user_rooms[self.users@[i]@] == names(self.user_rooms@[i]@),
            distinct(self.user_rooms@[i]@),
            self.connected@[i] <==> self@.connected.contains(self.users@[i]@),
    {
        assert(self.user_entry_ok(i));
        assert(names(self.users@).contains(self.users@[i]@));
    }

    proof fn lemma_room_index(&self, j: int)
        requires
            self.wf(),
            0 <= j < self.rooms@.len(),
        ensures
            self@.rooms().contains(self.rooms@[j]@),
            self@.room_users[self.rooms@[j]@] == names(self.room_users@[j]@),
            distinct(self.room_users@[j]@),
    {
        assert(self.room_entry_ok(j));
        assert(names(self.rooms@).contains(self.rooms@[j]@));
    }

    /// Registers a user with no rooms and a fresh delivery channel.
    pub fn register_user(&mut self, name: String) -> (r: Result<User, RoomError>)
        requires
            old(self).wf(),
        ensures
            final(self).wf(),
            final(self).logs() == old(self).logs(),
            old(self)@.users().contains(name@) ==> r == Err::<User, RoomError>(RoomError::AlreadyExists)
                && final(self)@ == old(self)@,
            !old(self)@.users().contains(name@) ==> (r matches Ok(u) && u.name@ == name@
                && final(self)@ == old(self)@.add_user(name@)),
    {
        if self.user_index(&name).is_some() {
            return Err(RoomError::AlreadyExists);
        }
        let ghost pre = self@;
        let ghost pre_users = self.users@;
        let user = User { name: name.clone() };
        self.users.push(name);
        self.user_rooms.push(Vec::new());
        self.connected.push(false);
        self.senders.push(new_sender(CHANNEL_CAPACITY));
        proof {
            lemma_names_push(pre_users, self.users@.last());
            lemma_add_user_consistent(pre, user.name@);
            self.model = Ghost(pre.add_user(user.name@));
            let n = pre_users.len() as int;
            lemma_names_empty(self.user_rooms@[n]@);
            assert forall|i: int| 0 <= i < self.users@.len() implies #[trigger] self.user_entry_ok(i) by {
                if i < n {
                    assert(old(self).user_entry_ok(i));
                    assert(pre_users[i]@ != user.name@);
                }
            }
            assert forall|j: int| 0 <= j < self.rooms@.len() implies #[trigger] self.room_entry_ok(j) by {
                assert(old(self).room_entry_ok(j));
            }
        }
        Ok(user)
    }

    /// Creates a room with no members.
    pub fn create_room(&mut self, name: String) -> (r: Result<Room, RoomError>)
        requires
            old(self).wf(),
        ensures
            final(self).wf(),
            final(self).logs() == old(self).logs(),
            old(self)@.rooms().contains(name@) ==> r == Err::<Room, RoomError>(RoomError::AlreadyExists)
                && final(self)@ == old(self)@,
            !old(self)@.rooms().contains(name@) ==> (r matches Ok(room) && room.name@ == name@
                && final(self)@ == old(self)@.add_room(name@)),
    {
        if self.room_index(&name).is_some() {
            return Err(RoomError::AlreadyExists);
        }
        let ghost pre = self@;
        let ghost pre_rooms = self.rooms@;
        let room = Room { name: name.clone() };
        self.rooms.push(name);
        self.room_users.push(Vec::new());
        proof {
            lemma_names_push(pre_rooms, self.rooms@.last());
            lemma_add_room_consistent(pre, room.name@);
            self.model = Ghost(pre.add_room(room.name@));
            let n = pre_rooms.len() as int;
            lemma_names_empty(self.room_users@[n]@);
            assert forall|i: int| 0 <= i < self.users@.len() implies #[trigger] self.user_entry_ok(i) by {
                assert(old(self).user_entry_ok(i));
            }
            assert forall|j: int| 0 <= j < self.rooms@.len() implies #[trigger] self.room_entry_ok(j) by {
                if j < n {
                    assert(old(self).room_entry_ok(j));
                    assert(pre_rooms[j]@ != room.name@);
                }
            }
        }
        Ok(room)
    }
    /// Adds `rooms[j]` to the rooms of `users[i]` and `users[i]` to the
    /// members of `rooms[j]`, as one step.
    fn join_at(&mut self, i: usize, j: usize)
        requires
            old(self).wf(),
            i < old(self).users@.len(),
            j < old(self).rooms@.len(),
            !old(self)@.in_rooms_of(old(self).users@[i as int]@, old(self).rooms@[j as int]@),
        ensures
            final(self).wf(),
            final(self).logs() == old(self).logs(),
            final(self).users@ == old(self).users@,
            final(self).rooms@ == old(self).rooms@,
            final(self)@ == old(self)@.join(old(self).users@[i as int]@, old(self).rooms@[j as int]@),
    {
        let ghost pre = self@;
        let ghost u = self.users@[i as int]@;
        let ghost rn = self.rooms@[j as int]@;
        let ghost old_ur = self.user_rooms@[i as int]@;
        let ghost old_ru = self.room_users@[j as int]@;
        proof {
            self.lemma_user_index(i as int);
            self.lemma_room_index(j as int);
            assert(!pre.in_members_of(u, rn));
        }
        let room_name = self.rooms[j].clone();
        let user_name = self.users[i].clone();
        self.user_rooms[i].push(room_name);
        self.room_users[j].push(user_name);
        proof {
            lemma_names_push(old_ur, self.user_rooms@[i as int]@.last());
            lemma_names_push(old_ru, self.room_users@[j as int]@.last());
            lemma_join_consistent(pre, u, rn);
            self.model = Ghost(pre.join(u, rn));
            assert forall|k: int| 0 <= k < self.users@.len() implies #[trigger] self.user_entry_ok(k) by {
                if k != i {
                    assert(old(self).user_entry_ok(k));
                    assert(self.users@[k]@ != u);
                }
            }
            assert forall|k: int| 0 <= k < self.rooms@.len() implies #[trigger] self.room_entry_ok(k) by {
                if k != j {
                    assert(old(self).room_entry_ok(k));
                    assert(self.rooms@[k]@ != rn);
                }
            }
            assert(self.model@.user_rooms.dom() =~= pre.user_rooms.dom());
            assert(self.model@.room_users.dom() =~= pre.room_users.dom());
        }
    }

    /// Takes `rooms[j]` out of the rooms of `users[i]` and `users[i]` out of
    /// the members of `rooms[j]`, as one step.
    fn leave_at(&mut self, i: usize, j: usize)
        requires
            old(self).wf(),
            i < old(self).users@.len(),
            j < old(self).rooms@.len(),
            old(self)@.in_rooms_of(old(self).users@[i as int]@, old(self).rooms@[j as int]@),
        ensures
            final(self).wf(),
            final(self).logs() == old(self).logs(),
            final(self).users@ == old(self).users@,
            final(self).rooms@ == old(self).rooms@,
            final(self)@ == old(self)@.leave(old(self).users@[i as int]@, old(self).rooms@[j as int]@),
            final(self).user_rooms@[i as int]@.len() == old(self).user_rooms@[i as int]@.len() - 1,
            final(self).room_users@[j as int]@.len() == old(self).room_users@[j as int]@.len() - 1,
    {
        let ghost pre = self@;
        let ghost u = self.users@[i as int]@;
        let ghost rn = self.rooms@[j as int]@;
        let ghost old_ur = self.user_rooms@[i as int]@;
        let ghost old_ru = self.room_users@[j as int]@;
        proof {
            self.lemma_user_index(i as int);
            self.lemma_room_index(j as int);
            assert(pre.in_members_of(u, rn));
        }
        let a = match find_name(&self.user_rooms[i], &self.rooms[j]) {
            Some(a) => a,
            None => {
                proof {
                    assert(false);
                }
                return ;
            },
        };
        let b = match find_name(&self.room_users[j], &self.users[i]) {
            Some(b) => b,
            None => {
                proof {
                    assert(false);
                }
                return ;
            },
        };
        self.user_rooms[i].remove(a);
        self.room_users[j].remove(b);
        proof {
            lemma_names_remove(old_ur, a as int);
            lemma_names_remove(old_ru, b as int);
            lemma_leave_consistent(pre, u, rn);
            self.model = Ghost(pre.leave(u, rn));
            assert forall|k: int| 0 <= k < self.users@.len() implies #[trigger] self.user_entry_ok(k) by {
                if k != i {
                    assert(old(self).user_entry_ok(k));
                    assert(self.users@[k]@ != u);
                }
            }
            assert forall|k: int| 0 <= k < self.rooms@.len() implies #[trigger] self.room_entry_ok(k) by {
                if k != j {
                    assert(old(self).room_entry_ok(k));
                    assert(self.rooms@[k]@ != rn);
                }
            }
            assert(self.model@.user_rooms.dom() =~= pre.user_rooms.dom());
            assert(self.model@.room_users.dom() =~= pre.room_users.dom());
        }
    }

    /// Adds `user` to `room`; both must exist and `user` must not be a member
    /// yet.
    pub fn join_room(&mut self, user: &str, room: &str) -> (r: Result<(), RoomError>)
        requires
            old(self).wf(),
        ensures
            final(self).wf(),
            final(self).logs() == old(self).logs(),
            match old(self)@.join_error(user@, room@) {
                Some(e) => r == Err::<(), RoomError>(e) && final(self)@ == old(self)@,
                None => r == Ok::<(), RoomError>(()) && final(self)@ == old(self)@.join(user@, room@),
            },
    {
        let user_name = user.to_owned();
        let room_name = room.to_owned();
        let i = match self.user_index(&user_name) {
            Some(i) => i,
            None => return Err(RoomError::UserNotFound),
        };
        let j = match self.room_index(&room_name) {
            Some(j) => j,
            None => return Err(RoomError::RoomNotFound),
        };
        proof {
            self.lemma_user_index(i as int);
        }
        if find_name(&self.user_rooms[i], &room_name).is_some() {
            return Err(RoomError::AlreadyMember);
        }
        self.join_at(i, j);
        Ok(())
    }

    /// Takes `user` out of `room`; both must exist and `user` must be a
    /// member.
    pub fn leave_room(&mut self, user: &str, room: &str) -> (r: Result<(), RoomError>)
        requires
            old(self).wf(),
        ensures
            final(self).wf(),
            final(self).logs() == old(self).logs(),
            match old(self)@.member_error(user@, room@) {
                Some(e) => r == Err::<(), RoomError>(e) && final(self)@ == old(self)@,
                None => r == Ok::<(), RoomError>(()) && final(self)@ == old(self)@.leave(user@, room@),
            },
    {
        let user_name = user.to_owned();
        let room_name = room.to_owned();
        let i = match self.user_index(&user_name) {
            Some(i) => i,
            None => return Err(RoomError::UserNotFound),
        };
        let j = match self.room_index(&room_name) {
            Some(j) => j,
            None => return Err(RoomError::RoomNotFound),
        };
        proof {
            self.lemma_user_index(i as int);
        }
        if find_name(&self.user_rooms[i], &room_name).is_none() {
            return Err(RoomError::NotMember);
        }
        self.leave_at(i, j);
        Ok(())
    }

    /// Whether `room` is among the rooms of `user`.
    pub fn is_user_in_room(&self, user: &str, room: &str) -> (r: bool)
        requires
            self.wf(),
        ensures
            r == self@.in_rooms_of(user@, room@),
    {
        let user_name = user.to_owned();
        let room_name = room.to_owned();
        match self.user_index(&user_name) {
            Some(i) => {
                proof {
                    self.lemma_user_index(i as int);
                }
                find_name(&self.user_rooms[i], &room_name).is_some()
            },
            None => false,
        }
    }

    /// The members of `room`, each once.
    pub fn members_of(&self, room: &str) -> (r: Result<Vec<String>, RoomError>)
        requires
            self.wf(),
        ensures
            !self@.rooms().contains(room@) ==> (r matches Err(e) && e == RoomError::RoomNotFound),
            self@.rooms().contains(room@) ==> (r matches Ok(v) && names(v@) == self@.room_users[room@]
                && distinct(v@)),
    {
        let room_name = room.to_owned();
        match self.room_index(&room_name) {
            Some(j) => {
                proof {
                    self.lemma_room_index(j as int);
                }
                Ok(copy_names(&self.room_users[j]))
            },
            None => Err(RoomError::RoomNotFound),
        }
    }

    /// The rooms of `user`, each once.
    pub fn rooms_of(&self, user: &str) -> (r: Result<Vec<String>, RoomError>)
        requires
            self.wf(),
        ensures
            !self@.users().contains(user@) ==> (r matches Err(e) && e == RoomError::UserNotFound),
            self@.users().contains(user@) ==> (r matches Ok(v) && names(v@) == self@.user_rooms[user@]
                && distinct(v@)),
    {
        let user_name = user.to_owned();
        match self.user_index(&user_name) {
            Some(i) => {
                proof {
                    self.lemma_user_index(i as int);
                }
                Ok(copy_names(&self.user_rooms[i]))
            },
            None => Err(RoomError::UserNotFound),
        }
    }

    /// The names of all registered users, each once.
    pub fn user_names(&self) -> (r: Vec<String>)
        requires
            self.wf(),
        ensures
            names(r@) == self@.users(),
            distinct(r@),
    {
        copy_names(&self.users)
    }

    /// The names of all rooms, each once.
    pub fn room_names(&self) -> (r: Vec<String>)
        requires
            self.wf(),
        ensures
            names(r@) == self@.rooms(),
            distinct(r@),
    {
        copy_names(&self.rooms)
    }

    /// Every user with its rooms: one entry per user.
    pub fn user_rooms_table(&self) -> (r: Vec<(String, Vec<String>)>)
        requires
            self.wf(),
        ensures
            forall|k: int|
                #![trigger r@[k]]
                0 <= k < r@.len() ==> self@.users().contains(r@[k].0@) && names(r@[k].1@)
                    == self@.user_rooms[r@[k].0@] && distinct(r@[k].1@),
            forall|u: Seq<char>|
                self@.users().contains(u) ==> exists|k: int| 0 <= k < r@.len() && #[trigger] r@[k].0@ == u,
            forall|a: int, b: int|
                #![trigger r@[a], r@[b]]
                0 <= a < r@.len() && 0 <= b < r@.len() && a != b ==> r@[a].0@ != r@[b].0@,
    {
        let mut r: Vec<(String, Vec<String>)> = Vec::new();
        let mut k: usize = 0;
        while k < self.users.len()
            invariant
                self.wf(),
                k <= self.users@.len(),
                r@.len() == k,
                forall|a: int|
                    #![trigger r@[a]]
                    0 <= a < k ==> r@[a].0@ == self.users@[a]@ && names(r@[a].1@)
                        == self@.user_rooms[r@[a].0@] && distinct(r@[a].1@),
            decreases self.users@.len() - k,
        {
            proof {
                self.lemma_user_index(k as int);
            }
            r.push((self.users[k].clone(), copy_names(&self.user_rooms[k])));
            k += 1;
        }
        proof {
            assert forall|a: int| #![trigger r@[a]] 0 <= a < r@.len() implies self@.users().contains(
                r@[a].0@,
            ) by {
                self.lemma_user_index(a);
            }
            assert forall|u: Seq<char>| self@.users().contains(u) implies exists|k: int|
                0 <= k < r@.len() && #[trigger] r@[k].0@ == u by {
                assert(names(self.users@).contains(u));
                let k = choose|k: int| 0 <= k < self.users@.len() && #[trigger] self.users@[k]@ == u;
                assert(r@[k].0@ == u);
            }
            assert forall|a: int, b: int|
                #![trigger r@[a], r@[b]]
                0 <= a < r@.len() && 0 <= b < r@.len() && a != b implies r@[a].0@ != r@[b].0@ by {
                assert(self.users@[a]@ != self.users@[b]@);
            }
        }
        r
    }

    /// Every room with its members: one entry per room.
    pub fn room_users_table(&self) -> (r: Vec<(String, Vec<String>)>)
        requires
            self.wf(),
        ensures
            forall|k: int|
                #![trigger r@[k]]
                0 <= k < r@.len() ==> self@.rooms().contains(r@[k].0@) && names(r@[k].1@)
                    == self@.room_users[r@[k].0@] && distinct(r@[k].1@),
            forall|x: Seq<char>|
                self@.rooms().contains(x) ==> exists|k: int| 0 <= k < r@.len() && #[trigger] r@[k].0@ == x,
            forall|a: int, b: int|
                #![trigger r@[a], r@[b]]
                0 <= a < r@.len() && 0 <= b < r@.len() && a != b ==> r@[a].0@ != r@[b].0@,
    {
        let mut r: Vec<(String, Vec<String>)> = Vec::new();
        let mut k: usize = 0;
        while k < self.rooms.len()
            invariant
                self.wf(),
                k <= self.rooms@.len(),
                r@.len() == k,
                forall|a: int|
                    #![trigger r@[a]]
                    0 <= a < k ==> r@[a].0@ == self.rooms@[a]@ && names(r@[a].1@)
                        == self@.room_users[r@[a].0@] && distinct(r@[a].1@),
            decreases self.rooms@.len() - k,
        {
            proof {
                self.lemma_room_index(k as int);
            }
            r.push((self.rooms[k].clone(), copy_names(&self.room_users[k])));
            k += 1;
        }
        proof {
            assert forall|a: int| #![trigger r@[a]] 0 <= a < r@.len() implies self@.rooms().contains(
                r@[a].0@,
            ) by {
                self.lemma_room_index(a);
            }
            assert forall|x: Seq<char>| self@.rooms().contains(x) implies exists|k: int|
                0 <= k < r@.len() && #[trigger] r@[k].0@ == x by {
                assert(names(self.rooms@).contains(x));
                let k = choose|k: int| 0 <= k < self.rooms@.len() && #[trigger] self.rooms@[k]@ == x;
                assert(r@[k].0@ == x);
            }
            assert forall|a: int, b: int|
                #![trigger r@[a], r@[b]]
                0 <= a < r@.len() && 0 <= b < r@.len() && a != b implies r@[a].0@ != r@[b].0@ by {
                assert(self.rooms@[a]@ != self.rooms@[b]@);
            }
        }
        r
    }

    /// Whether `user` has a live session.
    pub fn is_connected(&self, user: &str) -> (r: bool)
        requires
            self.wf(),
        ensures
            r == self@.connected.contains(user@),
    {
        let user_name = user.to_owned();
        match self.user_index(&user_name) {
            Some(i) => {
                proof {
                    self.lemma_user_index(i as int);
                }
                self.connected[i]
            },
            None => false,
        }
    }

    /// Marks `user` connected and subscribes to its delivery channel. At most
    /// one session per user: a second attempt is refused.
    pub fn connect(&mut self, user: &str) -> (r: Result<Receiver<Arc<ChannelMessage>>, RoomError>)
        requires
            old(self).wf(),
        ensures
            final(self).wf(),
            final(self).sends() == old(self).sends(),
            match old(self)@.connect_error(user@) {
                Some(e) => (r matches Err(x) && x == e) && final(self)@ == old(self)@
                    && final(self).subscriptions() == old(self).subscriptions(),
                None => r is Ok && final(self)@ == old(self)@.connect(user@)
                    && final(self).subscriptions() == old(self).subscriptions().push(user@),
            },
    {
        let user_name = user.to_owned();
        let i = match self.user_index(&user_name) {
            Some(i) => i,
            None => return Err(RoomError::UserNotFound),
        };
        proof {
            self.lemma_user_index(i as int);
        }
        if self.connected[i] {
            return Err(RoomError::AlreadyConnected);
        }
        let ghost pre = self@;
        self.connected.set(i, true);
        proof {
            lemma_connect_consistent(pre, user@);
            self.model = Ghost(pre.connect(user@));
            assert forall|k: int| 0 <= k < self.users@.len() implies #[trigger] self.user_entry_ok(k) by {
                assert(old(self).user_entry_ok(k));
                if k != i {
                    assert(self.users@[k]@ != user@);
                }
            }
            assert forall|k: int| 0 <= k < self.rooms@.len() implies #[trigger] self.room_entry_ok(k) by {
                assert(old(self).room_entry_ok(k));
            }
        }
        let receiver = subscribe(&self.senders[i]);
        let ghost mid = *self;
        proof {
            self.subscriptions = Ghost(self.subscriptions@.push(self.users@[i as int]@));
            assert forall|k: int| 0 <= k < self.users@.len() implies #[trigger] self.user_entry_ok(k) by {
                assert(mid.user_entry_ok(k));
            }
            assert forall|k: int| 0 <= k < self.rooms@.len() implies #[trigger] self.room_entry_ok(k) by {
                assert(mid.room_entry_ok(k));
            }
        }
        Ok(receiver)
    }
    /// Takes `users[i]` out of every room, one leave at a time, and returns
    /// the "left" notice of each room for its remaining members.
    fn leave_all_at(&mut self, i: usize) -> (r: Vec<Fanout>)
        requires
            old(self).wf(),
            i < old(self).users@.len(),
        ensures
            final(self).wf(),
            final(self).logs() == old(self).logs(),
            final(self).users@ == old(self).users@,
            final(self).rooms@ == old(self).rooms@,
            final(self)@.connected == old(self)@.connected,
            final(self)@.user_rooms == old(self)@.user_rooms.insert(
                old(self).users@[i as int]@,
                Set::empty(),
            ),
            final(self)@.room_users == old(self)@.disconnect(old(self).users@[i as int]@).room_users,
            left_notices(r@, old(self)@, old(self).users@[i as int]@),
    {
        let ghost pre = self@;
        let ghost u = self.users@[i as int]@;
        let user_name = self.users[i].clone();
        let mut out: Vec<Fanout> = Vec::new();
        proof {
            self.lemma_user_index(i as int);
            assert forall|x: Seq<char>|
                #![trigger self@.room_users[x]]
                pre.room_users.contains_key(x) implies self@.room_users[x] == if self@.user_rooms[u].contains(x) {
                    pre.room_users[x]
                } else {
                    pre.room_users[x].remove(u)
                } by {
                if !pre.user_rooms[u].contains(x) {
                    assert(!pre.in_rooms_of(u, x));
                    assert(!pre.in_members_of(u, x));
                    assert(pre.room_users[x].remove(u) =~= pre.room_users[x]);
                }
            }
        }
        while self.user_rooms[i].len() > 0
            invariant
                self.wf(),
                self.logs() == old(self).logs(),
                self.users@ == old(self).users@,
                self.rooms@ == old(self).rooms@,
                i < self.users@.len(),
                self.users@[i as int]@ == u,
                user_name@ == u,
                pre == old(self)@,
                pre.consistent(),
                pre.users().contains(u),
                self@.connected == pre.connected,
                self@.user_rooms.dom() == pre.user_rooms.dom(),
                self@.room_users.dom() == pre.room_users.dom(),
                forall|x: Seq<char>|
                    #![trigger self@.user_rooms[x]]
                    x != u && pre.user_rooms.contains_key(x) ==> self@.user_rooms[x] == pre.user_rooms[x],
                self@.user_rooms[u].subset_of(pre.user_rooms[u]),
                forall|x: Seq<char>|
                    #![trigger self@.room_users[x]]
                    pre.room_users.contains_key(x) ==> self@.room_users[x] == if self@.user_rooms[u].contains(x) {
                        pre.room_users[x]
                    } else {
                        pre.room_users[x].remove(u)
                    },
                forall|k: int|
                    #![trigger out@[k]]
                    0 <= k < out@.len() ==> !self@.user_rooms[u].contains(out@[k].message.room.name@),
                forall|x: Seq<char>|
                    pre.user_rooms[u].contains(x) && !self@.user_rooms[u].contains(x) ==> exists|k: int|
                        0 <= k < out@.len() && #[trigger] out@[k].message.room.name@ == x,
                left_notices_so_far(out@, pre, u),
            decreases self.user_rooms@[i as int]@.len(),
        {
            proof {
                self.lemma_user_index(i as int);
            }
            let last = self.user_rooms[i].len() - 1;
            let room_name = self.user_rooms[i][last].clone();
            let ghost rn = room_name@;
            proof {
                assert(names(self.user_rooms@[i as int]@).contains(rn));
                assert(self@.in_rooms_of(u, rn));
                assert(self@.in_members_of(u, rn));
            }
            let j = match self.room_index(&room_name) {
                Some(j) => j,
                None => {
                    proof {
                        assert(false);
                    }
                    return out;
                },
            };
            let ghost mid = self@;
            let ghost prev_out = out@;
            self.leave_at(i, j);
            proof {
                self.lemma_room_index(j as int);
            }
            let recipients = copy_names(&self.room_users[j]);
            let text = user_name.clone().concat(" left ").concat(room_name.as_str());
            let notice = Fanout {
                message: ChannelMessage {
                    room: Room { name: room_name },
                    from: Some(user_name.clone()),
                    message: text,
                },
                recipients,
            };
            out.push(notice);
            proof {
                assert(self@.room_users[rn] == pre.room_users[rn].remove(u));
                assert forall|x: Seq<char>|
                    #![trigger self@.user_rooms[x]]
                    x != u && pre.user_rooms.contains_key(x) implies self@.user_rooms[x] == pre.user_rooms[x] by {
                    assert(mid.user_rooms[x] == pre.user_rooms[x]);
                }
                assert forall|x: Seq<char>|
                    #![trigger self@.room_users[x]]
                    pre.room_users.contains_key(x) implies self@.room_users[x] == if self@.user_rooms[u].contains(x) {
                        pre.room_users[x]
                    } else {
                        pre.room_users[x].remove(u)
                    } by {
                    assert(mid.room_users[x] == if mid.user_rooms[u].contains(x) {
                        pre.room_users[x]
                    } else {
                        pre.room_users[x].remove(u)
                    });
                }
                assert forall|k: int|
                    #![trigger out@[k]]
                    0 <= k < out@.len() implies !self@.user_rooms[u].contains(out@[k].message.room.name@) by {
                    if k < prev_out.len() {
                        assert(out@[k] == prev_out[k]);
                    }
                }
                assert forall|x: Seq<char>|
                    pre.user_rooms[u].contains(x) && !self@.user_rooms[u].contains(x) implies exists|k: int|
                        0 <= k < out@.len() && #[trigger] out@[k].message.room.name@ == x by {
                    if x == rn {
                        assert(out@[prev_out.len() as int].message.room.name@ == x);
                    } else {
                        let k = choose|k: int| 0 <= k < prev_out.len() && #[trigger] prev_out[k].message.room.name@ == x;
                        assert(out@[k] == prev_out[k]);
                    }
                }
                assert forall|k: int|
                    #![trigger out@[k]]
                    0 <= k < out@.len() implies left_notice_ok(out@[k], pre, u) by {
                    if k < prev_out.len() {
                        assert(out@[k] == prev_out[k]);
                    }
                }
                assert forall|a: int, b: int|
                    #![trigger out@[a], out@[b]]
                    0 <= a < out@.len() && 0 <= b < out@.len() && a != b
                        implies out@[a].message.room.name@ != out@[b].message.room.name@ by {
                    if a < prev_out.len() && b < prev_out.len() {
                        assert(out@[a] == prev_out[a]);
                        assert(out@[b] == prev_out[b]);
                    } else if a < prev_out.len() {
                        assert(out@[a] == prev_out[a]);
                        assert(mid.user_rooms[u].contains(rn));
                    } else {
                        assert(out@[b] == prev_out[b]);
                        assert(mid.user_rooms[u].contains(rn));
                    }
                }
            }
        }
        proof {
            self.lemma_user_index(i as int);
            lemma_names_empty(self.user_rooms@[i as int]@);
            assert(self@.user_rooms =~= pre.user_rooms.insert(u, Set::empty()));
            assert(self@.room_users =~= pre.disconnect(u).room_users);
        }
        out
    }

    /// Session cleanup: `user` leaves every room (each room's remaining
    /// members get a "left" notice) and is no longer connected. An unknown
    /// user changes nothing.
    pub fn disconnect(&mut self, user: &str) -> (r: Vec<Fanout>)
        requires
            old(self).wf(),
        ensures
            final(self).wf(),
            final(self).logs() == old(self).logs(),
            !old(self)@.users().contains(user@) ==> r@.len() == 0 && final(self)@ == old(self)@,
            old(self)@.users().contains(user@) ==> final(self)@ == old(self)@.disconnect(user@)
                && left_notices(r@, old(self)@, user@),
    {
        let user_name = user.to_owned();
        let i = match self.user_index(&user_name) {
            Some(i) => i,
            None => return Vec::new(),
        };
        let ghost pre = self@;
        let out = self.leave_all_at(i);
        let ghost mid = *self;
        self.connected.set(i, false);
        proof {
            lemma_disconnect_consistent(pre, user@);
            self.model = Ghost(pre.disconnect(user@));
            assert(self.model@.user_rooms == mid@.user_rooms);
            assert(self.model@.room_users == mid@.room_users);
            assert forall|k: int| 0 <= k < self.users@.len() implies #[trigger] self.user_entry_ok(k) by {
                assert(mid.user_entry_ok(k));
                if k != i {
                    assert(self.users@[k]@ != user@);
                }
            }
            assert forall|k: int| 0 <= k < self.rooms@.len() implies #[trigger] self.room_entry_ok(k) by {
                assert(mid.room_entry_ok(k));
            }
        }
        out
    }
    /// Deletes `user`: it leaves every room (without notices) and its
    /// entries, presence and channel are dropped.
    pub fn delete_user(&mut self, user: &str) -> (r: Result<User, RoomError>)
        requires
            old(self).wf(),
        ensures
            final(self).wf(),
            final(self).logs() == old(self).logs(),
            !old(self)@.users().contains(user@) ==> (r matches Err(e) && e == RoomError::UserNotFound)
                && final(self)@ == old(self)@,
            old(self)@.users().contains(user@) ==> (r matches Ok(x) && x.name@ == user@) && final(self)@
                == old(self)@.remove_user(user@),
    {
        let user_name = user.to_owned();
        let i = match self.user_index(&user_name) {
            Some(i) => i,
            None => return Err(RoomError::UserNotFound),
        };
        let ghost pre = self@;
        let _ = self.leave_all_at(i);
        let ghost mid = *self;
        let name = self.users.remove(i);
        self.user_rooms.remove(i);
        self.connected.remove(i);
        self.senders.remove(i);
        proof {
            lemma_names_remove(mid.users@, i as int);
            lemma_remove_user_consistent(pre, user@);
            self.model = Ghost(pre.remove_user(user@));
            assert(self.model@.user_rooms.dom() =~= names(self.users@));
            assert(self.model@.room_users == mid@.room_users);
            assert forall|k: int| 0 <= k < self.users@.len() implies #[trigger] self.user_entry_ok(k) by {
                let k2 = if k < i { k } else { k + 1 };
                assert(mid.user_entry_ok(k2));
                assert(self.users@[k] == mid.users@[k2]);
                assert(self.user_rooms@[k] == mid.user_rooms@[k2]);
                assert(self.connected@[k] == mid.connected@[k2]);
                assert(mid.users@[k2]@ != user@);
            }
            assert forall|k: int| 0 <= k < self.rooms@.len() implies #[trigger] self.room_entry_ok(k) by {
                assert(mid.room_entry_ok(k));
            }
        }
        Ok(User { name })
    }

    /// Takes every member out of `rooms[j]`, one leave at a time.
    fn clear_room_at(&mut self, j: usize)
        requires
            old(self).wf(),
            j < old(self).rooms@.len(),
        ensures
            final(self).wf(),
            final(self).logs() == old(self).logs(),
            final(self).users@ == old(self).users@,
            final(self).rooms@ == old(self).rooms@,
            final(self)@.connected == old(self)@.connected,
            final(self)@.room_users == old(self)@.room_users.insert(
                old(self).rooms@[j as int]@,
                Set::empty(),
            ),
            final(self)@.user_rooms == old(self)@.remove_room(old(self).rooms@[j as int]@).user_rooms,
    {
        let ghost pre = self@;
        let ghost rn = self.rooms@[j as int]@;
        proof {
            self.lemma_room_index(j as int);
            assert forall|x: Seq<char>|
                #![trigger self@.user_rooms[x]]
                pre.user_rooms.contains_key(x) implies self@.user_rooms[x] == if self@.room_users[rn].contains(x) {
                    pre.user_rooms[x]
                } else {
                    pre.user_rooms[x].remove(rn)
                } by {
                if !pre.room_users[rn].contains(x) {
                    assert(!pre.in_members_of(x, rn));
                    assert(!pre.in_rooms_of(x, rn));
                    assert(pre.user_rooms[x].remove(rn) =~= pre.user_rooms[x]);
                }
            }
        }
        while self.room_users[j].len() > 0
            invariant
                self.wf(),
                self.logs() == old(self).logs(),
                self.users@ == old(self).users@,
                self.rooms@ == old(self).rooms@,
                j < self.rooms@.len(),
                self.rooms@[j as int]@ == rn,
                pre == old(self)@,
                pre.consistent(),
                pre.rooms().contains(rn),
                self@.connected == pre.connected,
                self@.user_rooms.dom() == pre.user_rooms.dom(),
                self@.room_users.dom() == pre.room_users.dom(),
                forall|x: Seq<char>|
                    #![trigger self@.room_users[x]]
                    x != rn && pre.room_users.contains_key(x) ==> self@.room_users[x] == pre.room_users[x],
                forall|x: Seq<char>|
                    #![trigger self@.user_rooms[x]]
                    pre.user_rooms.contains_key(x) ==> self@.user_rooms[x] == if self@.room_users[rn].contains(x) {
                        pre.user_rooms[x]
                    } else {
                        pre.user_rooms[x].remove(rn)
                    },
            decreases self.room_users@[j as int]@.len(),
        {
            proof {
                self.lemma_room_index(j as int);
            }
            let last = self.room_users[j].len() - 1;
            let user_name = self.room_users[j][last].clone();
            let ghost un = user_name@;
            proof {
                assert(names(self.room_users@[j as int]@).contains(un));
                assert(self@.in_members_of(un, rn));
                assert(self@.in_rooms_of(un, rn));
            }
            let i = match self.user_index(&user_name) {
                Some(i) => i,
                None => {
                    proof {
                        assert(false);
                    }
                    return ;
                },
            };
            let ghost mid = self@;
            self.leave_at(i, j);
            proof {
                assert forall|x: Seq<char>|
                    #![trigger self@.room_users[x]]
                    x != rn && pre.room_users.contains_key(x) implies self@.room_users[x] == pre.room_users[x] by {
                    assert(mid.room_users[x] == pre.room_users[x]);
                }
                assert forall|x: Seq<char>|
                    #![trigger self@.user_rooms[x]]
                    pre.user_rooms.contains_key(x) implies self@.user_rooms[x] == if self@.room_users[rn].contains(x) {
                        pre.user_rooms[x]
                    } else {
                        pre.user_rooms[x].remove(rn)
                    } by {
                    assert(mid.user_rooms[x] == if mid.room_users[rn].contains(x) {
                        pre.user_rooms[x]
                    } else {
                        pre.user_rooms[x].remove(rn)
                    });
                }
            }
        }
        proof {
            self.lemma_room_index(j as int);
            lemma_names_empty(self.room_users@[j as int]@);
            assert(self@.room_users =~= pre.room_users.insert(rn, Set::empty()));
            assert(self@.user_rooms =~= pre.remove_room(rn).user_rooms);
        }
    }

    /// Deletes `room`: every member leaves it (without notices) and the room
    /// is dropped.
    pub fn delete_room(&mut self, room: &str) -> (r: Result<Room, RoomError>)
        requires
            old(self).wf(),
        ensures
            final(self).wf(),
            final(self).logs() == old(self).logs(),
            !old(self)@.rooms().contains(room@) ==> (r matches Err(e) && e == RoomError::RoomNotFound)
                && final(self)@ == old(self)@,
            old(self)@.rooms().contains(room@) ==> (r matches Ok(x) && x.name@ == room@) && final(self)@
                == old(self)@.remove_room(room@),
    {
        let room_name = room.to_owned();
        let j = match self.room_index(&room_name) {
            Some(j) => j,
            None => return Err(RoomError::RoomNotFound),
        };
        let ghost pre = self@;
        self.clear_room_at(j);
        let ghost mid = *self;
        let name = self.rooms.remove(j);
        self.room_users.remove(j);
        proof {
            lemma_names_remove(mid.rooms@, j as int);
            lemma_remove_room_consistent(pre, room@);
            self.model = Ghost(pre.remove_room(room@));
            assert(self.model@.room_users.dom() =~= names(self.rooms@));
            assert(self.model@.user_rooms == mid@.user_rooms);
            assert forall|k: int| 0 <= k < self.rooms@.len() implies #[trigger] self.room_entry_ok(k) by {
                let k2 = if k < j { k } else { k + 1 };
                assert(mid.room_entry_ok(k2));
                assert(self.rooms@[k] == mid.rooms@[k2]);
                assert(self.room_users@[k] == mid.room_users@[k2]);
                assert(mid.rooms@[k2]@ != room@);
            }
            assert forall|k: int| 0 <= k < self.users@.len() implies #[trigger] self.user_entry_ok(k) by {
                assert(mid.user_entry_ok(k));
            }
        }
        Ok(Room { name })
    }
    /// Hands the message of `fanout` to the delivery channel of each
    /// registered recipient, once, in order, without blocking. A recipient
    /// that is not registered, or whose channel has no live receiver, does not
    /// stop delivery to the others; the names of those recipients are
    /// returned.
    pub fn deliver(&mut self, fanout: Fanout) -> (failed: Vec<String>)
        requires
            old(self).wf(),
        ensures
            final(self).wf(),
            final(self)@ == old(self)@,
            final(self).subscriptions() == old(self).subscriptions(),
            delivered(
                old(self).sends(),
                final(self).sends(),
                fanout.recipients@,
                old(self)@.users(),
                fanout.message,
                failed@,
            ),
    {
        let ghost all = fanout.recipients@;
        let ghost message = fanout.message;
        let ghost log = self.sends@;
        let ghost users = self@.users();
        let Fanout { message: m, recipients } = fanout;
        let shared = Arc::new(m);
        let mut failed: Vec<String> = Vec::new();
        let mut k: usize = 0;
        proof {
            assert(all.take(0) =~= Seq::<String>::empty());
            assert(self.sends@.skip(log.len() as int) =~= Seq::<SendRecord>::empty());
            assert(self.sends@.take(log.len() as int) =~= log);
            assert(views(failed@) =~= Seq::<Seq<char>>::empty());
            assert(sent_to(Seq::<SendRecord>::empty()) =~= Seq::<Seq<char>>::empty());
        }
        while k < recipients.len()
            invariant
                self.wf(),
                self@ == old(self)@,
                self.subscriptions() == old(self).subscriptions(),
                users == self@.users(),
                recipients@ == all,
                *shared == message,
                k <= all.len(),
                log == old(self).sends(),
                log.len() <= self.sends@.len(),
                self.sends@.take(log.len() as int) == log,
                sent_to(self.sends@.skip(log.len() as int)) == registered_recipients(all.take(k as int), users),
                forall|x: int|
                    0 <= x < self.sends@.skip(log.len() as int).len() ==> (#[trigger] self.sends@.skip(
                        log.len() as int,
                    )[x]).1 == message,
                views(failed@) == undelivered(all.take(k as int), users, taken(self.sends@.skip(log.len() as int))),
            decreases all.len() - k,
        {
            let ghost run = self.sends@.skip(log.len() as int);
            let ghost before = failed@;
            let ghost name = all[k as int]@;
            proof {
                assert(all.take(k + 1).drop_last() =~= all.take(k as int));
                assert(all.take(k + 1).last() == all[k as int]);
            }
            match self.user_index(&recipients[k]) {
                Some(i) => {
                    let ok = send(&self.senders[i], &shared);
                    let ghost mid = *self;
                    proof {
                        self.sends = Ghost(self.sends@.push((name, message, ok)));
                        assert forall|k: int| 0 <= k < self.users@.len() implies #[trigger] self.user_entry_ok(k) by {
                            assert(mid.user_entry_ok(k));
                        }
                        assert forall|k: int| 0 <= k < self.rooms@.len() implies #[trigger] self.room_entry_ok(k) by {
                            assert(mid.room_entry_ok(k));
                        }
                        let run2 = self.sends@.skip(log.len() as int);
                        assert(run2 =~= run.push((name, message, ok)));
                        assert(self.sends@.take(log.len() as int) =~= log);
                        assert(sent_to(run2) =~= sent_to(run).push(name));
                        assert(taken(run2) =~= taken(run).push(ok));
                        assert(taken(run2).drop_last() =~= taken(run));
                    }
                    if !ok {
                        failed.push(recipients[k].clone());
                    }
                    proof {
                        assert(views(failed@) =~= if ok {
                            views(before)
                        } else {
                            views(before).push(name)
                        });
                    }
                },
                None => {
                    failed.push(recipients[k].clone());
                    proof {
                        assert(views(failed@) =~= views(before).push(name));
                    }
                },
            }
            k += 1;
        }
        proof {
            assert(all.take(k as int) =~= all);
        }
        failed
    }
}

} // verus!
