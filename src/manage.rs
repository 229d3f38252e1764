//! The administrative operations on users and rooms, as the service exposes
//! them: each takes its request payload and reports failures as [`Error`].

use vstd::prelude::*;

use crate::error::{Error, RoomError};
use crate::message::{Room, User};
use crate::model::{distinct, names};
use crate::registry::Registry;

verus! {

pub struct CreateUserPayload {
    pub name: String,
}

pub struct DeleteUserPayload {
    pub name: String,
}

pub struct CreateRoomPayload {
    pub name: String,
}

pub struct DeleteRoomPayload {
    pub name: String,
}

/// Registers a user; a taken name is a conflict.
pub fn create_user(state: &mut Registry, payload: CreateUserPayload) -> (r: Result<User, Error>)
    requires
        old(state).wf(),
    ensures
        final(state).wf(),
        final(state).logs() == old(state).logs(),
        old(state)@.users().contains(payload.name@) ==> r == Err::<User, Error>(
            Error::Room(RoomError::AlreadyExists),
        ) && final(state)@ == old(state)@,
        !old(state)@.users().contains(payload.name@) ==> (r matches Ok(u) && u.name@ == payload.name@)
            && final(state)@ == old(state)@.add_user(payload.name@),
{
    match state.register_user(payload.name) {
        Ok(u) => Ok(u),
        Err(e) => Err(Error::from(e)),
    }
}

/// The names of all users.
pub fn list_user(state: &Registry) -> (r: Vec<String>)
    requires
        state.wf(),
    ensures
        names(r@) == state@.users(),
        distinct(r@),
{
    state.user_names()
}

/// Deletes a user and its memberships.
pub fn delete_user(state: &mut Registry, payload: DeleteUserPayload) -> (r: Result<User, Error>)
    requires
        old(state).wf(),
    ensures
        final(state).wf(),
        final(state).logs() == old(state).logs(),
        !old(state)@.users().contains(payload.name@) ==> r == Err::<User, Error>(
            Error::Room(RoomError::UserNotFound),
        ) && final(state)@ == old(state)@,
        old(state)@.users().contains(payload.name@) ==> (r matches Ok(u) && u.name@ == payload.name@)
            && final(state)@ == old(state)@.remove_user(payload.name@),
{
    match state.delete_user(payload.name.as_str()) {
        Ok(u) => Ok(u),
        Err(e) => Err(Error::from(e)),
    }
}

/// Creates a room; a taken name is a conflict.
pub fn create_room(state: &mut Registry, payload: CreateRoomPayload) -> (r: Result<Room, Error>)
    requires
        old(state).wf(),
    ensures
        final(state).wf(),
        final(state).logs() == old(state).logs(),
        old(state)@.rooms().contains(payload.name@) ==> r == Err::<Room, Error>(
            Error::Room(RoomError::AlreadyExists),
        ) && final(state)@ == old(state)@,
        !old(state)@.rooms().contains(payload.name@) ==> (r matches Ok(x) && x.name@ == payload.name@)
            && final(state)@ == old(state)@.add_room(payload.name@),
{
    match state.create_room(payload.name) {
        Ok(x) => Ok(x),
        Err(e) => Err(Error::from(e)),
    }
}

/// The names of all rooms.
pub fn list_rooms(state: &Registry) -> (r: Vec<String>)
    requires
        state.wf(),
    ensures
        names(r@) == state@.rooms(),
        distinct(r@),
{
    state.room_names()
}

/// Deletes a room and its memberships.
pub fn delete_room(state: &mut Registry, payload: DeleteRoomPayload) -> (r: Result<Room, Error>)
    requires
        old(state).wf(),
    ensures
        final(state).wf(),
        final(state).logs() == old(state).logs(),
        !old(state)@.rooms().contains(payload.name@) ==> r == Err::<Room, Error>(
            Error::Room(RoomError::RoomNotFound),
        ) && final(state)@ == old(state)@,
        old(state)@.rooms().contains(payload.name@) ==> (r matches Ok(x) && x.name@ == payload.name@)
            && final(state)@ == old(state)@.remove_room(payload.name@),
{
    match state.delete_room(payload.name.as_str()) {
        Ok(x) => Ok(x),
        Err(e) => Err(Error::from(e)),
    }
}

/// Each user with its rooms.
pub fn list_user_rooms(state: &Registry) -> (r: Vec<(String, Vec<String>)>)
    requires
        state.wf(),
    ensures
        forall|k: int|
            #![trigger r@[k]]
            0 <= k < r@.len() ==> state@.users().contains(r@[k].0@) && names(r@[k].1@)
                == state@.user_rooms[r@[k].0@] && distinct(r@[k].1@),
        forall|u: Seq<char>|
            state@.users().contains(u) ==> exists|k: int| 0 <= k < r@.len() && #[trigger] r@[k].0@ == u,
        forall|a: int, b: int|
            #![trigger r@[a], r@[b]]
            0 <= a < r@.len() && 0 <= b < r@.len() && a != b ==> r@[a].0@ != r@[b].0@,
{
    state.user_rooms_table()
}

/// Each room with its members.
pub fn list_room_users(state: &Registry) -> (r: Vec<(String, Vec<String>)>)
    requires
        state.wf(),
    ensures
        forall|k: int|
            #![trigger r@[k]]
            0 <= k < r@.len() ==> state@.rooms().contains(r@[k].0@) && names(r@[k].1@)
                == state@.room_users[r@[k].0@] && distinct(r@[k].1@),
        forall|x: Seq<char>|
            state@.rooms().contains(x) ==> exists|k: int| 0 <= k < r@.len() && #[trigger] r@[k].0@ == x,
        forall|a: int, b: int|
            #![trigger r@[a], r@[b]]
            0 <= a < r@.len() && 0 <= b < r@.len() && a != b ==> r@[a].0@ != r@[b].0@,
{
    state.room_users_table()
}

} // verus!
