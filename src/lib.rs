//! A room-scoped chat and presence broadcaster.
//!
//! The [`registry::Registry`] owns users, rooms and the two membership maps,
//! routes client directives to the members of the addressed room, and cleans
//! up after a session ends. The surrounding service (HTTP routing, tokens,
//! persistence) lives outside this library and hands it plain values.

pub mod error;
pub mod message;
pub mod channel;
pub mod model;
pub mod registry;
pub mod router;
pub mod session;
pub mod laws;
pub mod manage;
pub mod auth;
pub mod ticket;
