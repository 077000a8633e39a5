//! Core engine of an ephemeral, browser-based group chat server.
//!
//! Rooms live in memory only: each one holds a message history, a typing
//! buffer per named participant, a bidirectional name / connection-id
//! mapping and an expiration instant. Handlers mutate a room under a single
//! registry lock and announce the change on the room's broadcast bus; every
//! subscriber re-reads the room state and derives the next frames for its
//! server-push stream. This crate contains all of that decision logic,
//! verified; the surrounding HTTP server drives it.

pub mod text;
pub mod bus;
pub mod kvmap;
pub mod middleware;
pub mod public;
pub mod rooms;
pub mod stream;
pub mod templates;
pub mod utils;
