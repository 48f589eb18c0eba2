//! Session and matchmaking layer of a real-time multiplayer game server.
//!
//! The crate owns the authoritative mapping from room token to live game
//! session, allocates monotonically increasing room ids, and describes the
//! command surface of the external key-value cache that mirrors room
//! metadata and player counts.

pub mod api;
pub mod cache;
pub mod decimal;
pub mod registry;
pub mod sync;
pub mod token;
