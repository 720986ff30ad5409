//! Session and room bookkeeping for a small real-time multiplayer server.
//!
//! Peers are sharded into rooms of bounded size. Each room owns one
//! authoritative [`world::World`]; every event a peer sends is applied to the
//! world of the peer's room and relayed to all occupants of that room.
//!
//! The crate holds the pure part of that server: the state and event model,
//! the room registry and the per-connection state machine. Sockets, locks and
//! wire encoding live with the caller, which feeds decoded frames in and
//! carries the returned reactions out.

pub mod game;
pub mod player;
pub mod registry;
pub mod rooms;
pub mod session;
pub mod world;
