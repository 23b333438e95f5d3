//! Core of a real-time session server: a registry of authenticated sessions,
//! a fixed-interval tick that advances per-player state and fans out update
//! messages, a dispatcher for broadcast/unicast sends, the per-connection
//! handshake state machine, and the wire encoding of the message schema.
//!
//! Transport (websockets), timers and randomness live outside this crate;
//! the library works on plain values handed in from that boundary.

pub mod conn;
pub mod digits;
pub mod grid;
pub mod laws;
pub mod game;
pub mod msg;
