//! A tunnelling proxy core: the wire protocol spoken inside the TLS channel,
//! the session that multiplexes logical streams over one connection, and the
//! decisions of the engines and of the control boundary around them.
//!
//! Everything here works on plain values. Sockets, TLS, timers and the
//! process environment belong to the caller, which feeds bytes and events in
//! and carries out the actions that come back.
//!
//! - `wire`, `address`, `frame`, `handshake`: the bytes on the wire.
//! - `table`: a vector of items with distinct keys, seen as a map.
//! - `session`: the streams of one connection; `guarantees`: what holds of
//!   them over runs of calls.
//! - `socks`, `resolver`, `engine`: what the client and the server decide
//!   around a session.
//! - `lifecycle`, `control`: shutdown, and the start and stop entry points.

pub mod wire;
pub mod table;
pub mod address;
pub mod frame;
pub mod handshake;
pub mod session;
pub mod guarantees;
pub mod lifecycle;
pub mod control;
pub mod resolver;
pub mod socks;
pub mod engine;
