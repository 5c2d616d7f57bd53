//! Verified core of a small web backend: a real-time chat broker with
//! named rooms, the per-connection session protocol that feeds it
//! (command grammar, heartbeat timeout, lifecycle), and the plain data
//! types the surrounding server exchanges with it.
//!
//! The broker owns the session registry and the room directory and is
//! driven one operation at a time; every operation returns the set of
//! text deliveries the transport layer must perform, so the routing
//! rules themselves are stated and proved here while all I/O stays
//! with the caller.

pub mod broker;
pub mod config;
pub mod entity;
pub mod protocol;
pub mod session;
pub mod solver;
pub mod textfmt;
