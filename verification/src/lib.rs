//! A LAN peer chat library: a heartbeat-driven peer presence table, a
//! textual frame protocol with acknowledged at-least-once broadcast
//! delivery, and a private one-to-one session state machine.
//!
//! The library holds the protocol logic only; sockets, threads and the
//! console live outside it and hand it plain values.

pub mod addr;
pub mod beacon;
pub mod broadcast;
pub mod bytes;
pub mod command;
pub mod constants;
pub mod frame;
pub mod listener;
pub mod registry;
pub mod session;
