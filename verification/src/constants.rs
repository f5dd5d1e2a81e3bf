//! Compile-time configuration of the peer utility.

use vstd::prelude::*;

verus! {

/// Port of the connectionless datagram socket used for discovery and
/// group messaging.
pub const UDP_PORT: u16 = 34254;

/// Port of the connection-oriented listener used for private sessions.
pub const TCP_PORT: u16 = 40000;

/// Seconds of silence after which a peer is dropped from the registry.
pub const USER_TIMEOUT: u64 = 10;

/// Seconds between two presence announcements.
pub const HELLO_INTERVAL: u64 = 3;

/// Number of times a reliable broadcast is attempted before the message
/// is reported undelivered.
pub const MAX_RETRY: u64 = 3;

} // verus!
