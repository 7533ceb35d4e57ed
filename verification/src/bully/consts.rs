//! The times and counts of the protocol. Times are in seconds.

use vstd::prelude::*;

verus! {

/// How many times a peer is dialled at startup before the node gives up.
pub const RETRY: u8 = 10;

/// How long one dial may take.
pub const INIT_CONN_TIMEOUT: u64 = 10;

/// How long a node waits for `Alive` after it sent `Elect`.
pub const ALIVE_TIMEOUT: u64 = 1;

/// How long a leader sleeps between two rounds of heartbeats.
pub const HEARTBEAT_INTERVAL: u64 = 2;

/// How long a node sleeps between two checks of its leader, and how old the
/// leader's last heartbeat may be at a check.
pub const LEADER_CHECK_INTERVAL: u64 = 3;

/// The nanoseconds in a second: times of day are counted in nanoseconds.
pub const NANOS_PER_SEC: u128 = 1_000_000_000;

} // verus!
