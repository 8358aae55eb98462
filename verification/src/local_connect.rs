//! Connecting to a local server that may still be starting: a bounded run
//! of attempts with a short pause after each failure.

use vstd::prelude::*;

verus! {

/// How many times the client tries to reach the local server.
pub const CONNECT_ATTEMPTS: u32 = 50;

/// The pause after a failed attempt, in milliseconds.
pub const CONNECT_RETRY_MS: u64 = 20;

/// What follows one connection attempt.
#[derive(Debug, Clone, Copy, PartialEq, Eq, Structural)]
pub enum ConnectStep {
    /// The server answered: go on with the connection.
    Connected,
    /// Wait `wait_ms`, then try again.
    Retry { wait_ms: u64 },
    /// Wait `wait_ms`, then report that the server could not be reached.
    GiveUp { wait_ms: u64 },
}

/// The step after attempt number `attempt` (counted from 0) succeeded or
/// failed: a success ends the wait; a failure pauses, then tries again
/// until the attempts are used up.
pub fn after_connect_attempt(attempt: u32, connected: bool) -> (r: ConnectStep)
    ensures
        r == if connected {
            ConnectStep::Connected
        } else if attempt + 1 < CONNECT_ATTEMPTS {
            ConnectStep::Retry { wait_ms: CONNECT_RETRY_MS }
        } else {
            ConnectStep::GiveUp { wait_ms: CONNECT_RETRY_MS }
        },
{
    if connected {
        ConnectStep::Connected
    } else if attempt < CONNECT_ATTEMPTS - 1 {
        ConnectStep::Retry { wait_ms: CONNECT_RETRY_MS }
    } else {
        ConnectStep::GiveUp { wait_ms: CONNECT_RETRY_MS }
    }
}

} // verus!
