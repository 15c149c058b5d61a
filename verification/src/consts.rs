//! Global timing constants of the replay engine.

use vstd::prelude::*;

verus! {

/// Longest wait for a spawn to be confirmed, unless a node overrides it.
pub const MAX_WAIT_MS: u64 = 5000;

/// Interval between two polls of the window count while waiting for a spawn.
pub const POLL_INTERVAL_MS: u64 = 100;

/// The timeout a node gets when the persisted document does not carry one.
pub fn default_timeout() -> (r: Option<u64>)
    ensures
        r == Some(MAX_WAIT_MS),
{
    Some(MAX_WAIT_MS)
}

} // verus!
