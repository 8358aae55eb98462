//! What the background usage poller keeps of each provider.

use vstd::prelude::*;

verus! {

/// One provider's last successful state, plus the error of the most recent
/// poll where it failed.
#[derive(Debug, Clone, Default)]
pub struct ProviderState<T: Default + Clone> {
    pub data: Option<T>,
    /// Unix epoch seconds of the last successful poll.
    pub last_ok_unix: Option<i64>,
    pub last_error: Option<String>,
}

} // verus!
