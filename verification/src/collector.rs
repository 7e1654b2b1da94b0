//! The decisions of the lazy collectors: a request wakes a plugin's
//! collector and waits (up to the guard timeout) for its first cycle; a
//! collector stops after `idle_cycles` refresh periods without a request.
use vstd::prelude::*;
use crate::api::{is_registered, registered};
use crate::config::Config;
use crate::plugins::PluginId;

verus! {

/// Why a request got no payload.
#[derive(Debug, Clone, Copy, PartialEq, Eq, Structural)]
pub enum EnsureError {
    /// The plugin is not served.
    NotRegistered,
    /// The first collection cycle did not complete within the guard
    /// timeout.
    Timeout,
}

/// What a request does for a plugin without a running collector.
pub fn wake(config: &Config, id: PluginId) -> (r: Result<(), EnsureError>)
    ensures
        r is Ok <==> registered(*config, id),
        r matches Err(e) ==> e == EnsureError::NotRegistered,
{
    if is_registered(config, id) {
        Ok(())
    } else {
        Err(EnsureError::NotRegistered)
    }
}

/// The answer to a waiting request: the latest payload once the first
/// cycle completed in time, a timeout otherwise (also when no payload was
/// published).
pub fn ensure_outcome(first_cycle_done: bool, snapshot: Option<Vec<u8>>) -> (r: Result<Vec<u8>, EnsureError>)
    ensures
        match (first_cycle_done, snapshot) {
            (true, Some(b)) => r == Ok::<Vec<u8>, EnsureError>(b),
            _ => r == Err::<Vec<u8>, EnsureError>(EnsureError::Timeout),
        },
{
    if !first_cycle_done {
        return Err(EnsureError::Timeout);
    }
    match snapshot {
        Some(b) => Ok(b),
        None => Err(EnsureError::Timeout),
    }
}

/// Whether a collector stops after a cycle: it has gone without a request
/// for at least the idle timeout (both in nanoseconds).
pub fn idle_expired(idle_ns: u64, idle_timeout_ns: u64) -> (r: bool)
    ensures
        r == (idle_ns >= idle_timeout_ns),
{
    idle_ns >= idle_timeout_ns
}

} // verus!
