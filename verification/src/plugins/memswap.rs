//! `memswap` plugin: swap usage and the swap-in/out counters.
use vstd::prelude::*;
use crate::config::Config;
use crate::num::Num;
use crate::plugins::diskio::elapsed_since;
use crate::plugins::{millis_of, rounded_millis};

verus! {

/// The `memswap` plugin: its collection period.
pub struct MemSwapPlugin {
    pub refresh: Num,
}

impl MemSwapPlugin {
    pub fn new(config: &Config) -> (p: Self)
        ensures
            p.refresh == config.refresh_seconds("memswap"@),
    {
        MemSwapPlugin { refresh: config.refresh_for("memswap") }
    }
}

/// Inter-cycle memory: the time of the previous cycle (nanoseconds of a
/// monotonic clock).
pub struct MemSwapState {
    pub last: Option<u64>,
}

impl Default for MemSwapState {
    fn default() -> (s: Self)
        ensures
            s.last is None,
    {
        MemSwapState { last: None }
    }
}

impl MemSwapState {
    /// The time since the previous cycle in milliseconds (0 on the first),
    /// recording `now` as this cycle's time.
    pub fn elapsed(&mut self, now: u64) -> (ms: u64)
        ensures
            ms == rounded_millis(elapsed_since(old(self).last, now) as int),
            final(self).last == Some(now),
    {
        let e = match self.last {
            Some(t) => now.saturating_sub(t),
            None => 0,
        };
        self.last = Some(now);
        millis_of(e)
    }
}

} // verus!
