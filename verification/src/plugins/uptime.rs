//! `uptime` plugin: seconds since boot.
use vstd::prelude::*;
use crate::config::Config;
use crate::num::Num;

verus! {

/// The `uptime` plugin: its collection period.
pub struct UptimePlugin {
    pub refresh: Num,
}

impl UptimePlugin {
    pub fn new(config: &Config) -> (p: Self)
        ensures
            p.refresh == config.refresh_seconds("uptime"@),
    {
        UptimePlugin { refresh: config.refresh_for("uptime") }
    }
}

/// The `uptime` plugin keeps nothing between cycles.
pub struct UptimeState {}

impl Default for UptimeState {
    fn default() -> (s: Self)
        ensures
            s == (UptimeState {}),
    {
        UptimeState {}
    }
}

} // verus!
