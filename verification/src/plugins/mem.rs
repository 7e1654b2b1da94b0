//! `mem` plugin: instantaneous virtual memory figures.
use vstd::prelude::*;
use crate::config::Config;
use crate::num::Num;

verus! {

/// The `mem` plugin: its collection period.
pub struct MemPlugin {
    pub refresh: Num,
}

impl MemPlugin {
    pub fn new(config: &Config) -> (p: Self)
        ensures
            p.refresh == config.refresh_seconds("mem"@),
    {
        MemPlugin { refresh: config.refresh_for("mem") }
    }
}

/// The `mem` plugin keeps nothing between cycles.
pub struct MemState {}

impl Default for MemState {
    fn default() -> (s: Self)
        ensures
            s == (MemState {}),
    {
        MemState {}
    }
}

} // verus!
