//! `load` plugin: the load averages and the logical core count.
use vstd::prelude::*;
use crate::config::Config;
use crate::num::Num;

verus! {

/// The `load` plugin: collection period and logical core count.
pub struct LoadPlugin {
    pub refresh: Num,
    pub cpucore: usize,
}

impl LoadPlugin {
    /// The plugin as `config` sets it up on a machine with `cpucore`
    /// logical cores.
    pub fn new(config: &Config, cpucore: usize) -> (p: Self)
        ensures
            p.refresh == config.refresh_seconds("load"@),
            p.cpucore == cpucore,
    {
        LoadPlugin { refresh: config.refresh_for("load"), cpucore }
    }
}

} // verus!
