//! `cpu` plugin: a rate plugin whose percentages and event rates come from
//! two cumulative `/proc/stat` samples.
use vstd::prelude::*;
use crate::config::Config;
use crate::num::Num;
use crate::plugins::diskio::elapsed_since;
use crate::plugins::linux::{cpu_percents, percents_between, sat_sub, CpuPercents, CpuSample};
use crate::plugins::{millis_of, per_sec_tenths, rate_tenths, rounded_millis};

verus! {

/// The `cpu` plugin: collection period and the number of logical cores.
pub struct CpuPlugin {
    pub refresh: Num,
    pub cpucore: usize,
}

impl CpuPlugin {
    /// The plugin as `config` sets it up on a machine with `cpucore`
    /// logical cores.
    pub fn new(config: &Config, cpucore: usize) -> (p: Self)
        ensures
            p.refresh == config.refresh_seconds("cpu"@),
            p.cpucore == cpucore,
    {
        CpuPlugin { refresh: config.refresh_for("cpu"), cpucore }
    }
}

/// Inter-cycle memory: the time of the previous cycle (nanoseconds of a
/// monotonic clock) and the previous sample.
pub struct CpuState {
    pub last: Option<u64>,
    pub prev: Option<CpuSample>,
}

impl Default for CpuState {
    fn default() -> (s: Self)
        ensures
            s.last is None,
            s.prev is None,
    {
        CpuState { last: None, prev: None }
    }
}

/// The full breakdown of one cycle: percentages in tenths and event rates
/// per second in tenths (`syscalls` is always 0 on Linux).
#[derive(Debug, Clone, Copy, PartialEq, Eq, Structural)]
pub struct CpuBreakdown {
    pub percents: CpuPercents,
    pub ctx_switches_tenths: u128,
    pub interrupts_tenths: u128,
    pub soft_interrupts_tenths: u128,
}

/// One cycle's payload: the breakdown when two samples were at hand, the
/// core count, and the measured time since the previous cycle in
/// milliseconds.
#[derive(Debug, Clone, Copy, PartialEq, Eq, Structural)]
pub struct CpuReport {
    pub breakdown: Option<CpuBreakdown>,
    pub cpucore: usize,
    pub time_since_update_ms: u64,
}

/// The breakdown between two samples taken `elapsed_ns` apart.
pub open spec fn breakdown_between(prev: CpuSample, cur: CpuSample, elapsed_ns: u64) -> CpuBreakdown {
    CpuBreakdown {
        percents: percents_between(prev, cur),
        ctx_switches_tenths: per_sec_tenths(sat_sub(cur.ctxt, prev.ctxt) as int, elapsed_ns as int) as u128,
        interrupts_tenths: per_sec_tenths(sat_sub(cur.intr, prev.intr) as int, elapsed_ns as int) as u128,
        soft_interrupts_tenths: per_sec_tenths(sat_sub(cur.softirq_total, prev.softirq_total) as int, elapsed_ns as int) as u128,
    }
}

impl CpuState {
    /// Whether the next cycle must first take a baseline sample (and wait
    /// for the warm-up), so that the first answer carries real rates.
    pub fn needs_baseline(&self) -> (r: bool)
        ensures
            r == self.prev is None,
    {
        self.prev.is_none()
    }

    /// Records the baseline sample taken at `now`.
    pub fn baseline(&mut self, sample: Option<CpuSample>, now: u64)
        ensures
            final(self).prev == sample,
            final(self).last == Some(now),
    {
        self.prev = sample;
        self.last = Some(now);
    }
}

impl CpuPlugin {
    /// One collection cycle on the sample `cur` taken at `now`: the time
    /// since the previous cycle is measured (never the nominal refresh);
    /// with a previous and a current sample the breakdown is computed and
    /// `cur` becomes the previous sample, otherwise only the core count is
    /// reported and the previous sample is kept.
    pub fn cycle(&self, state: &mut CpuState, cur: Option<CpuSample>, now: u64) -> (r: CpuReport)
        ensures
            final(state).last == Some(now),
            r.cpucore == self.cpucore,
            r.time_since_update_ms == rounded_millis(elapsed_since(old(state).last, now) as int),
            match (old(state).prev, cur) {
                (Some(p), Some(c)) => r.breakdown == Some(breakdown_between(p, c, elapsed_since(old(state).last, now)))
                    && final(state).prev == Some(c),
                _ => r.breakdown is None && final(state).prev == old(state).prev,
            },
    {
        let elapsed = match state.last {
            Some(t) => now.saturating_sub(t),
            None => 0,
        };
        state.last = Some(now);
        let ms = millis_of(elapsed);
        match (state.prev, cur) {
            (Some(p), Some(c)) => {
                state.prev = Some(c);
                let b = CpuBreakdown {
                    percents: cpu_percents(&p, &c),
                    ctx_switches_tenths: rate_tenths(c.ctxt.saturating_sub(p.ctxt), elapsed),
                    interrupts_tenths: rate_tenths(c.intr.saturating_sub(p.intr), elapsed),
                    soft_interrupts_tenths: rate_tenths(c.softirq_total.saturating_sub(p.softirq_total), elapsed),
                };
                CpuReport { breakdown: Some(b), cpucore: self.cpucore, time_since_update_ms: ms }
            },
            _ => CpuReport { breakdown: None, cpucore: self.cpucore, time_since_update_ms: ms },
        }
    }
}

} // verus!
