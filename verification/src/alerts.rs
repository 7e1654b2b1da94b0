//! Glances-v5-compatible alerting: threshold levels, the hysteresis state
//! machine that debounces level transitions, and the bounded journal of the
//! transitions that commit.
use vstd::prelude::*;
use crate::config::{Config, Thresholds};
use crate::num::Num;
use crate::plugins::{plugin_name, PluginId};
use crate::text::{opt_string, str_eq, texts};
use std::collections::VecDeque;

verus! {

/// Alert severity. `Ok` is the default committed state.
#[derive(Debug, Clone, Copy, PartialEq, Eq, Structural)]
pub enum Level {
    OK,
    Careful,
    Warning,
    Critical,
}

/// The public name of a level.
pub open spec fn level_name(l: Level) -> Seq<char> {
    match l {
        Level::OK => "ok"@,
        Level::Careful => "careful"@,
        Level::Warning => "warning"@,
        Level::Critical => "critical"@,
    }
}

impl Level {
    pub fn as_str(self) -> (s: &'static str)
        ensures
            s@ == level_name(self),
    {
        match self {
            Level::OK => "ok",
            Level::Careful => "careful",
            Level::Warning => "warning",
            Level::Critical => "critical",
        }
    }
}

impl Default for Level {
    fn default() -> (l: Self)
        ensures
            l == Level::OK,
    {
        Level::OK
    }
}

/// Whether a field alerts on high values (cpu%, fs%) or on low ones (free
/// space).
#[derive(Debug, Clone, Copy, PartialEq, Eq, Structural)]
pub enum Direction {
    High,
    Low,
}

/// Resolved limits for one `(item, field)` after the global and per-item
/// merge.
#[derive(Debug, Clone, Copy, PartialEq, Eq, Structural)]
pub struct Effective {
    pub careful: Option<Num>,
    pub warning: Option<Num>,
    pub critical: Option<Num>,
}

/// `value` breaches `limit` in `dir`: at or above it for `High`, at or below
/// it for `Low`. An unset limit is never breached.
pub open spec fn breached(value: Num, limit: Option<Num>, dir: Direction) -> bool {
    match limit {
        Some(l) => match dir {
            Direction::High => value.spec_ge(l),
            Direction::Low => value.spec_le(l),
        },
        None => false,
    }
}

/// The worst breached limit, checked from critical down to careful.
pub open spec fn level_of(value: Num, t: Effective, dir: Direction) -> Level {
    if breached(value, t.critical, dir) {
        Level::Critical
    } else if breached(value, t.warning, dir) {
        Level::Warning
    } else if breached(value, t.careful, dir) {
        Level::Careful
    } else {
        Level::OK
    }
}

fn is_breached(value: &Num, limit: Option<Num>, dir: Direction) -> (r: bool)
    ensures
        r == breached(*value, limit, dir),
{
    match limit {
        Some(l) => match dir {
            Direction::High => value.ge(&l),
            Direction::Low => value.le(&l),
        },
        None => false,
    }
}

/// Highest breached limit, honouring `dir`.
pub fn compute_level(value: Num, t: &Effective, dir: Direction) -> (l: Level)
    ensures
        l == level_of(value, *t, dir),
{
    if is_breached(&value, t.critical, dir) {
        Level::Critical
    } else if is_breached(&value, t.warning, dir) {
        Level::Warning
    } else if is_breached(&value, t.careful, dir) {
        Level::Careful
    } else {
        Level::OK
    }
}

/// The severity rank of a level.
pub open spec fn rank(l: Level) -> nat {
    match l {
        Level::OK => 0,
        Level::Careful => 1,
        Level::Warning => 2,
        Level::Critical => 3,
    }
}

/// The level of a high-direction field never falls as the value rises.
pub proof fn high_level_is_monotonic(a: Num, b: Num, t: Effective)
    requires
        !a.nan(),
        !b.nan(),
        a.key() <= b.key(),
    ensures
        rank(level_of(a, t, Direction::High)) <= rank(level_of(b, t, Direction::High)),
{
}

/// Mirror of the high direction: the level of a low-direction field never
/// falls as the value drops.
pub proof fn low_level_is_monotonic(a: Num, b: Num, t: Effective)
    requires
        !a.nan(),
        !b.nan(),
        a.key() <= b.key(),
    ensures
        rank(level_of(b, t, Direction::Low)) <= rank(level_of(a, t, Direction::Low)),
{
}

/// `specific` when set, else `global`: one limit of the per-limit merge.
pub open spec fn pick(specific: Option<Num>, global: Option<Num>) -> Option<Num> {
    match specific {
        Some(v) => Some(v),
        None => global,
    }
}

/// One limit of optional thresholds.
pub open spec fn careful_of(t: Option<Thresholds>) -> Option<Num> {
    match t {
        Some(t) => t.careful,
        None => None,
    }
}

pub open spec fn warning_of(t: Option<Thresholds>) -> Option<Num> {
    match t {
        Some(t) => t.warning,
        None => None,
    }
}

pub open spec fn critical_of(t: Option<Thresholds>) -> Option<Num> {
    match t {
        Some(t) => t.critical,
        None => None,
    }
}

/// The value of `m` at `k`, if any.
pub open spec fn lookup<V>(m: Map<Seq<char>, V>, k: Seq<char>) -> Option<V> {
    if m.contains_key(k) {
        Some(m[k])
    } else {
        None
    }
}

/// The limits that apply to `field` of `item` (or of the payload, for
/// `None`) of plugin `id`: each limit is the item's own when the item
/// declares it, else the plugin's global one. `None` when no limit is set.
pub open spec fn resolved(c: Config, id: PluginId, item: Option<Seq<char>>, field: Seq<char>) -> Option<Effective> {
    match c.plugin(plugin_name(id)) {
        None => None,
        Some(pc) => {
            let global = lookup(pc.thresholds.view(), field);
            let specific = match item {
                Some(i) => match lookup(pc.thresholds_by_item.view(), i) {
                    Some(m) => lookup(m.view(), field),
                    None => None,
                },
                None => None,
            };
            let e = Effective {
                careful: pick(careful_of(specific), careful_of(global)),
                warning: pick(warning_of(specific), warning_of(global)),
                critical: pick(critical_of(specific), critical_of(global)),
            };
            if e.careful is None && e.warning is None && e.critical is None {
                None
            } else {
                Some(e)
            }
        },
    }
}

fn copy_thresholds(t: Option<&Thresholds>) -> (r: Option<Thresholds>)
    ensures
        r == (match t {
            Some(t) => Some(*t),
            None => None,
        }),
{
    match t {
        Some(t) => Some(*t),
        None => None,
    }
}

fn pick_limit(specific: Option<Num>, global: Option<Num>) -> (r: Option<Num>)
    ensures
        r == pick(specific, global),
{
    match specific {
        Some(v) => Some(v),
        None => global,
    }
}

/// Resolve the effective limits for `(plugin, item, field)`: item-specific
/// wins over global, per limit key.
pub fn resolve(config: &Config, id: PluginId, item: Option<&str>, field: &str) -> (r: Option<Effective>)
    ensures
        r == resolved(
            *config,
            id,
            match item {
                Some(i) => Some(i@),
                None => None,
            },
            field@,
        ),
{
    let pc = match config.plugin_config(id.as_str()) {
        Some(pc) => pc,
        None => return None,
    };
    let global = copy_thresholds(pc.thresholds.get(field));
    let specific = match item {
        Some(i) => match pc.thresholds_by_item.get(i) {
            Some(m) => copy_thresholds(m.get(field)),
            None => None,
        },
        None => None,
    };
    let gc = match global { Some(t) => t.careful, None => None };
    let gw = match global { Some(t) => t.warning, None => None };
    let gr = match global { Some(t) => t.critical, None => None };
    let sc = match specific { Some(t) => t.careful, None => None };
    let sw = match specific { Some(t) => t.warning, None => None };
    let sr = match specific { Some(t) => t.critical, None => None };
    let e = Effective {
        careful: pick_limit(sc, gc),
        warning: pick_limit(sw, gw),
        critical: pick_limit(sr, gr),
    };
    if e.careful.is_none() && e.warning.is_none() && e.critical.is_none() {
        None
    } else {
        Some(e)
    }
}

/// Per-`(plugin, key, field)` hysteresis state.
#[derive(Debug, Clone, Copy, PartialEq, Eq, Structural)]
pub struct AlertState {
    pub committed_level: Level,
    pub pending_level: Option<Level>,
    /// When the pending level was first observed, in nanoseconds of the
    /// caller's monotonic clock.
    pub pending_since: Option<u64>,
    pub has_committed: bool,
}

impl AlertState {
    /// A pending level always comes with the time it was first observed.
    pub open spec fn wf(self) -> bool {
        self.pending_level is Some <==> self.pending_since is Some
    }

    pub open spec fn initial() -> AlertState {
        AlertState { committed_level: Level::OK, pending_level: None, pending_since: None, has_committed: false }
    }
}

impl Default for AlertState {
    fn default() -> (s: Self)
        ensures
            s == AlertState::initial(),
    {
        AlertState { committed_level: Level::OK, pending_level: None, pending_since: None, has_committed: false }
    }
}

/// A committed level change, the seed of an alert event.
#[derive(Debug, Clone, Copy, PartialEq, Eq, Structural)]
pub struct Transition {
    pub previous: Level,
    pub new: Level,
    pub is_initial: bool,
}

/// The state after committing `observed`, and the transition.
pub open spec fn committed(st: AlertState, observed: Level) -> (AlertState, Option<Transition>) {
    (
        AlertState { committed_level: observed, pending_level: None, pending_since: None, has_committed: true },
        Some(Transition { previous: st.committed_level, new: observed, is_initial: !st.has_committed }),
    )
}

/// One observation of the hysteresis state machine: a level equal to the
/// committed one clears any pending level; a different level commits at
/// once with a zero window, commits when it has been pending for at least
/// `min_duration`, and otherwise starts (or keeps) its debounce window.
pub open spec fn reconciled(st: AlertState, observed: Level, now: u64, min_duration: u64) -> (AlertState, Option<Transition>) {
    if observed == st.committed_level {
        (AlertState { pending_level: None, pending_since: None, has_committed: true, ..st }, None)
    } else if min_duration == 0 {
        committed(st, observed)
    } else if st.pending_level == Some(observed) {
        let since = st.pending_since.unwrap();
        if (if now >= since { now - since } else { 0 }) >= min_duration {
            committed(st, observed)
        } else {
            (st, None)
        }
    } else {
        (AlertState { pending_level: Some(observed), pending_since: Some(now), ..st }, None)
    }
}

/// Advance the state machine for one observation. Returns `Some` only when
/// a transition commits.
pub fn reconcile(state: &mut AlertState, observed: Level, now: u64, min_duration: u64) -> (r: Option<Transition>)
    requires
        old(state).wf(),
    ensures
        (*final(state), r) == reconciled(*old(state), observed, now, min_duration),
        final(state).wf(),
{
    if observed == state.committed_level {
        state.pending_level = None;
        state.pending_since = None;
        state.has_committed = true;
        return None;
    }
    if min_duration == 0 {
        let previous = state.committed_level;
        let is_initial = !state.has_committed;
        state.committed_level = observed;
        state.has_committed = true;
        state.pending_level = None;
        state.pending_since = None;
        return Some(Transition { previous, new: observed, is_initial });
    }
    if state.pending_level == Some(observed) {
        let since = match state.pending_since {
            Some(t) => t,
            None => 0,
        };
        if now.saturating_sub(since) >= min_duration {
            let previous = state.committed_level;
            let is_initial = !state.has_committed;
            state.committed_level = observed;
            state.has_committed = true;
            state.pending_level = None;
            state.pending_since = None;
            return Some(Transition { previous, new: observed, is_initial });
        }
        return None;
    }
    state.pending_level = Some(observed);
    state.pending_since = Some(now);
    None
}

/// A transition always changes the committed level to the observed one,
/// reports the level it replaced, and is initial exactly when nothing had
/// been committed before; afterwards no level is pending.
pub proof fn transitions_move_committed_level(st: AlertState, observed: Level, now: u64, min_duration: u64)
    requires
        st.wf(),
    ensures
        ({
            let (next, tr) = reconciled(st, observed, now, min_duration);
            tr matches Some(t) ==> t.previous == st.committed_level && t.new == observed
                && t.previous != t.new && t.is_initial == !st.has_committed
                && next.committed_level == observed && next.has_committed
                && next.pending_level is None
        }),
        ({
            let (next, tr) = reconciled(st, observed, now, min_duration);
            tr is None ==> next.committed_level == st.committed_level
        }),
{
}

/// Debouncing: from a state where `observed` is not pending, a level that
/// differs from the committed one and is observed at `t0` and again at `t1`
/// commits at the second observation exactly when `t1 - t0` reaches the
/// window, and never at the first (for a non-zero window).
pub proof fn debounce_commits_after_min_duration(st: AlertState, observed: Level, t0: u64, t1: u64, min_duration: u64)
    requires
        st.wf(),
        min_duration > 0,
        observed != st.committed_level,
        st.pending_level != Some(observed),
        t0 <= t1,
    ensures
        ({
            let (s1, tr1) = reconciled(st, observed, t0, min_duration);
            let (s2, tr2) = reconciled(s1, observed, t1, min_duration);
            &&& tr1 is None
            &&& (tr2 is Some <==> t1 - t0 >= min_duration)
        }),
{
}

/// The transitions reported by observing `observed` at each of `times` in
/// turn, starting from `st`.
pub open spec fn observe_each(st: AlertState, observed: Level, times: Seq<u64>, min_duration: u64) -> Seq<
    Option<Transition>,
>
    decreases times.len(),
{
    if times.len() == 0 {
        seq![]
    } else {
        let (next, tr) = reconciled(st, observed, times[0], min_duration);
        seq![tr] + observe_each(next, observed, times.drop_first(), min_duration)
    }
}

proof fn lemma_observe_each_len(st: AlertState, observed: Level, times: Seq<u64>, min_duration: u64)
    ensures
        observe_each(st, observed, times, min_duration).len() == times.len(),
        times.len() > 0 ==> observe_each(st, observed, times, min_duration) == seq![
            reconciled(st, observed, times[0], min_duration).1,
        ] + observe_each(reconciled(st, observed, times[0], min_duration).0, observed, times.drop_first(), min_duration),
    decreases times.len(),
{
    if times.len() > 0 {
        let (next, tr) = reconciled(st, observed, times[0], min_duration);
        lemma_observe_each_len(next, observed, times.drop_first(), min_duration);
    }
}

proof fn lemma_observe_settled(st: AlertState, observed: Level, times: Seq<u64>, min_duration: u64)
    requires
        st.committed_level == observed,
    ensures
        forall|i: int| 0 <= i < times.len() ==> #[trigger] observe_each(st, observed, times, min_duration)[i] is None,
    decreases times.len(),
{
    if times.len() > 0 {
        let (next, tr) = reconciled(st, observed, times[0], min_duration);
        lemma_observe_each_len(st, observed, times, min_duration);
        lemma_observe_settled(next, observed, times.drop_first(), min_duration);
        let r = observe_each(st, observed, times, min_duration);
        assert forall|i: int| 0 <= i < times.len() implies #[trigger] r[i] is None by {
            if i > 0 {
                assert(r[i] == observe_each(next, observed, times.drop_first(), min_duration)[i - 1]);
            }
        }
    }
}

proof fn lemma_observe_pending(st: AlertState, observed: Level, t0: u64, times: Seq<u64>, min_duration: u64)
    requires
        st.wf(),
        min_duration > 0,
        observed != st.committed_level,
        st.pending_level == Some(observed),
        st.pending_since == Some(t0),
        forall|i: int| 0 <= i < times.len() ==> t0 <= #[trigger] times[i],
    ensures
        forall|i: int|
            0 <= i < times.len() ==> {
                let r = #[trigger] observe_each(st, observed, times, min_duration)[i];
                &&& r is Some <==> (times[i] - t0 >= min_duration && forall|j: int|
                    0 <= j < i ==> #[trigger] times[j] - t0 < min_duration)
                &&& r is Some ==> r == Some(
                    Transition { previous: st.committed_level, new: observed, is_initial: !st.has_committed },
                )
            },
    decreases times.len(),
{
    if times.len() > 0 {
        let (next, tr) = reconciled(st, observed, times[0], min_duration);
        let rest = times.drop_first();
        let r = observe_each(st, observed, times, min_duration);
        let r2 = observe_each(next, observed, rest, min_duration);
        lemma_observe_each_len(st, observed, times, min_duration);
        lemma_observe_each_len(next, observed, rest, min_duration);
        assert forall|i: int| 0 < i < times.len() implies #[trigger] r[i] == r2[i - 1] && times[i] == rest[i - 1] by {}
        if times[0] - t0 >= min_duration {
            assert(next.committed_level == observed);
            lemma_observe_settled(next, observed, rest, min_duration);
            assert forall|i: int| 0 < i < times.len() implies #[trigger] r[i] is None && !(forall|j: int|
                0 <= j < i ==> #[trigger] times[j] - t0 < min_duration) by {
                assert(times[0] - t0 >= min_duration);
                assert(r2[i - 1] is None);
            }
        } else {
            assert(next == st);
            assert forall|i: int| 0 <= i < rest.len() implies t0 <= #[trigger] rest[i] by {
                assert(rest[i] == times[i + 1]);
            }
            lemma_observe_pending(st, observed, t0, rest, min_duration);
            assert forall|i: int| 0 < i < times.len() implies #[trigger] r[i] == r2[i - 1] && (forall|j: int|
                0 <= j < i ==> #[trigger] times[j] - t0 < min_duration) == (forall|j: int|
                0 <= j < i - 1 ==> #[trigger] rest[j] - t0 < min_duration) by {
                if forall|j: int| 0 <= j < i - 1 ==> #[trigger] rest[j] - t0 < min_duration {
                    assert forall|j: int| 0 <= j < i implies #[trigger] times[j] - t0 < min_duration by {
                        if j > 0 {
                            assert(rest[j - 1] == times[j]);
                        }
                    }
                }
                if forall|j: int| 0 <= j < i ==> #[trigger] times[j] - t0 < min_duration {
                    assert forall|j: int| 0 <= j < i - 1 implies #[trigger] rest[j] - t0 < min_duration by {
                        assert(rest[j] == times[j + 1]);
                    }
                }
            }
        }
    }
}

/// Debouncing over any number of cycles: when a level other than the
/// committed one starts being observed at `times[0]` and keeps being
/// observed at later times, it commits exactly once, at the first
/// observation at least `min_duration` after `times[0]` (the window runs
/// from when the level was first seen, not from the previous cycle), with
/// the transition from the committed level; every other observation
/// reports nothing.
pub proof fn sustained_level_commits_after_window(
    st: AlertState,
    observed: Level,
    times: Seq<u64>,
    min_duration: u64,
)
    requires
        st.wf(),
        min_duration > 0,
        observed != st.committed_level,
        st.pending_level != Some(observed),
        times.len() > 0,
        forall|i: int| 0 <= i < times.len() ==> times[0] <= #[trigger] times[i],
    ensures
        forall|i: int|
            0 <= i < times.len() ==> {
                let r = #[trigger] observe_each(st, observed, times, min_duration)[i];
                &&& r is Some <==> (times[i] - times[0] >= min_duration && forall|j: int|
                    0 <= j < i ==> #[trigger] times[j] - times[0] < min_duration)
                &&& r is Some ==> r == Some(
                    Transition { previous: st.committed_level, new: observed, is_initial: !st.has_committed },
                )
            },
{
    let t0 = times[0];
    let (next, tr) = reconciled(st, observed, t0, min_duration);
    let rest = times.drop_first();
    let r = observe_each(st, observed, times, min_duration);
    let r2 = observe_each(next, observed, rest, min_duration);
    lemma_observe_each_len(st, observed, times, min_duration);
    lemma_observe_each_len(next, observed, rest, min_duration);
    assert(tr is None);
    assert forall|i: int| 0 <= i < rest.len() implies t0 <= #[trigger] rest[i] by {
        assert(rest[i] == times[i + 1]);
    }
    lemma_observe_pending(next, observed, t0, rest, min_duration);
    assert forall|i: int| 0 < i < times.len() implies #[trigger] r[i] == r2[i - 1] && times[i] == rest[i - 1] by {}
    assert forall|i: int| 0 < i < times.len() implies #[trigger] r[i] == r2[i - 1] && (forall|j: int|
        0 <= j < i ==> #[trigger] times[j] - t0 < min_duration) == (forall|j: int|
        0 <= j < i - 1 ==> #[trigger] rest[j] - t0 < min_duration) by {
        if forall|j: int| 0 <= j < i - 1 ==> #[trigger] rest[j] - t0 < min_duration {
            assert forall|j: int| 0 <= j < i implies #[trigger] times[j] - t0 < min_duration by {
                if j > 0 {
                    assert(rest[j - 1] == times[j]);
                }
            }
        }
        if forall|j: int| 0 <= j < i ==> #[trigger] times[j] - t0 < min_duration {
            assert forall|j: int| 0 <= j < i - 1 implies #[trigger] rest[j] - t0 < min_duration by {
                assert(rest[j] == times[j + 1]);
            }
        }
    }
}

/// A zero window commits any change at once.
pub proof fn zero_window_commits_immediately(st: AlertState, observed: Level, now: u64)
    requires
        st.wf(),
        observed != st.committed_level,
    ensures
        reconciled(st, observed, now, 0).1 == Some(
            Transition { previous: st.committed_level, new: observed, is_initial: !st.has_committed },
        ),
        reconciled(st, observed, now, 0).0.committed_level == observed,
        reconciled(st, observed, now, 0).0.pending_level is None,
{
}

/// Observing the committed level reports nothing, keeps that level,
/// counts as having committed, and drops whatever was pending: a level
/// that was interrupted starts its window afresh when seen again.
pub proof fn committed_level_clears_pending(st: AlertState, now: u64, min_duration: u64)
    ensures
        reconciled(st, st.committed_level, now, min_duration).1 is None,
        reconciled(st, st.committed_level, now, min_duration).0 == (AlertState {
            committed_level: st.committed_level,
            pending_level: None,
            pending_since: None,
            has_committed: true,
        }),
{
}

/// One alertable field's static metadata: `prominent` is copied from
/// Glances v5, `direction` is `High` for every field, and `normalize_by`
/// names a divisor field for a rate-against-capacity comparison.
#[derive(Debug, Clone, Copy)]
pub struct AlertField {
    pub field: &'static str,
    pub prominent: bool,
    pub direction: Direction,
    pub normalize_by: Option<&'static str>,
}

/// The text of an optional static string.
pub open spec fn opt_str(o: Option<&'static str>) -> Option<Seq<char>> {
    match o {
        Some(s) => Some(s@),
        None => None,
    }
}

/// What an alert field says: name, prominence, direction, divisor.
pub open spec fn af_view(a: AlertField) -> (Seq<char>, bool, Direction, Option<Seq<char>>) {
    (a.field@, a.prominent, a.direction, opt_str(a.normalize_by))
}

/// A high-direction field compared directly.
pub open spec fn direct(field: Seq<char>, prominent: bool) -> (Seq<char>, bool, Direction, Option<Seq<char>>) {
    (field, prominent, Direction::High, None)
}

/// A high-direction field compared per logical CPU core.
pub open spec fn per_core(field: Seq<char>, prominent: bool) -> (Seq<char>, bool, Direction, Option<Seq<char>>) {
    (field, prominent, Direction::High, Some("cpucore"@))
}

/// The alertable fields of each plugin, in payload order.
pub open spec fn alert_table(id: PluginId) -> Seq<(Seq<char>, bool, Direction, Option<Seq<char>>)> {
    match id {
        PluginId::Mem => seq![direct("percent"@, true)],
        PluginId::Fs => seq![direct("percent"@, false)],
        PluginId::Load => seq![per_core("min5"@, false), per_core("min15"@, true)],
        PluginId::MemSwap => seq![direct("percent"@, true), direct("sin"@, false), direct("sout"@, false)],
        PluginId::Diskio => seq![direct("read_bytes"@, false), direct("write_bytes"@, false)],
        PluginId::Cpu => seq![
            direct("total"@, true),
            direct("system"@, false),
            direct("user"@, false),
            direct("iowait"@, true),
            direct("steal"@, false),
            per_core("ctx_switches"@, false),
        ],
        PluginId::Network => seq![
            ("bytes_recv"@, false, Direction::High, Some("bytes_speed_rate_per_sec"@)),
            ("bytes_sent"@, false, Direction::High, Some("bytes_speed_rate_per_sec"@)),
        ],
        PluginId::System | PluginId::Uptime => seq![],
    }
}

fn af(field: &'static str, prominent: bool) -> (a: AlertField)
    ensures
        af_view(a) == direct(field@, prominent),
{
    AlertField { field, prominent, direction: Direction::High, normalize_by: None }
}

fn af_core(field: &'static str, prominent: bool) -> (a: AlertField)
    ensures
        af_view(a) == per_core(field@, prominent),
{
    AlertField { field, prominent, direction: Direction::High, normalize_by: Some("cpucore") }
}

/// Alertable fields per plugin; empty for a plugin with nothing to alert on.
pub fn alert_fields(id: PluginId) -> (r: Vec<AlertField>)
    ensures
        r@.len() == alert_table(id).len(),
        forall|i: int| 0 <= i < r@.len() ==> af_view(#[trigger] r@[i]) == alert_table(id)[i],
{
    let mut r: Vec<AlertField> = Vec::new();
    match id {
        PluginId::Mem => {
            r.push(af("percent", true));
        },
        PluginId::Fs => {
            r.push(af("percent", false));
        },
        PluginId::Load => {
            r.push(af_core("min5", false));
            r.push(af_core("min15", true));
        },
        PluginId::MemSwap => {
            r.push(af("percent", true));
            r.push(af("sin", false));
            r.push(af("sout", false));
        },
        PluginId::Diskio => {
            r.push(af("read_bytes", false));
            r.push(af("write_bytes", false));
        },
        PluginId::Cpu => {
            r.push(af("total", true));
            r.push(af("system", false));
            r.push(af("user", false));
            r.push(af("iowait", true));
            r.push(af("steal", false));
            r.push(af_core("ctx_switches", false));
        },
        PluginId::Network => {
            r.push(
                AlertField {
                    field: "bytes_recv",
                    prominent: false,
                    direction: Direction::High,
                    normalize_by: Some("bytes_speed_rate_per_sec"),
                },
            );
            r.push(
                AlertField {
                    field: "bytes_sent",
                    prominent: false,
                    direction: Direction::High,
                    normalize_by: Some("bytes_speed_rate_per_sec"),
                },
            );
        },
        PluginId::System | PluginId::Uptime => {},
    }
    r
}

/// `a / b` rounded down.
fn floor_div(a: i128, b: i128) -> (q: i128)
    requires
        b > 0,
        -0x1_0000_0000_0000_0000_0000 < a < 0x1_0000_0000_0000_0000_0000,
        b < 0x1_0000_0000,
    ensures
        q == a / b,
{
    if a >= 0 {
        a / b
    } else {
        let n = -a - 1;
        let q = n / b;
        assert(-q - 1 == a / b) by (nonlinear_arith)
            requires
                b > 0,
                a < 0,
                n == -a - 1,
                q == n / b,
        ;
        -q - 1
    }
}

/// The character of a decimal digit.
pub open spec fn digit_char(d: nat) -> char {
    (48 + d) as char
}

/// The decimal digits of `v`, without leading zeros.
pub open spec fn decimal_digits(v: nat) -> Seq<char>
    decreases v,
{
    if v < 10 {
        seq![digit_char(v)]
    } else {
        decimal_digits(v / 10) + seq![digit_char(v % 10)]
    }
}

/// `n` zeros (none when `n` is not positive).
pub open spec fn zeros(n: int) -> Seq<char> {
    Seq::new(if n > 0 {
        n as nat
    } else {
        0
    }, |_i: int| '0')
}

/// `format!("{n:0w}")`: the sign, then the digits zero-padded so that the
/// whole is at least `w` characters.
pub open spec fn padded(n: int, w: int) -> Seq<char> {
    if n < 0 {
        let d = decimal_digits((-n) as nat);
        seq!['-'] + zeros(w - 1 - d.len()) + d
    } else {
        let d = decimal_digits(n as nat);
        zeros(w - d.len()) + d
    }
}

fn push_decimal(out: &mut Vec<char>, v: u128)
    ensures
        final(out)@ == old(out)@ + decimal_digits(v as nat),
    decreases v,
{
    if v >= 10 {
        push_decimal(out, v / 10);
    }
    let d = (v % 10) as u8;
    out.push((d + 48) as char);
    assert(digit_char((v % 10) as nat) == (d + 48) as char);
}

fn push_zeros(out: &mut Vec<char>, n: i128)
    requires
        n < 0x1_0000_0000,
    ensures
        final(out)@ == old(out)@ + zeros(n as int),
{
    let mut k: i128 = 0;
    while k < n
        invariant
            0 <= k,
            k <= n || k == 0,
            n < 0x1_0000_0000,
            out@ == old(out)@ + zeros(k as int),
        decreases n - k,
    {
        out.push('0');
        assert(zeros(k + 1) == zeros(k as int).push('0'));
        k = k + 1;
    }
    assert(zeros(k as int) == zeros(n as int));
}

fn push_padded(out: &mut Vec<char>, n: i128, w: i128)
    requires
        -0x1_0000_0000_0000_0000_0000 < n < 0x1_0000_0000_0000_0000_0000,
        0 <= w <= 8,
    ensures
        final(out)@ == old(out)@ + padded(n as int, w as int),
{
    let mut digits: Vec<char> = Vec::new();
    let mag: u128 = if n < 0 {
        (-n) as u128
    } else {
        n as u128
    };
    push_decimal(&mut digits, mag);
    assert(digits@ == decimal_digits(mag as nat));
    let len = digits.len() as i128;
    if n < 0 {
        out.push('-');
        push_zeros(out, w - 1 - len);
    } else {
        push_zeros(out, w - len);
    }
    let ghost before = out@;
    let mut k: usize = 0;
    while k < digits.len()
        invariant
            0 <= k <= digits@.len(),
            out@ == before + digits@.take(k as int),
        decreases digits@.len() - k,
    {
        out.push(digits[k]);
        assert(digits@.take(k + 1) == digits@.take(k as int).push(digits@[k as int]));
        k = k + 1;
    }
    assert(digits@.take(digits@.len() as int) == digits@);
}

/// The civil date `(year, month, day)` of a day count since 1970-01-01, by
/// the era/day-of-era method (400-year eras of 146097 days starting on
/// March 1st); `civil_date_is_the_day` proves it is the calendar date
/// that many days after 1970-01-01.
pub open spec fn civil_from_days(days: int) -> (int, int, int) {
    let z = days + 719_468;
    let era = z / 146_097;
    let doe = z - era * 146_097;
    let yoe = (doe - doe / 1460 + doe / 36524 - doe / 146096) / 365;
    let y = yoe + era * 400;
    let doy = doe - (365 * yoe + yoe / 4 - yoe / 100);
    let mp = (5 * doy + 2) / 153;
    let d = doy - (153 * mp + 2) / 5 + 1;
    let m = if mp < 10 {
        mp + 3
    } else {
        mp - 9
    };
    (if m <= 2 {
        y + 1
    } else {
        y
    }, m, d)
}

/// Whether `y` is a leap year of the proleptic Gregorian calendar.
pub open spec fn is_leap(y: int) -> bool {
    (y % 4 == 0 && y % 100 != 0) || y % 400 == 0
}

/// The number of days of month `m` of year `y`.
pub open spec fn month_days(y: int, m: int) -> int {
    if m == 2 {
        if is_leap(y) {
            29
        } else {
            28
        }
    } else if m == 4 || m == 6 || m == 9 || m == 11 {
        30
    } else {
        31
    }
}

/// Whether `(y, m, d)` is a date of the calendar.
pub open spec fn valid_date(y: int, m: int, d: int) -> bool {
    1 <= m <= 12 && 1 <= d <= month_days(y, m)
}

proof fn lemma_year_of_era(doe: u32)
    requires
        doe < 146_097,
    ensures
        ({
            let yoe = (doe - doe / 1460 + doe / 36524 - doe / 146096) / 365;
            let doy = doe - (365 * yoe + yoe / 4 - yoe / 100);
            &&& yoe <= 399
            &&& 0 <= doy <= 365
            &&& doy == 365 ==> (yoe + 1) % 4 == 0 && ((yoe + 1) % 100 != 0 || yoe == 399)
        }),
{
    assert({
        let yoe = (doe - doe / 1460 + doe / 36524 - doe / 146096) / 365;
        let doy = doe - (365 * yoe + yoe / 4 - yoe / 100);
        &&& yoe <= 399
        &&& 0 <= doy <= 365
        &&& doy == 365 ==> (yoe + 1) % 4 == 0 && ((yoe + 1) % 100 != 0 || yoe == 399)
    }) by (bit_vector)
        requires
            doe < 146_097,
    ;
}

proof fn lemma_month_of_march_day(doy: u32)
    requires
        doy <= 365,
    ensures
        ({
            let mp = (5 * doy + 2) / 153;
            let start = (153 * mp + 2) / 5;
            let d = doy - start + 1;
            &&& mp <= 11
            &&& 1 <= d
            &&& mp == 0 ==> start == 0 && d <= 31
            &&& mp == 1 ==> start == 31 && d <= 30
            &&& mp == 2 ==> start == 61 && d <= 31
            &&& mp == 3 ==> start == 92 && d <= 30
            &&& mp == 4 ==> start == 122 && d <= 31
            &&& mp == 5 ==> start == 153 && d <= 31
            &&& mp == 6 ==> start == 184 && d <= 30
            &&& mp == 7 ==> start == 214 && d <= 31
            &&& mp == 8 ==> start == 245 && d <= 30
            &&& mp == 9 ==> start == 275 && d <= 31
            &&& mp == 10 ==> start == 306 && d <= 31
            &&& mp == 11 ==> start == 337 && d <= 29 && (d == 29 ==> doy == 365)
        }),
{
    assert({
        let mp = (5 * doy + 2) / 153;
        let start = (153 * mp + 2) / 5;
        let d = doy - start + 1;
        &&& mp <= 11
        &&& 1 <= d
        &&& mp == 0 ==> start == 0 && d <= 31
        &&& mp == 1 ==> start == 31 && d <= 30
        &&& mp == 2 ==> start == 61 && d <= 31
        &&& mp == 3 ==> start == 92 && d <= 30
        &&& mp == 4 ==> start == 122 && d <= 31
        &&& mp == 5 ==> start == 153 && d <= 31
        &&& mp == 6 ==> start == 184 && d <= 30
        &&& mp == 7 ==> start == 214 && d <= 31
        &&& mp == 8 ==> start == 245 && d <= 30
        &&& mp == 9 ==> start == 275 && d <= 31
        &&& mp == 10 ==> start == 306 && d <= 31
        &&& mp == 11 ==> start == 337 && d <= 29 && (d == 29 ==> doy == 365)
    }) by (bit_vector)
        requires
            doy <= 365,
    ;
}

/// The number of leap years before year `y` (from year 1, counting
/// backwards past it for earlier years).
pub open spec fn leaps_before(y: int) -> int {
    (y - 1) / 4 - (y - 1) / 100 + (y - 1) / 400
}

/// The number of days of year `y` before the first of month `m`.
pub open spec fn days_before_month(y: int, m: int) -> int {
    (if m == 1 {
        0int
    } else if m == 2 {
        31
    } else if m == 3 {
        59
    } else if m == 4 {
        90
    } else if m == 5 {
        120
    } else if m == 6 {
        151
    } else if m == 7 {
        181
    } else if m == 8 {
        212
    } else if m == 9 {
        243
    } else if m == 10 {
        273
    } else if m == 11 {
        304
    } else {
        334
    }) + if m > 2 && is_leap(y) {
        1int
    } else {
        0int
    }
}

/// The number of days from 1970-01-01 to the date `(y, m, d)`.
pub open spec fn epoch_day(y: int, m: int, d: int) -> int {
    365 * (y - 1970) + leaps_before(y) - leaps_before(1970) + days_before_month(y, m) + d - 1
}

/// `civil_from_days` is the calendar: the date it gives for a day count is
/// a valid date of the proleptic Gregorian calendar, and that date is the
/// given number of days after 1970-01-01.
pub proof fn civil_date_is_the_day(days: int)
    ensures
        ({
            let (y, m, d) = civil_from_days(days);
            valid_date(y, m, d) && epoch_day(y, m, d) == days
        }),
{
    let z = days + 719_468;
    let era = z / 146_097;
    let doe = z - era * 146_097;
    assert(0 <= doe < 146_097) by (nonlinear_arith)
        requires
            era == z / 146_097,
            doe == z - era * 146_097,
    ;
    lemma_year_of_era(doe as u32);
    let yoe = (doe - doe / 1460 + doe / 36524 - doe / 146096) / 365;
    let doy = doe - (365 * yoe + yoe / 4 - yoe / 100);
    assert(0 <= yoe <= 399 && 0 <= doy <= 365);
    lemma_month_of_march_day(doy as u32);
    let mp = (5 * doy + 2) / 153;
    let start = (153 * mp + 2) / 5;
    let d = doy - start + 1;
    let yy = yoe + era * 400;
    // Leap years before the year after `yy`.
    assert(leaps_before(yy + 1) == 97 * era + yoe / 4 - yoe / 100) by (nonlinear_arith)
        requires
            0 <= yoe <= 399,
            yy == yoe + era * 400,
    ;
    assert(leaps_before(1970) == 477);
    if mp < 10 {
        // March to December of year `yy`.
        assert(leaps_before(yy) + (if is_leap(yy) {
            1int
        } else {
            0
        }) == leaps_before(yy + 1)) by (nonlinear_arith);
    } else {
        // January or February of the next year.
        if mp == 11 && d == 29 {
            assert(doy == 365);
            assert(is_leap(yy + 1)) by (nonlinear_arith)
                requires
                    (yoe + 1) % 4 == 0 && ((yoe + 1) % 100 != 0 || yoe == 399),
                    0 <= yoe <= 399,
                    yy == yoe + era * 400,
            ;
        }
    }
}

/// `YYYY-MM-DDThh:mm:ssZ` for `secs` seconds since the Unix epoch (UTC).
pub open spec fn iso8601(secs: int) -> Seq<char> {
    let days = secs / 86_400;
    let tod = secs % 86_400;
    let (y, m, d) = civil_from_days(days);
    padded(y, 4) + seq!['-'] + padded(m, 2) + seq!['-'] + padded(d, 2) + seq!['T'] + padded(
        tod / 3600,
        2,
    ) + seq![':'] + padded((tod % 3600) / 60, 2) + seq![':'] + padded(tod % 60, 2) + seq!['Z']
}

/// The text `YYYY-MM-DDThh:mm:ssZ` of a date and a time of day.
pub open spec fn date_time_text(y: int, m: int, d: int, hh: int, mi: int, ss: int) -> Seq<char> {
    padded(y, 4) + seq!['-'] + padded(m, 2) + seq!['-'] + padded(d, 2) + seq!['T'] + padded(hh, 2) + seq![':']
        + padded(mi, 2) + seq![':'] + padded(ss, 2) + seq!['Z']
}

/// The timestamp of an event at `secs` seconds since the Unix epoch; an
/// instant before the epoch is stamped as the epoch itself.
pub open spec fn utc_stamp(secs: int) -> Seq<char> {
    iso8601(if secs < 0 {
        0
    } else {
        secs
    })
}

/// `iso8601` reads back as the instant it was made from: its text is that
/// of a valid calendar date and a time of day which together lie exactly
/// `secs` seconds after 1970-01-01T00:00:00Z.
pub proof fn iso8601_denotes_the_instant(secs: int)
    ensures
        ({
            let (y, m, d) = civil_from_days(secs / 86_400);
            let tod = secs % 86_400;
            let (hh, mi, ss) = (tod / 3600, (tod % 3600) / 60, tod % 60);
            &&& iso8601(secs) == date_time_text(y, m, d, hh, mi, ss)
            &&& valid_date(y, m, d)
            &&& 0 <= hh < 24 && 0 <= mi < 60 && 0 <= ss < 60
            &&& epoch_day(y, m, d) * 86_400 + hh * 3600 + mi * 60 + ss == secs
        }),
{
    let days = secs / 86_400;
    let tod = secs % 86_400;
    civil_date_is_the_day(days);
    assert(days * 86_400 + tod == secs) by (nonlinear_arith)
        requires
            days == secs / 86_400,
            tod == secs % 86_400,
    ;
    assert((tod / 3600) * 3600 + ((tod % 3600) / 60) * 60 + tod % 60 == tod && 0 <= tod / 3600 < 24
        && 0 <= (tod % 3600) / 60 < 60 && 0 <= tod % 60 < 60) by (nonlinear_arith)
        requires
            0 <= tod < 86_400,
    ;
}

/// `civil_from_days` for a day count of a representable instant.
fn civil(days: i128) -> (r: (i128, i128, i128))
    requires
        -0x1_0000_0000_0000_0000 < days < 0x1_0000_0000_0000_0000,
    ensures
        (r.0 as int, r.1 as int, r.2 as int) == civil_from_days(days as int),
        -0x1_0000_0000_0000_0000 < r.0 < 0x1_0000_0000_0000_0000,
        -1_000_000 < r.1 < 1_000_000,
        -1_000_000 < r.2 < 1_000_000,
{
    let z = days + 719_468;
    let era = floor_div(z, 146_097);
    let doe = z - era * 146_097;
    assert(0 <= doe < 146_097) by (nonlinear_arith)
        requires
            era == z / 146_097,
            doe == z - era * 146_097,
    ;
    assert(-0x1_0000_0000_0000_0000 < era < 0x1_0000_0000_0000_0000) by (nonlinear_arith)
        requires
            era == z / 146_097,
            -0x1_0000_0000_0000_0000 < z - 719_468 < 0x1_0000_0000_0000_0000,
    ;
    let yoe = (doe - doe / 1460 + doe / 36524 - doe / 146096) / 365;
    assert(0 <= yoe <= 400) by (nonlinear_arith)
        requires
            0 <= doe < 146_097,
            yoe == (doe - doe / 1460 + doe / 36524 - doe / 146096) / 365,
    ;
    let y = yoe + era * 400;
    let doy = doe - (365 * yoe + yoe / 4 - yoe / 100);
    assert(-1_000_000 <= doy <= 1_000_000) by (nonlinear_arith)
        requires
            0 <= doe < 146_097,
            0 <= yoe <= 400,
            doy == doe - (365 * yoe + yoe / 4 - yoe / 100),
    ;
    let mp = floor_div(5 * doy + 2, 153);
    assert(-100_000 <= mp <= 100_000) by (nonlinear_arith)
        requires
            -1_000_000 <= doy <= 1_000_000,
            mp == (5 * doy + 2) / 153,
    ;
    let q = floor_div(153 * mp + 2, 5);
    assert(-10_000_000 <= q <= 10_000_000) by (nonlinear_arith)
        requires
            -100_000 <= mp <= 100_000,
            q == (153 * mp + 2) / 5,
    ;
    let d = doy - q + 1;
    let m = if mp < 10 {
        mp + 3
    } else {
        mp - 9
    };
    let year = if m <= 2 {
        y + 1
    } else {
        y
    };
    (year, m, d)
}

/// Format seconds since the Unix epoch as `YYYY-MM-DDThh:mm:ssZ` (UTC,
/// second precision); an instant before the epoch formats as the epoch.
pub fn iso8601_utc(secs: i64) -> (s: String)
    ensures
        s@ == utc_stamp(secs as int),
{
    let secs: i128 = if secs < 0 {
        0
    } else {
        secs as i128
    };
    let days = floor_div(secs, 86_400);
    let tod = secs - days * 86_400;
    assert(tod == secs % 86_400);
    assert(0 <= tod < 86_400);
    assert(-0x1_0000_0000_0000_0000 < days < 0x1_0000_0000_0000_0000) by (nonlinear_arith)
        requires
            days == secs / 86_400,
            -0x8000_0000_0000_0000 <= secs < 0x8000_0000_0000_0000,
    ;
    let (year, m, d) = civil(days);
    let ghost (sy, sm, sd) = civil_from_days(days as int);
    let mut out: Vec<char> = Vec::new();
    push_padded(&mut out, year, 4);
    out.push('-');
    push_padded(&mut out, m, 2);
    out.push('-');
    push_padded(&mut out, d, 2);
    out.push('T');
    let ghost date = out@;
    assert(date == padded(sy, 4) + seq!['-'] + padded(sm, 2) + seq!['-'] + padded(sd, 2) + seq!['T']);
    push_padded(&mut out, tod / 3600, 2);
    out.push(':');
    push_padded(&mut out, (tod % 3600) / 60, 2);
    out.push(':');
    push_padded(&mut out, tod % 60, 2);
    out.push('Z');
    assert(out@ == date + padded((tod / 3600) as int, 2) + seq![':'] + padded(((tod % 3600) / 60) as int, 2)
        + seq![':'] + padded((tod % 60) as int, 2) + seq!['Z']);
    crate::text::string_of(&out, 0, out.len())
}

/// The identity of one hysteresis state: plugin, item key (`None` for a
/// plugin whose payload is one object) and field.
pub type StateKey = (PluginId, Option<Seq<char>>, Seq<char>);

/// One hysteresis state and its identity.
pub struct StateEntry {
    pub plugin: PluginId,
    pub key: Option<String>,
    pub field: &'static str,
    pub state: AlertState,
}

pub open spec fn entry_key(e: StateEntry) -> StateKey {
    (e.plugin, opt_string(e.key), e.field@)
}

/// No identity occurs twice among `e`, and every state is well formed.
pub open spec fn entries_ok(e: Seq<StateEntry>) -> bool {
    &&& forall|i: int, j: int|
        0 <= i < e.len() && 0 <= j < e.len() && i != j ==> entry_key(#[trigger] e[i]) != entry_key(
            #[trigger] e[j],
        )
    &&& forall|i: int| 0 <= i < e.len() ==> (#[trigger] e[i]).state.wf()
}

pub open spec fn has_key(e: Seq<StateEntry>, k: StateKey) -> bool {
    exists|i: int| 0 <= i < e.len() && entry_key(e[i]) == k
}

/// The states that the entries `e` hold, by identity.
pub open spec fn state_map(e: Seq<StateEntry>) -> Map<StateKey, AlertState> {
    Map::new(
        |k: StateKey| has_key(e, k),
        |k: StateKey| e[choose|i: int| 0 <= i < e.len() && entry_key(e[i]) == k].state,
    )
}

proof fn lemma_state_map_at(e: Seq<StateEntry>, i: int)
    requires
        entries_ok(e),
        0 <= i < e.len(),
    ensures
        state_map(e).contains_key(entry_key(e[i])),
        state_map(e)[entry_key(e[i])] == e[i].state,
{
    let k = entry_key(e[i]);
    assert(has_key(e, k));
    let j = choose|j: int| 0 <= j < e.len() && entry_key(e[j]) == k;
    assert(j == i);
}

proof fn lemma_update_entry(e: Seq<StateEntry>, i: int, n: StateEntry)
    requires
        entries_ok(e),
        0 <= i < e.len(),
        entry_key(n) == entry_key(e[i]),
        n.state.wf(),
    ensures
        entries_ok(e.update(i, n)),
        state_map(e.update(i, n)) == state_map(e).insert(entry_key(n), n.state),
{
    let e2 = e.update(i, n);
    assert forall|a: int, b: int|
        0 <= a < e2.len() && 0 <= b < e2.len() && a != b implies entry_key(#[trigger] e2[a]) != entry_key(
        #[trigger] e2[b],
    ) by {
        assert(entry_key(e2[a]) == entry_key(e[a]));
        assert(entry_key(e2[b]) == entry_key(e[b]));
    }
    assert forall|a: int| 0 <= a < e2.len() implies (#[trigger] e2[a]).state.wf() by {
        if a != i {
            assert(e2[a] == e[a]);
        }
    }
    let m = state_map(e).insert(entry_key(n), n.state);
    assert forall|k: StateKey| #[trigger] state_map(e2).contains_key(k) <==> m.contains_key(k) by {
        if has_key(e2, k) {
            let a = choose|a: int| 0 <= a < e2.len() && entry_key(e2[a]) == k;
            assert(entry_key(e[a]) == k);
        }
        if has_key(e, k) {
            let a = choose|a: int| 0 <= a < e.len() && entry_key(e[a]) == k;
            assert(entry_key(e2[a]) == k);
        }
    }
    assert forall|k: StateKey| #[trigger] state_map(e2).contains_key(k) implies state_map(e2)[k] == m[k] by {
        let a = choose|a: int| 0 <= a < e2.len() && entry_key(e2[a]) == k;
        lemma_state_map_at(e2, a);
        if a != i {
            assert(e2[a] == e[a]);
            lemma_state_map_at(e, a);
        }
    }
    assert(state_map(e2) =~= m);
}

proof fn lemma_push_entry(e: Seq<StateEntry>, n: StateEntry)
    requires
        entries_ok(e),
        !has_key(e, entry_key(n)),
        n.state.wf(),
    ensures
        entries_ok(e.push(n)),
        state_map(e.push(n)) == state_map(e).insert(entry_key(n), n.state),
{
    let e2 = e.push(n);
    assert forall|a: int, b: int|
        0 <= a < e2.len() && 0 <= b < e2.len() && a != b implies entry_key(#[trigger] e2[a]) != entry_key(
        #[trigger] e2[b],
    ) by {
        if a < e.len() && b < e.len() {
            assert(e2[a] == e[a] && e2[b] == e[b]);
        } else if a < e.len() {
            assert(e2[a] == e[a]);
        } else {
            assert(e2[b] == e[b]);
        }
    }
    assert forall|a: int| 0 <= a < e2.len() implies (#[trigger] e2[a]).state.wf() by {
        if a < e.len() {
            assert(e2[a] == e[a]);
        }
    }
    let m = state_map(e).insert(entry_key(n), n.state);
    assert forall|k: StateKey| #[trigger] state_map(e2).contains_key(k) <==> m.contains_key(k) by {
        if has_key(e2, k) {
            let a = choose|a: int| 0 <= a < e2.len() && entry_key(e2[a]) == k;
            if a < e.len() {
                assert(e2[a] == e[a]);
            }
        }
        if has_key(e, k) {
            let a = choose|a: int| 0 <= a < e.len() && entry_key(e[a]) == k;
            assert(e2[a] == e[a]);
        }
        if k == entry_key(n) {
            assert(e2[e.len() as int] == n);
        }
    }
    assert forall|k: StateKey| #[trigger] state_map(e2).contains_key(k) implies state_map(e2)[k] == m[k] by {
        let a = choose|a: int| 0 <= a < e2.len() && entry_key(e2[a]) == k;
        lemma_state_map_at(e2, a);
        if a < e.len() {
            assert(e2[a] == e[a]);
            lemma_state_map_at(e, a);
        }
    }
    assert(state_map(e2) =~= m);
}

/// `st` with no pending level.
pub open spec fn cleared(st: AlertState) -> AlertState {
    AlertState { pending_level: None, pending_since: None, ..st }
}

/// The idle-gap reset: every state of plugin `id` loses its pending level;
/// committed levels stay.
pub open spec fn reset_pending(m: Map<StateKey, AlertState>, id: PluginId) -> Map<StateKey, AlertState> {
    Map::new(
        |k: StateKey| m.contains_key(k),
        |k: StateKey| if k.0 == id {
            cleared(m[k])
        } else {
            m[k]
        },
    )
}

/// Whether the state `k` survives pruning after plugin `id` reported the
/// item keys `live`: states of other plugins and of the whole payload stay,
/// item states stay only while their item is reported.
pub open spec fn survives(k: StateKey, id: PluginId, live: Seq<Seq<char>>) -> bool {
    k.0 != id || match k.1 {
        Some(key) => live.contains(key),
        None => true,
    }
}

/// The states left after pruning.
pub open spec fn pruned(m: Map<StateKey, AlertState>, id: PluginId, live: Seq<Seq<char>>) -> Map<StateKey, AlertState> {
    Map::new(|k: StateKey| m.contains_key(k) && survives(k, id, live), |k: StateKey| m[k])
}

fn opt_str_eq(a: &Option<String>, b: &Option<String>) -> (r: bool)
    ensures
        r == (opt_string(*a) == opt_string(*b)),
{
    match (a, b) {
        (Some(x), Some(y)) => str_eq(x.as_str(), y.as_str()),
        (None, None) => true,
        _ => false,
    }
}

fn clone_opt(a: &Option<String>) -> (r: Option<String>)
    ensures
        opt_string(r) == opt_string(*a),
{
    match a {
        Some(x) => Some(x.clone()),
        None => None,
    }
}

/// Position of the state `(id, key, field)` among `entries`.
fn find_state(entries: &Vec<StateEntry>, id: PluginId, key: &Option<String>, field: &str) -> (r: Option<usize>)
    ensures
        r matches Some(i) ==> i < entries@.len() && entry_key(entries@[i as int]) == (
            id,
            opt_string(*key),
            field@,
        ),
        r is None ==> !has_key(entries@, (id, opt_string(*key), field@)),
{
    let mut i: usize = 0;
    while i < entries.len()
        invariant
            0 <= i <= entries@.len(),
            forall|j: int| 0 <= j < i ==> entry_key(#[trigger] entries@[j]) != (id, opt_string(*key), field@),
        decreases entries@.len() - i,
    {
        let e = &entries[i];
        if e.plugin == id && opt_str_eq(&e.key, key) && str_eq(e.field, field) {
            return Some(i);
        }
        i = i + 1;
    }
    None
}

/// The texts of strings.
fn contains_str(v: &Vec<String>, k: &String) -> (r: bool)
    ensures
        r == texts(v@).contains(k@),
{
    let mut i: usize = 0;
    while i < v.len()
        invariant
            0 <= i <= v@.len(),
            forall|j: int| 0 <= j < i ==> (#[trigger] v@[j])@ != k@,
        decreases v@.len() - i,
    {
        if str_eq(v[i].as_str(), k.as_str()) {
            assert(texts(v@)[i as int] == k@);
            return true;
        }
        i = i + 1;
    }
    assert forall|j: int| 0 <= j < texts(v@).len() implies texts(v@)[j] != k@ by {
        assert(texts(v@)[j] == v@[j]@);
    }
    false
}

/// Removes the states of items of plugin `id` that are no longer reported.
fn prune_states(entries: Vec<StateEntry>, id: PluginId, live: &Vec<String>) -> (r: Vec<StateEntry>)
    requires
        entries_ok(entries@),
    ensures
        entries_ok(r@),
        state_map(r@) == pruned(state_map(entries@), id, texts(live@)),
{
    let ghost orig = entries@;
    let ghost lv = texts(live@);
    let mut rest = entries;
    let mut acc: Vec<StateEntry> = Vec::new();
    let ghost mut from: Seq<int> = Seq::empty();
    let ghost mut to: Map<int, int> = Map::empty();
    while rest.len() > 0
        invariant
            rest@ == orig.take(rest@.len() as int),
            rest@.len() <= orig.len(),
            entries_ok(orig),
            entries_ok(acc@),
            lv == texts(live@),
            from.len() == acc@.len(),
            forall|a: int|
                0 <= a < acc@.len() ==> rest@.len() <= #[trigger] from[a] < orig.len() && acc@[a]
                    == orig[from[a]] && survives(entry_key(orig[from[a]]), id, lv),
            forall|i: int|
                rest@.len() <= i < orig.len() && survives(entry_key(#[trigger] orig[i]), id, lv)
                    ==> to.contains_key(i) && 0 <= to[i] < acc@.len() && acc@[to[i]] == orig[i],
        decreases rest@.len(),
    {
        let ghost n = rest@.len() - 1;
        let e = rest.pop().unwrap();
        assert(e == orig[n]);
        assert(rest@ == orig.take(n));
        let keep = e.plugin != id || match &e.key {
            Some(k) => contains_str(live, k),
            None => true,
        };
        assert(keep == survives(entry_key(e), id, lv));
        if keep {
            let ghost acc0 = acc@;
            proof {
                assert forall|a: int| 0 <= a < acc0.len() implies entry_key(acc0[a]) != entry_key(e) by {
                    assert(acc0[a] == orig[from[a]]);
                    assert(from[a] != n);
                }
            }
            acc.push(e);
            proof {
                from = from.push(n);
                to = to.insert(n, acc0.len() as int);
                assert forall|a: int, b: int|
                    0 <= a < acc@.len() && 0 <= b < acc@.len() && a != b implies entry_key(
                    #[trigger] acc@[a],
                ) != entry_key(#[trigger] acc@[b]) by {
                    if a < acc0.len() && b < acc0.len() {
                        assert(acc@[a] == acc0[a] && acc@[b] == acc0[b]);
                    } else if a < acc0.len() {
                        assert(acc@[a] == acc0[a]);
                    } else {
                        assert(acc@[b] == acc0[b]);
                    }
                }
                assert forall|a: int| 0 <= a < acc@.len() implies (#[trigger] acc@[a]).state.wf() by {
                    if a < acc0.len() {
                        assert(acc@[a] == acc0[a]);
                    }
                }
                assert forall|a: int|
                    0 <= a < acc@.len() implies n <= #[trigger] from[a] < orig.len() && acc@[a]
                        == orig[from[a]] && survives(entry_key(orig[from[a]]), id, lv) by {
                    if a < acc0.len() {
                        assert(acc@[a] == acc0[a]);
                    }
                }
            }
        }
    }
    proof {
        let m = pruned(state_map(orig), id, lv);
        assert forall|k: StateKey| #[trigger] state_map(acc@).contains_key(k) <==> m.contains_key(k) by {
            if has_key(acc@, k) {
                let a = choose|a: int| 0 <= a < acc@.len() && entry_key(acc@[a]) == k;
                assert(acc@[a] == orig[from[a]]);
                assert(has_key(orig, k));
            }
            if m.contains_key(k) {
                let i = choose|i: int| 0 <= i < orig.len() && entry_key(orig[i]) == k;
                assert(survives(entry_key(orig[i]), id, lv));
                assert(entry_key(acc@[to[i]]) == k);
            }
        }
        assert forall|k: StateKey| #[trigger] state_map(acc@).contains_key(k) implies state_map(acc@)[k]
            == m[k] by {
            let a = choose|a: int| 0 <= a < acc@.len() && entry_key(acc@[a]) == k;
            assert(acc@[a] == orig[from[a]]);
            lemma_state_map_at(acc@, a);
            lemma_state_map_at(orig, from[a]);
        }
        assert(state_map(acc@) =~= m);
    }
    acc
}

/// The state of an entry after the idle-gap reset of plugin `id`.
pub open spec fn after_reset(e: StateEntry, id: PluginId) -> AlertState {
    if e.plugin == id {
        cleared(e.state)
    } else {
        e.state
    }
}

/// Clears the pending level of every state of plugin `id`.
fn reset_states(entries: Vec<StateEntry>, id: PluginId) -> (r: Vec<StateEntry>)
    requires
        entries_ok(entries@),
    ensures
        entries_ok(r@),
        state_map(r@) == reset_pending(state_map(entries@), id),
{
    let ghost orig = entries@;
    let mut v = entries;
    let mut i: usize = 0;
    while i < v.len()
        invariant
            0 <= i <= v@.len(),
            v@.len() == orig.len(),
            entries_ok(orig),
            forall|j: int|
                0 <= j < v@.len() ==> entry_key(#[trigger] v@[j]) == entry_key(orig[j]) && v@[j].state
                    == if j < i {
                    after_reset(orig[j], id)
                } else {
                    orig[j].state
                },
        decreases v@.len() - i,
    {
        if v[i].plugin == id {
            let n = StateEntry {
                plugin: v[i].plugin,
                key: clone_opt(&v[i].key),
                field: v[i].field,
                state: AlertState { pending_level: None, pending_since: None, ..v[i].state },
            };
            v.set(i, n);
        }
        i = i + 1;
    }
    proof {
        assert forall|a: int, b: int|
            0 <= a < v@.len() && 0 <= b < v@.len() && a != b implies entry_key(#[trigger] v@[a])
            != entry_key(#[trigger] v@[b]) by {
            assert(entry_key(v@[a]) == entry_key(orig[a]));
            assert(entry_key(v@[b]) == entry_key(orig[b]));
        }
        assert forall|a: int| 0 <= a < v@.len() implies (#[trigger] v@[a]).state.wf() by {
            assert(entry_key(v@[a]) == entry_key(orig[a]));
        }
        let m = reset_pending(state_map(orig), id);
        assert forall|k: StateKey| #[trigger] state_map(v@).contains_key(k) <==> m.contains_key(k) by {
            if has_key(v@, k) {
                let a = choose|a: int| 0 <= a < v@.len() && entry_key(v@[a]) == k;
                assert(entry_key(v@[a]) == entry_key(orig[a]));
            }
            if has_key(orig, k) {
                let a = choose|a: int| 0 <= a < orig.len() && entry_key(orig[a]) == k;
                assert(entry_key(v@[a]) == entry_key(orig[a]));
            }
        }
        assert forall|k: StateKey| #[trigger] state_map(v@).contains_key(k) implies state_map(v@)[k]
            == m[k] by {
            let a = choose|a: int| 0 <= a < v@.len() && entry_key(v@[a]) == k;
            assert(entry_key(v@[a]) == entry_key(orig[a]));
            lemma_state_map_at(v@, a);
            lemma_state_map_at(orig, a);
        }
        assert(state_map(v@) =~= m);
    }
    v
}

/// One alertable field as read from a payload: its value, the value of its
/// divisor field (for a field compared against a capacity), and the quotient
/// of the two as `f64` division gives it. `None` where the payload has no
/// such number.
#[derive(Debug, Clone, Copy, PartialEq, Eq, Structural)]
pub struct FieldSample {
    pub raw: Option<Num>,
    pub divisor: Option<Num>,
    pub ratio: Option<Num>,
}

/// One item of a collection payload: its primary-key value (as a string;
/// `None` when the item has none) and its alertable fields, in the order of
/// `alert_fields`.
pub struct ItemSample {
    pub key: Option<String>,
    pub fields: Vec<FieldSample>,
}

/// The alertable part of one collected payload.
pub enum Sample {
    /// A payload that is one object: its alertable fields.
    Scalar(Vec<FieldSample>),
    /// A collection payload: its items.
    Collection(Vec<ItemSample>),
}

/// An alertable field's entry in the alert table.
pub type FieldSpec = (Seq<char>, bool, Direction, Option<Seq<char>>);

/// The level of one alertable field and its raw value, or `None` when the
/// field is absent, no limit applies, or its divisor is absent, zero or not
/// finite.
pub open spec fn level_for(c: Config, id: PluginId, item: Option<Seq<char>>, af: FieldSpec, fs: FieldSample) -> Option<(Level, Num)> {
    match fs.raw {
        None => None,
        Some(raw) => match resolved(c, id, item, af.0) {
            None => None,
            Some(t) => match af.3 {
                None => Some((level_of(raw, t, af.2), raw)),
                Some(_) => match fs.divisor {
                    None => None,
                    Some(dv) => if !dv.finite() || dv.zero() {
                        None
                    } else {
                        match fs.ratio {
                            Some(q) => Some((level_of(q, t, af.2), raw)),
                            None => None,
                        }
                    },
                },
            },
        },
    }
}

/// An observation: item key, field, prominence, level, raw value.
pub type ObsView = (Option<Seq<char>>, Seq<char>, bool, Level, Num);

/// The observations of one item (or of the payload), in field order.
pub open spec fn field_obs(c: Config, id: PluginId, key: Option<Seq<char>>, afs: Seq<FieldSpec>, fss: Seq<FieldSample>) -> Seq<ObsView>
    decreases afs.len(),
{
    if afs.len() == 0 || fss.len() == 0 {
        seq![]
    } else {
        let rest = field_obs(c, id, key, afs.drop_first(), fss.drop_first());
        match level_for(c, id, key, afs[0], fss[0]) {
            Some((l, raw)) => seq![(key, afs[0].0, afs[0].1, l, raw)] + rest,
            None => rest,
        }
    }
}

/// The `_levels` entries of observations: field, level, prominence.
pub open spec fn obs_levels(obs: Seq<ObsView>) -> Seq<(Seq<char>, Level, bool)> {
    obs.map_values(|o: ObsView| (o.1, o.3, o.2))
}

/// One item of a collection sample: key and fields.
pub open spec fn item_view(it: ItemSample) -> (Option<Seq<char>>, Seq<FieldSample>) {
    (opt_string(it.key), it.fields@)
}

pub open spec fn items_view(items: Seq<ItemSample>) -> Seq<(Option<Seq<char>>, Seq<FieldSample>)> {
    items.map_values(|it: ItemSample| item_view(it))
}

/// The observations of a collection, item by item; items without a key are
/// skipped.
pub open spec fn items_obs(c: Config, id: PluginId, afs: Seq<FieldSpec>, items: Seq<(Option<Seq<char>>, Seq<FieldSample>)>) -> Seq<ObsView>
    decreases items.len(),
{
    if items.len() == 0 {
        seq![]
    } else {
        let rest = items_obs(c, id, afs, items.drop_first());
        match items[0].0 {
            Some(k) => field_obs(c, id, Some(k), afs, items[0].1) + rest,
            None => rest,
        }
    }
}

/// The `_levels` of a collection: for each keyed item with at least one
/// entry, its key and entries.
pub open spec fn items_levels(c: Config, id: PluginId, afs: Seq<FieldSpec>, items: Seq<(Option<Seq<char>>, Seq<FieldSample>)>) -> Seq<(Seq<char>, Seq<(Seq<char>, Level, bool)>)>
    decreases items.len(),
{
    if items.len() == 0 {
        seq![]
    } else {
        let rest = items_levels(c, id, afs, items.drop_first());
        match items[0].0 {
            Some(k) => {
                let o = field_obs(c, id, Some(k), afs, items[0].1);
                if o.len() > 0 {
                    seq![(k, obs_levels(o))] + rest
                } else {
                    rest
                }
            },
            None => rest,
        }
    }
}

/// An item's observations are non-empty exactly when one of its alertable
/// fields gets a level: it has a value, a limit applies to it and, for a
/// field compared against a capacity, the capacity is finite and non-zero.
pub proof fn field_obs_nonempty(c: Config, id: PluginId, key: Option<Seq<char>>, afs: Seq<FieldSpec>, fss: Seq<FieldSample>)
    ensures
        field_obs(c, id, key, afs, fss).len() > 0 <==> exists|j: int|
            0 <= j < afs.len() && j < fss.len() && (#[trigger] level_for(c, id, key, afs[j], fss[j])) is Some,
    decreases afs.len(),
{
    if afs.len() == 0 || fss.len() == 0 {
    } else {
        field_obs_nonempty(c, id, key, afs.drop_first(), fss.drop_first());
        if field_obs(c, id, key, afs.drop_first(), fss.drop_first()).len() > 0 {
            let j = choose|j: int|
                0 <= j < afs.drop_first().len() && j < fss.drop_first().len()
                    && (#[trigger] level_for(c, id, key, afs.drop_first()[j], fss.drop_first()[j])) is Some;
            assert(level_for(c, id, key, afs[j + 1], fss[j + 1]) is Some);
        }
        if exists|j: int| 0 <= j < afs.len() && j < fss.len() && (#[trigger] level_for(c, id, key, afs[j], fss[j])) is Some {
            let j = choose|j: int| 0 <= j < afs.len() && j < fss.len() && (#[trigger] level_for(c, id, key, afs[j], fss[j])) is Some;
            if j > 0 {
                assert(level_for(c, id, key, afs.drop_first()[j - 1], fss.drop_first()[j - 1]) is Some);
            }
        }
    }
}

/// Which items of a collection get `_levels`: every entry belongs to an
/// item that has a key and at least one observation, and holds the levels
/// of that item's observations; and every such item has its entry, under
/// its key. Nothing else enters the decoration.
pub proof fn collection_levels_are_the_keyed_observed_items(
    c: Config,
    id: PluginId,
    afs: Seq<FieldSpec>,
    items: Seq<(Option<Seq<char>>, Seq<FieldSample>)>,
)
    ensures
        ({
            let l = items_levels(c, id, afs, items);
            &&& forall|j: int| #![trigger l[j]] 0 <= j < l.len() ==> exists|i: int|
                0 <= i < items.len() && #[trigger] items[i].0 == Some(l[j].0)
                    && field_obs(c, id, Some(l[j].0), afs, items[i].1).len() > 0
                    && l[j].1 == obs_levels(field_obs(c, id, Some(l[j].0), afs, items[i].1))
            &&& forall|i: int| 0 <= i < items.len() && (#[trigger] items[i]).0 is Some
                && field_obs(c, id, items[i].0, afs, items[i].1).len() > 0 ==> exists|j: int|
                0 <= j < l.len() && #[trigger] l[j] == (items[i].0->0, obs_levels(field_obs(c, id, items[i].0, afs, items[i].1)))
        }),
    decreases items.len(),
{
    if items.len() > 0 {
        let tail = items.drop_first();
        collection_levels_are_the_keyed_observed_items(c, id, afs, tail);
        let l = items_levels(c, id, afs, items);
        let lt = items_levels(c, id, afs, tail);
        let (shift, head) = match items[0].0 {
            Some(k) => if field_obs(c, id, Some(k), afs, items[0].1).len() > 0 {
                (1int, true)
            } else {
                (0int, false)
            },
            None => (0int, false),
        };
        assert(l.len() == lt.len() + shift);
        assert forall|j: int| shift <= j < l.len() implies l[j] == lt[j - shift] by {}
        assert forall|j: int| #![trigger l[j]] 0 <= j < l.len() implies exists|i: int|
            0 <= i < items.len() && #[trigger] items[i].0 == Some(l[j].0)
                && field_obs(c, id, Some(l[j].0), afs, items[i].1).len() > 0
                && l[j].1 == obs_levels(field_obs(c, id, Some(l[j].0), afs, items[i].1)) by {
            if head && j == 0 {
                assert(items[0].0 == Some(l[0].0));
            } else {
                assert(l[j] == lt[j - shift]);
                let i = choose|i: int|
                    0 <= i < tail.len() && #[trigger] tail[i].0 == Some(lt[j - shift].0)
                        && field_obs(c, id, Some(lt[j - shift].0), afs, tail[i].1).len() > 0
                        && lt[j - shift].1 == obs_levels(field_obs(c, id, Some(lt[j - shift].0), afs, tail[i].1));
                assert(items[i + 1] == tail[i]);
                assert(items[i + 1].0 == Some(l[j].0));
            }
        }
        assert forall|i: int| 0 <= i < items.len() && (#[trigger] items[i]).0 is Some
            && field_obs(c, id, items[i].0, afs, items[i].1).len() > 0 implies exists|j: int|
            0 <= j < l.len() && #[trigger] l[j] == (items[i].0->0, obs_levels(field_obs(c, id, items[i].0, afs, items[i].1))) by {
            if i == 0 {
                assert(l[0] == (items[0].0->0, obs_levels(field_obs(c, id, items[0].0, afs, items[0].1))));
            } else {
                assert(tail[i - 1] == items[i]);
                let j = choose|j: int|
                    0 <= j < lt.len() && #[trigger] lt[j] == (tail[i - 1].0->0, obs_levels(field_obs(c, id, tail[i - 1].0, afs, tail[i - 1].1)));
                assert(l[j + shift] == lt[j]);
            }
        }
    }
}

/// The keys of the items of a collection that have one.
pub open spec fn live_keys(items: Seq<(Option<Seq<char>>, Seq<FieldSample>)>) -> Seq<Seq<char>>
    decreases items.len(),
{
    if items.len() == 0 {
        seq![]
    } else {
        let rest = live_keys(items.drop_first());
        match items[0].0 {
            Some(k) => seq![k] + rest,
            None => rest,
        }
    }
}

/// The level of one alertable field for `item` (or the payload).
fn level_for_exec(config: &Config, id: PluginId, item: &Option<String>, af: &AlertField, fs: &FieldSample) -> (r: Option<(Level, Num)>)
    ensures
        r == level_for(*config, id, opt_string(*item), af_view(*af), *fs),
{
    let raw = match fs.raw {
        Some(v) => v,
        None => return None,
    };
    let t = match item {
        Some(k) => resolve(config, id, Some(k.as_str()), af.field),
        None => resolve(config, id, None, af.field),
    };
    let t = match t {
        Some(t) => t,
        None => return None,
    };
    match af.normalize_by {
        None => Some((compute_level(raw, &t, af.direction), raw)),
        Some(_) => match fs.divisor {
            None => None,
            Some(dv) => {
                if !dv.is_finite() || dv.is_zero() {
                    None
                } else {
                    match fs.ratio {
                        Some(q) => Some((compute_level(q, &t, af.direction), raw)),
                        None => None,
                    }
                }
            },
        },
    }
}

/// A field's level as the `_levels` decoration carries it.
#[derive(Debug, Clone, Copy)]
pub struct FieldLevel {
    pub field: &'static str,
    pub level: Level,
    pub prominent: bool,
}

pub open spec fn field_level_view(f: FieldLevel) -> (Seq<char>, Level, bool) {
    (f.field@, f.level, f.prominent)
}

pub open spec fn field_levels_view(v: Seq<FieldLevel>) -> Seq<(Seq<char>, Level, bool)> {
    v.map_values(|f: FieldLevel| field_level_view(f))
}

/// An observation of the exec side.
struct Observation {
    key: Option<String>,
    field: &'static str,
    prominent: bool,
    level: Level,
    raw: Num,
}

spec fn obs_view(o: Observation) -> ObsView {
    (opt_string(o.key), o.field@, o.prominent, o.level, o.raw)
}

spec fn obs_views(v: Seq<Observation>) -> Seq<ObsView> {
    v.map_values(|o: Observation| obs_view(o))
}

/// The table entries of alert fields.
pub open spec fn af_views(afs: Seq<AlertField>) -> Seq<FieldSpec> {
    afs.map_values(|a: AlertField| af_view(a))
}

/// Appends the observations of one item (or of the payload) to `obs` and
/// returns its `_levels` entries.
fn item_observations(
    config: &Config,
    id: PluginId,
    key: &Option<String>,
    afs: &Vec<AlertField>,
    fss: &Vec<FieldSample>,
    obs: &mut Vec<Observation>,
) -> (levels: Vec<FieldLevel>)
    ensures
        obs_views(final(obs)@) == obs_views(old(obs)@) + field_obs(*config, id, opt_string(*key), af_views(afs@), fss@),
        field_levels_view(levels@) == obs_levels(field_obs(*config, id, opt_string(*key), af_views(afs@), fss@)),
{
    let ghost all = field_obs(*config, id, opt_string(*key), af_views(afs@), fss@);
    let ghost obs0 = obs_views(obs@);
    let mut levels: Vec<FieldLevel> = Vec::new();
    let mut k: usize = 0;
    let n = if afs.len() < fss.len() {
        afs.len()
    } else {
        fss.len()
    };
    assert(af_views(afs@).skip(0) == af_views(afs@));
    assert(fss@.skip(0) == fss@);
    while k < n
        invariant
            0 <= k <= n,
            n <= afs@.len(),
            n <= fss@.len(),
            n == afs@.len() || n == fss@.len(),
            all == field_obs(*config, id, opt_string(*key), af_views(afs@), fss@),
            all == (obs_views(obs@).skip(obs0.len() as int)) + field_obs(
                *config,
                id,
                opt_string(*key),
                af_views(afs@).skip(k as int),
                fss@.skip(k as int),
            ),
            obs_views(obs@).take(obs0.len() as int) == obs0,
            obs_views(obs@).len() >= obs0.len(),
            field_levels_view(levels@) == obs_levels(obs_views(obs@).skip(obs0.len() as int)),
        decreases n - k,
    {
        let ghost a = af_views(afs@).skip(k as int);
        let ghost f = fss@.skip(k as int);
        assert(a[0] == af_view(afs@[k as int]));
        assert(f[0] == fss@[k as int]);
        assert(a.drop_first() == af_views(afs@).skip(k + 1));
        assert(f.drop_first() == fss@.skip(k + 1));
        let ghost before = obs_views(obs@);
        match level_for_exec(config, id, key, &afs[k], &fss[k]) {
            Some((level, raw)) => {
                let af = afs[k];
                obs.push(Observation { key: clone_opt(key), field: af.field, prominent: af.prominent, level, raw });
                levels.push(FieldLevel { field: af.field, level, prominent: af.prominent });
                proof {
                    let o = (opt_string(*key), af.field@, af.prominent, level, raw);
                    assert(obs_views(obs@) == before.push(o));
                    assert(obs_views(obs@).skip(obs0.len() as int) == before.skip(obs0.len() as int).push(o));
                    assert(obs_views(obs@).take(obs0.len() as int) == before.take(obs0.len() as int));
                    assert(field_levels_view(levels@) == obs_levels(before.skip(obs0.len() as int)).push(
                        (af.field@, level, af.prominent),
                    ));
                    assert(obs_levels(obs_views(obs@).skip(obs0.len() as int)) == obs_levels(
                        before.skip(obs0.len() as int),
                    ).push((af.field@, level, af.prominent)));
                    assert(before.skip(obs0.len() as int).push(o) + field_obs(*config, id, opt_string(*key), a.drop_first(), f.drop_first())
                        == before.skip(obs0.len() as int) + (seq![o] + field_obs(*config, id, opt_string(*key), a.drop_first(), f.drop_first())));
                }
            },
            None => {},
        }
        k = k + 1;
    }
    proof {
        assert(field_obs(*config, id, opt_string(*key), af_views(afs@).skip(n as int), fss@.skip(n as int)) == Seq::<ObsView>::empty());
        assert(obs_views(obs@) == obs0 + obs_views(obs@).skip(obs0.len() as int));
    }
    levels
}

/// A journaled level transition, the public alert event.
pub struct AlertEvent {
    pub ts: String,
    pub plugin: PluginId,
    /// The item's primary-key value; `None` for a plugin whose payload is
    /// one object.
    pub key: Option<String>,
    pub field: &'static str,
    pub level: Level,
    pub previous_level: Level,
    /// The raw (undivided) field value.
    pub value: Num,
    pub prominent: bool,
    pub is_initial: bool,
    pub hostname: String,
}

/// What an event says.
pub struct EventView {
    pub ts: Seq<char>,
    pub plugin: PluginId,
    pub key: Option<Seq<char>>,
    pub field: Seq<char>,
    pub level: Level,
    pub previous_level: Level,
    pub value: Num,
    pub prominent: bool,
    pub is_initial: bool,
    pub hostname: Seq<char>,
}

pub open spec fn event_view(e: AlertEvent) -> EventView {
    EventView {
        ts: e.ts@,
        plugin: e.plugin,
        key: opt_string(e.key),
        field: e.field@,
        level: e.level,
        previous_level: e.previous_level,
        value: e.value,
        prominent: e.prominent,
        is_initial: e.is_initial,
        hostname: e.hostname@,
    }
}

pub open spec fn events_view(h: Seq<AlertEvent>) -> Seq<EventView> {
    h.map_values(|e: AlertEvent| event_view(e))
}

/// The event of a transition of observation `o`.
pub open spec fn event_of(host: Seq<char>, ts: Seq<char>, id: PluginId, o: ObsView, t: Transition) -> EventView {
    EventView {
        ts,
        plugin: id,
        key: o.0,
        field: o.1,
        level: t.new,
        previous_level: t.previous,
        value: o.4,
        prominent: o.2,
        is_initial: t.is_initial,
        hostname: host,
    }
}

/// The last `size` events of `h` (all of them when there are fewer).
pub open spec fn bounded(h: Seq<EventView>, size: nat) -> Seq<EventView> {
    if h.len() > size {
        h.skip(h.len() - size)
    } else {
        h
    }
}

/// The observations applied in order: each runs its state (a fresh one when
/// there is none yet) through `reconciled`, and each transition that
/// commits is journaled, keeping the last `size` events.
pub open spec fn apply_obs(
    m: Map<StateKey, AlertState>,
    h: Seq<EventView>,
    id: PluginId,
    obs: Seq<ObsView>,
    now: u64,
    min_duration: u64,
    size: nat,
    host: Seq<char>,
    ts: Seq<char>,
) -> (Map<StateKey, AlertState>, Seq<EventView>)
    decreases obs.len(),
{
    if obs.len() == 0 {
        (m, h)
    } else {
        let o = obs[0];
        let k = (id, o.0, o.1);
        let st = if m.contains_key(k) {
            m[k]
        } else {
            AlertState::initial()
        };
        let (st2, tr) = reconciled(st, o.3, now, min_duration);
        let h2 = match tr {
            Some(t) => bounded(h.push(event_of(host, ts, id, o, t)), size),
            None => h,
        };
        apply_obs(m.insert(k, st2), h2, id, obs.drop_first(), now, min_duration, size, host, ts)
    }
}

/// The events that applying the observations commits, in order, before
/// the journal's bound is applied.
pub open spec fn committed_events(
    m: Map<StateKey, AlertState>,
    id: PluginId,
    obs: Seq<ObsView>,
    now: u64,
    min_duration: u64,
    host: Seq<char>,
    ts: Seq<char>,
) -> Seq<EventView>
    decreases obs.len(),
{
    if obs.len() == 0 {
        seq![]
    } else {
        let o = obs[0];
        let k = (id, o.0, o.1);
        let st = if m.contains_key(k) {
            m[k]
        } else {
            AlertState::initial()
        };
        let (st2, tr) = reconciled(st, o.3, now, min_duration);
        let rest = committed_events(m.insert(k, st2), id, obs.drop_first(), now, min_duration, host, ts);
        match tr {
            Some(t) => seq![event_of(host, ts, id, o, t)] + rest,
            None => rest,
        }
    }
}

/// Keeping the last `n` events after every append keeps the last `n` of
/// everything appended: bounding the journal before more events arrive
/// changes nothing in what it holds afterwards.
pub proof fn bounded_of_bounded(x: Seq<EventView>, y: Seq<EventView>, n: nat)
    ensures
        bounded(bounded(x, n) + y, n) == bounded(x + y, n),
        bounded(x + y, n).len() <= n,
        (x + y).len() <= n ==> bounded(x + y, n) == x + y,
{
    let bx = bounded(x, n);
    let l = bounded(bx + y, n);
    let r = bounded(x + y, n);
    assert(l.len() == r.len());
    assert forall|i: int| 0 <= i < l.len() implies l[i] == r[i] by {
        let off_l = (bx + y).len() - l.len();
        let off_r = (x + y).len() - r.len();
        let d = x.len() - bx.len();
        assert(off_r == off_l + d);
        if off_l + i < bx.len() {
            assert(l[i] == bx[off_l + i]);
            assert(bx[off_l + i] == x[d + off_l + i]);
        } else {
            assert(l[i] == y[off_l + i - bx.len()]);
        }
    }
    assert(l =~= r);
}

/// A cycle's events enter the journal as a ring buffer does: the journal
/// after the cycle is the last `size` of the journal before it followed by
/// the events the cycle commits, oldest first. The hysteresis states it
/// leaves do not depend on the journal.
pub proof fn journal_keeps_the_last_events(
    m: Map<StateKey, AlertState>,
    h: Seq<EventView>,
    id: PluginId,
    obs: Seq<ObsView>,
    now: u64,
    min_duration: u64,
    size: nat,
    host: Seq<char>,
    ts: Seq<char>,
)
    requires
        h.len() <= size,
    ensures
        apply_obs(m, h, id, obs, now, min_duration, size, host, ts).1
            == bounded(h + committed_events(m, id, obs, now, min_duration, host, ts), size),
        apply_obs(m, h, id, obs, now, min_duration, size, host, ts).1.len() <= size,
        apply_obs(m, h, id, obs, now, min_duration, size, host, ts).0
            == apply_obs(m, seq![], id, obs, now, min_duration, size, host, ts).0,
    decreases obs.len(),
{
    if obs.len() == 0 {
        assert(h + seq![] =~= h);
        bounded_of_bounded(h, seq![], size);
        assert(h + Seq::<EventView>::empty() =~= h);
    } else {
        let o = obs[0];
        let k = (id, o.0, o.1);
        let st = if m.contains_key(k) {
            m[k]
        } else {
            AlertState::initial()
        };
        let (st2, tr) = reconciled(st, o.3, now, min_duration);
        let m2 = m.insert(k, st2);
        let rest = committed_events(m2, id, obs.drop_first(), now, min_duration, host, ts);
        match tr {
            Some(t) => {
                let e = event_of(host, ts, id, o, t);
                let h2 = bounded(h.push(e), size);
                bounded_of_bounded(h.push(e), seq![], size);
                assert(h.push(e) + Seq::<EventView>::empty() =~= h.push(e));
                journal_keeps_the_last_events(m2, h2, id, obs.drop_first(), now, min_duration, size, host, ts);
                bounded_of_bounded(h.push(e), rest, size);
                assert(h.push(e) + rest =~= h + (seq![e] + rest));
                let e0 = bounded(seq![e], size);
                bounded_of_bounded(seq![], seq![e], size);
                assert(Seq::<EventView>::empty() + seq![e] =~= seq![e]);
                journal_keeps_the_last_events(m2, e0, id, obs.drop_first(), now, min_duration, size, host, ts);
                journal_keeps_the_last_events(m2, seq![], id, obs.drop_first(), now, min_duration, size, host, ts);
            },
            None => {
                journal_keeps_the_last_events(m2, h, id, obs.drop_first(), now, min_duration, size, host, ts);
                journal_keeps_the_last_events(m2, seq![], id, obs.drop_first(), now, min_duration, size, host, ts);
            },
        }
    }
}

/// The events of successive cycles, concatenated in order.
pub open spec fn all_events(cycles: Seq<Seq<EventView>>) -> Seq<EventView>
    decreases cycles.len(),
{
    if cycles.len() == 0 {
        seq![]
    } else {
        all_events(cycles.drop_last()) + cycles.last()
    }
}

/// Over many cycles the journal is a ring buffer of `size` entries: when
/// it starts empty and each cycle appends its events and keeps the last
/// `size`, it holds, after any number of cycles, the last `size` of all
/// the events committed so far, oldest first and the most recent last.
pub proof fn journal_is_a_ring_buffer(journals: Seq<Seq<EventView>>, cycles: Seq<Seq<EventView>>, size: nat)
    requires
        journals.len() == cycles.len() + 1,
        journals[0] == Seq::<EventView>::empty(),
        forall|i: int| 0 <= i < cycles.len() ==> #[trigger] journals[i + 1] == bounded(journals[i] + cycles[i], size),
    ensures
        journals.last() == bounded(all_events(cycles), size),
        journals.last().len() <= size,
    decreases cycles.len(),
{
    if cycles.len() == 0 {
        assert(bounded(Seq::<EventView>::empty(), size) =~= Seq::<EventView>::empty());
    } else {
        let n = cycles.len() - 1;
        let js = journals.drop_last();
        let cs = cycles.drop_last();
        assert forall|i: int| 0 <= i < cs.len() implies #[trigger] js[i + 1] == bounded(js[i] + cs[i], size) by {
            assert(journals[i + 1] == bounded(journals[i] + cycles[i], size));
        }
        journal_is_a_ring_buffer(js, cs, size);
        assert(js.last() == journals[n]);
        assert(journals[n + 1] == bounded(journals[n] + cycles[n], size));
        bounded_of_bounded(all_events(cs), cycles[n], size);
    }
}

/// The `_levels` decoration of one payload.
pub enum Levels {
    /// Keyed by field, for a payload that is one object.
    Scalar(Vec<FieldLevel>),
    /// Keyed by item primary key, then field, for a collection.
    Collection(Vec<ItemLevels>),
}

/// The `_levels` entries of one item.
pub struct ItemLevels {
    pub key: String,
    pub fields: Vec<FieldLevel>,
}

pub open spec fn item_levels_view(v: Seq<ItemLevels>) -> Seq<(Seq<char>, Seq<(Seq<char>, Level, bool)>)> {
    v.map_values(|i: ItemLevels| (i.key@, field_levels_view(i.fields@)))
}

/// Shared alert engine: hysteresis state and the bounded event journal.
pub struct Alerts {
    history: VecDeque<AlertEvent>,
    state: Vec<StateEntry>,
    last_seen: Vec<Option<u64>>,
    hostname: String,
}

impl Alerts {
    pub closed spec fn wf(&self) -> bool {
        entries_ok(self.state@) && self.last_seen@.len() == 9
    }

    /// The hysteresis states, by identity.
    pub closed spec fn states(&self) -> Map<StateKey, AlertState> {
        state_map(self.state@)
    }

    /// The journal, oldest first.
    pub closed spec fn journal(&self) -> Seq<EventView> {
        events_view(self.history@)
    }

    /// When each plugin (by `PluginId::index`) was last observed.
    pub closed spec fn seen(&self) -> Seq<Option<u64>> {
        self.last_seen@
    }

    /// The host name carried into events.
    pub closed spec fn host(&self) -> Seq<char> {
        self.hostname@
    }

    /// An engine with no state and an empty journal, for a host named
    /// `hostname`.
    pub fn new(hostname: String) -> (a: Self)
        ensures
            a.wf(),
            a.states() == Map::<StateKey, AlertState>::empty(),
            a.journal() == Seq::<EventView>::empty(),
            a.seen() == Seq::new(9, |_i: int| None::<u64>),
            a.host() == hostname@,
    {
        let mut last_seen: Vec<Option<u64>> = Vec::new();
        let mut i: usize = 0;
        while i < 9
            invariant
                0 <= i <= 9,
                last_seen@ == Seq::new(i as nat, |_i: int| None::<u64>),
            decreases 9 - i,
        {
            last_seen.push(None);
            i = i + 1;
        }
        let a = Alerts { history: VecDeque::new(), state: Vec::new(), last_seen, hostname };
        assert(state_map(a.state@) =~= Map::<StateKey, AlertState>::empty());
        assert(events_view(a.history@) =~= Seq::<EventView>::empty());
        a
    }

    /// Number of hysteresis states held.
    pub fn state_len(&self) -> (n: usize)
        requires
            self.wf(),
        ensures
            n == self.states().len(),
    {
        proof {
            lemma_state_map_len(self.state@);
        }
        self.state.len()
    }

    /// The event journal, most recent last.
    pub fn history(&self) -> (h: &VecDeque<AlertEvent>)
        ensures
            events_view(h@) == self.journal(),
    {
        &self.history
    }
}

proof fn lemma_state_map_len(e: Seq<StateEntry>)
    requires
        entries_ok(e),
    ensures
        state_map(e).dom().finite(),
        state_map(e).len() == e.len(),
    decreases e.len(),
{
    if e.len() == 0 {
        assert(state_map(e).dom() =~= Set::<StateKey>::empty());
    } else {
        let d = e.drop_last();
        assert(entries_ok(d)) by {
            assert forall|i: int, j: int|
                0 <= i < d.len() && 0 <= j < d.len() && i != j implies entry_key(#[trigger] d[i]) != entry_key(
                #[trigger] d[j],
            ) by {
                assert(d[i] == e[i] && d[j] == e[j]);
            }
            assert forall|i: int| 0 <= i < d.len() implies (#[trigger] d[i]).state.wf() by {
                assert(d[i] == e[i]);
            }
        }
        lemma_state_map_len(d);
        let last = e.last();
        assert(!has_key(d, entry_key(last))) by {
            if has_key(d, entry_key(last)) {
                let i = choose|i: int| 0 <= i < d.len() && entry_key(d[i]) == entry_key(last);
                assert(d[i] == e[i]);
                assert(e[e.len() - 1] == last);
            }
        }
        assert(state_map(e).dom() =~= state_map(d).dom().insert(entry_key(last))) by {
            assert forall|k: StateKey| state_map(e).dom().contains(k) <==> state_map(d).dom().insert(
                entry_key(last),
            ).contains(k) by {
                if has_key(e, k) {
                    let i = choose|i: int| 0 <= i < e.len() && entry_key(e[i]) == k;
                    if i < d.len() {
                        assert(d[i] == e[i]);
                    }
                }
                if has_key(d, k) {
                    let i = choose|i: int| 0 <= i < d.len() && entry_key(d[i]) == k;
                    assert(d[i] == e[i]);
                }
                if k == entry_key(last) {
                    assert(e[e.len() - 1] == last);
                }
            }
        }
    }
}

/// Whether the idle-gap reset applies: plugin `id` was observed before and
/// more than twice its refresh period has passed since.
pub open spec fn gap_reset(seen: Seq<Option<u64>>, id: PluginId, now: u64, refresh: u64) -> bool {
    match seen[id.index() as int] {
        Some(prev) => (if now >= prev {
            now - prev
        } else {
            0
        }) > 2 * refresh,
        None => false,
    }
}

impl Alerts {
    /// Journals `e`, keeping the last `size` events.
    fn journal_event(&mut self, e: AlertEvent, size: usize)
        ensures
            events_view(final(self).history@) == bounded(events_view(old(self).history@).push(event_view(e)), size as nat),
            final(self).state == old(self).state,
            final(self).last_seen == old(self).last_seen,
            final(self).hostname == old(self).hostname,
    {
        let ghost full = events_view(self.history@).push(event_view(e));
        self.history.push_back(e);
        assert(events_view(self.history@) == full);
        let ghost mut d: int = 0;
        assert(full.skip(0) == full);
        while self.history.len() > size
            invariant
                0 <= d <= full.len(),
                events_view(self.history@) == full.skip(d),
                self.history@.len() == full.len() - d,
                d > 0 ==> self.history@.len() >= size,
                self.state == old(self).state,
                self.last_seen == old(self).last_seen,
                self.hostname == old(self).hostname,
            decreases self.history@.len(),
        {
            let ghost before = self.history@;
            let _ = self.history.pop_front();
            proof {
                assert(events_view(self.history@) == events_view(before).subrange(1, before.len() as int));
                assert(full.skip(d).subrange(1, full.skip(d).len() as int) == full.skip(d + 1));
                d = d + 1;
            }
        }
        proof {
            if full.len() > size {
                assert(d == full.len() - size);
            } else {
                assert(d == 0);
            }
        }
    }

    /// Runs the observations through the hysteresis states in order and
    /// journals the transitions that commit.
    fn apply_observations(&mut self, id: PluginId, obs: &Vec<Observation>, now: u64, min_duration: u64, size: usize, ts: &String)
        requires
            old(self).wf(),
        ensures
            final(self).wf(),
            (final(self).states(), final(self).journal()) == apply_obs(
                old(self).states(),
                old(self).journal(),
                id,
                obs_views(obs@),
                now,
                min_duration,
                size as nat,
                old(self).host(),
                ts@,
            ),
            final(self).seen() == old(self).seen(),
            final(self).host() == old(self).host(),
    {
        let ghost all = obs_views(obs@);
        let ghost host = self.hostname@;
        let ghost target = apply_obs(state_map(self.state@), events_view(self.history@), id, all, now, min_duration, size as nat, host, ts@);
        let mut j: usize = 0;
        assert(all.skip(0) == all);
        while j < obs.len()
            invariant
                0 <= j <= obs@.len(),
                all == obs_views(obs@),
                entries_ok(self.state@),
                self.last_seen@.len() == 9,
                self.last_seen == old(self).last_seen,
                self.hostname@ == host,
                target == apply_obs(state_map(self.state@), events_view(self.history@), id, all.skip(j as int), now, min_duration, size as nat, host, ts@),
            decreases obs@.len() - j,
        {
            let ghost m = state_map(self.state@);
            let ghost o = all[j as int];
            assert(all.skip(j as int)[0] == o);
            assert(all.skip(j as int).drop_first() == all.skip(j + 1));
            assert(o == obs_view(obs@[j as int]));
            let ob = &obs[j];
            let ghost k: StateKey = (id, o.0, o.1);
            let tr = match find_state(&self.state, id, &ob.key, ob.field) {
                Some(i) => {
                    proof {
                        lemma_state_map_at(self.state@, i as int);
                    }
                    let mut st = self.state[i].state;
                    let tr = reconcile(&mut st, ob.level, now, min_duration);
                    let n = StateEntry { plugin: id, key: clone_opt(&ob.key), field: ob.field, state: st };
                    proof {
                        lemma_update_entry(self.state@, i as int, n);
                    }
                    self.state.set(i, n);
                    tr
                },
                None => {
                    assert(!m.contains_key(k));
                    let mut st = AlertState::default();
                    let tr = reconcile(&mut st, ob.level, now, min_duration);
                    let n = StateEntry { plugin: id, key: clone_opt(&ob.key), field: ob.field, state: st };
                    proof {
                        lemma_push_entry(self.state@, n);
                    }
                    self.state.push(n);
                    tr
                },
            };
            match tr {
                Some(t) => {
                    let e = AlertEvent {
                        ts: ts.clone(),
                        plugin: id,
                        key: clone_opt(&ob.key),
                        field: ob.field,
                        level: t.new,
                        previous_level: t.previous,
                        value: ob.raw,
                        prominent: ob.prominent,
                        is_initial: t.is_initial,
                        hostname: self.hostname.clone(),
                    };
                    assert(event_view(e) == event_of(host, ts@, id, o, t));
                    self.journal_event(e, size);
                },
                None => {},
            }
            j = j + 1;
        }
        assert(all.skip(obs@.len() as int) == Seq::<ObsView>::empty());
    }
}

impl Alerts {
    /// One cycle's worth of alerting for plugin `id`'s freshly collected
    /// payload, of which `sample` holds the alertable fields: returns the
    /// payload's new `_levels` (raw, instantaneous) and journals the level
    /// transitions that commit. `now` is the caller's monotonic clock in
    /// nanoseconds, `wall_secs` the wall-clock time in seconds since the
    /// Unix epoch, `min_duration` the plugin's effective hysteresis window
    /// and `refresh` its collection period, both in nanoseconds. Returns
    /// `None`, and changes nothing, for a plugin with no alertable field.
    pub fn observe(
        &mut self,
        config: &Config,
        id: PluginId,
        sample: &Sample,
        now: u64,
        wall_secs: i64,
        min_duration: u64,
        refresh: u64,
    ) -> (r: Option<Levels>)
        requires
            old(self).wf(),
        ensures
            final(self).wf(),
            final(self).host() == old(self).host(),
            alert_table(id).len() == 0 ==> r is None && final(self).states() == old(self).states()
                && final(self).journal() == old(self).journal() && final(self).seen() == old(self).seen(),
            alert_table(id).len() > 0 ==> final(self).seen() == old(self).seen().update(id.index() as int, Some(now)),
            alert_table(id).len() > 0 ==> ({
                let m1 = if gap_reset(old(self).seen(), id, now, refresh) {
                    reset_pending(old(self).states(), id)
                } else {
                    old(self).states()
                };
                let size = config.alerts.history_size as nat;
                let ts = utc_stamp(wall_secs as int);
                match *sample {
                    Sample::Scalar(fss) => {
                        let obs = field_obs(*config, id, None, alert_table(id), fss@);
                        &&& r matches Some(Levels::Scalar(l)) && field_levels_view(l@) == obs_levels(obs)
                        &&& (final(self).states(), final(self).journal()) == apply_obs(m1, old(self).journal(), id, obs, now, min_duration, size, old(self).host(), ts)
                    },
                    Sample::Collection(items) => {
                        let iv = items_view(items@);
                        let obs = items_obs(*config, id, alert_table(id), iv);
                        &&& r matches Some(Levels::Collection(l)) && item_levels_view(l@) == items_levels(*config, id, alert_table(id), iv)
                        &&& (final(self).states(), final(self).journal()) == apply_obs(pruned(m1, id, live_keys(iv)), old(self).journal(), id, obs, now, min_duration, size, old(self).host(), ts)
                    },
                }
            }),
    {
        let fields = alert_fields(id);
        assert(af_views(fields@) =~= alert_table(id));
        if fields.len() == 0 {
            return None;
        }
        let size = config.alerts.history_size;
        let idx = id.position();
        let gap = match self.last_seen[idx] {
            Some(prev) => (now.saturating_sub(prev) as u128) > 2 * (refresh as u128),
            None => false,
        };
        self.last_seen.set(idx, Some(now));
        if gap {
            let mut st: Vec<StateEntry> = Vec::new();
            std::mem::swap(&mut st, &mut self.state);
            self.state = reset_states(st, id);
        }
        let ts = iso8601_utc(wall_secs);
        let mut obs: Vec<Observation> = Vec::new();
        let levels = match sample {
            Sample::Scalar(fss) => {
                let l = item_observations(config, id, &None, &fields, fss, &mut obs);
                assert(obs_views(obs@) =~= field_obs(*config, id, None, alert_table(id), fss@));
                Levels::Scalar(l)
            },
            Sample::Collection(items) => {
                let ghost iv = items_view(items@);
                let mut live: Vec<String> = Vec::new();
                let mut out: Vec<ItemLevels> = Vec::new();
                let mut i: usize = 0;
                assert(iv.skip(0) == iv);
                assert(obs_views(obs@) =~= Seq::<ObsView>::empty());
                while i < items.len()
                    invariant
                        0 <= i <= items@.len(),
                        iv == items_view(items@),
                        af_views(fields@) == alert_table(id),
                        items_obs(*config, id, alert_table(id), iv) == obs_views(obs@) + items_obs(*config, id, alert_table(id), iv.skip(i as int)),
                        items_levels(*config, id, alert_table(id), iv) == item_levels_view(out@) + items_levels(*config, id, alert_table(id), iv.skip(i as int)),
                        live_keys(iv) == texts(live@) + live_keys(iv.skip(i as int)),
                    decreases items@.len() - i,
                {
                    let ghost rest = iv.skip(i as int);
                    assert(rest[0] == item_view(items@[i as int]));
                    assert(rest.drop_first() == iv.skip(i + 1));
                    let it = &items[i];
                    match &it.key {
                        None => {},
                        Some(k) => {
                            let ghost obs0 = obs_views(obs@);
                            let ghost live0 = texts(live@);
                            let ghost out0 = item_levels_view(out@);
                            live.push(k.clone());
                            assert(texts(live@) == live0 + seq![k@]);
                            let fl = item_observations(config, id, &it.key, &fields, &it.fields, &mut obs);
                            let ghost o = field_obs(*config, id, Some(k@), alert_table(id), it.fields@);
                            assert(rest[0].0 == Some(k@));
                            assert(rest[0].1 == it.fields@);
                            assert(fl@.len() == field_levels_view(fl@).len());
                            if fl.len() > 0 {
                                out.push(ItemLevels { key: k.clone(), fields: fl });
                                assert(item_levels_view(out@) == out0 + seq![(k@, obs_levels(o))]);
                                assert(items_levels(*config, id, alert_table(id), rest) == seq![(k@, obs_levels(o))] + items_levels(*config, id, alert_table(id), iv.skip(i + 1)));
                                assert(out0 + seq![(k@, obs_levels(o))] + items_levels(*config, id, alert_table(id), iv.skip(i + 1))
                                    == out0 + (seq![(k@, obs_levels(o))] + items_levels(*config, id, alert_table(id), iv.skip(i + 1))));
                            } else {
                                assert(obs_levels(o).len() == 0);
                                assert(o.len() == 0);
                                assert(items_levels(*config, id, alert_table(id), rest) == items_levels(*config, id, alert_table(id), iv.skip(i + 1)));
                            }
                        },
                    }
                    i = i + 1;
                }
                assert(iv.skip(items@.len() as int) =~= Seq::<(Option<Seq<char>>, Seq<FieldSample>)>::empty());
                let mut st: Vec<StateEntry> = Vec::new();
                std::mem::swap(&mut st, &mut self.state);
                self.state = prune_states(st, id, &live);
                Levels::Collection(out)
            },
        };
        self.apply_observations(id, &obs, now, min_duration, size, &ts);
        Some(levels)
    }
}

/// The journal never holds more than `size` events: applying observations
/// to a journal within the bound keeps it within the bound.
pub proof fn journal_is_bounded(
    m: Map<StateKey, AlertState>,
    h: Seq<EventView>,
    id: PluginId,
    obs: Seq<ObsView>,
    now: u64,
    min_duration: u64,
    size: nat,
    host: Seq<char>,
    ts: Seq<char>,
)
    requires
        h.len() <= size,
    ensures
        apply_obs(m, h, id, obs, now, min_duration, size, host, ts).1.len() <= size,
    decreases obs.len(),
{
    if obs.len() > 0 {
        let o = obs[0];
        let k = (id, o.0, o.1);
        let st = if m.contains_key(k) {
            m[k]
        } else {
            AlertState::initial()
        };
        let (st2, tr) = reconciled(st, o.3, now, min_duration);
        let h2 = match tr {
            Some(t) => bounded(h.push(event_of(host, ts, id, o, t)), size),
            None => h,
        };
        journal_is_bounded(m.insert(k, st2), h2, id, obs.drop_first(), now, min_duration, size, host, ts);
    }
}

/// After pruning, a state of plugin `id` that belongs to an item belongs to
/// an item of the latest report, and the states of other plugins are kept
/// as they were.
pub proof fn pruning_forgets_vanished_items(m: Map<StateKey, AlertState>, id: PluginId, live: Seq<Seq<char>>, k: StateKey)
    ensures
        pruned(m, id, live).contains_key(k) && k.0 == id && k.1 is Some ==> live.contains(k.1->0),
        k.0 != id ==> (pruned(m, id, live).contains_key(k) <==> m.contains_key(k)),
        pruned(m, id, live).contains_key(k) ==> pruned(m, id, live)[k] == m[k],
{
}

/// The idle-gap reset keeps every committed level and leaves no level
/// pending for plugin `id`; other plugins' states are untouched.
pub proof fn idle_gap_keeps_committed_levels(m: Map<StateKey, AlertState>, id: PluginId, k: StateKey)
    requires
        m.contains_key(k),
    ensures
        reset_pending(m, id).contains_key(k),
        reset_pending(m, id)[k].committed_level == m[k].committed_level,
        reset_pending(m, id)[k].has_committed == m[k].has_committed,
        k.0 == id ==> reset_pending(m, id)[k].pending_level is None,
        k.0 != id ==> reset_pending(m, id)[k] == m[k],
{
}

/// A field compared against a divisor gets no level (and so no event)
/// when the divisor is absent, zero or not finite.
pub proof fn unknown_divisor_skips_the_field(c: Config, id: PluginId, item: Option<Seq<char>>, af: FieldSpec, fs: FieldSample)
    requires
        af.3 is Some,
        match fs.divisor {
            None => true,
            Some(dv) => dv.zero() || !dv.finite(),
        },
    ensures
        level_for(c, id, item, af, fs) is None,
{
}

/// Only alertable fields with a configured limit are observed: every
/// observation of a payload (and so every `_levels` entry and every event)
/// is of a field of the alert table for which a limit resolves, and carries
/// the field's raw value.
pub proof fn observations_need_an_alertable_field_and_a_limit(
    c: Config,
    id: PluginId,
    key: Option<Seq<char>>,
    afs: Seq<FieldSpec>,
    fss: Seq<FieldSample>,
)
    ensures
        forall|j: int|
            0 <= j < field_obs(c, id, key, afs, fss).len() ==> exists|i: int|
                0 <= i < afs.len() && i < fss.len() && (#[trigger] field_obs(c, id, key, afs, fss)[j]).1 == afs[i].0
                    && field_obs(c, id, key, afs, fss)[j].2 == afs[i].1 && resolved(c, id, key, afs[i].0) is Some
                    && fss[i].raw == Some(field_obs(c, id, key, afs, fss)[j].4),
    decreases afs.len(),
{
    if afs.len() > 0 && fss.len() > 0 {
        let rest = field_obs(c, id, key, afs.drop_first(), fss.drop_first());
        observations_need_an_alertable_field_and_a_limit(c, id, key, afs.drop_first(), fss.drop_first());
        let all = field_obs(c, id, key, afs, fss);
        assert forall|j: int| 0 <= j < all.len() implies exists|i: int|
            0 <= i < afs.len() && i < fss.len() && (#[trigger] all[j]).1 == afs[i].0 && all[j].2 == afs[i].1
                && resolved(c, id, key, afs[i].0) is Some && fss[i].raw == Some(all[j].4) by {
            match level_for(c, id, key, afs[0], fss[0]) {
                Some((l, raw)) => {
                    if j == 0 {
                        assert(all[0] == (key, afs[0].0, afs[0].1, l, raw));
                    } else {
                        assert(all[j] == rest[j - 1]);
                        let i = choose|i: int|
                            0 <= i < afs.drop_first().len() && i < fss.drop_first().len() && (#[trigger] rest[j - 1]).1
                                == afs.drop_first()[i].0 && rest[j - 1].2 == afs.drop_first()[i].1 && resolved(
                                c,
                                id,
                                key,
                                afs.drop_first()[i].0,
                            ) is Some && fss.drop_first()[i].raw == Some(rest[j - 1].4);
                        assert(afs[i + 1] == afs.drop_first()[i]);
                        assert(fss[i + 1] == fss.drop_first()[i]);
                    }
                },
                None => {
                    assert(all[j] == rest[j]);
                    let i = choose|i: int|
                        0 <= i < afs.drop_first().len() && i < fss.drop_first().len() && (#[trigger] rest[j]).1
                            == afs.drop_first()[i].0 && rest[j].2 == afs.drop_first()[i].1 && resolved(
                            c,
                            id,
                            key,
                            afs.drop_first()[i].0,
                        ) is Some && fss.drop_first()[i].raw == Some(rest[j].4);
                    assert(afs[i + 1] == afs.drop_first()[i]);
                    assert(fss[i + 1] == fss.drop_first()[i]);
                },
            }
        }
    }
}

} // verus!
