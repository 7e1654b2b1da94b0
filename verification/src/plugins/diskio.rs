//! `diskio` plugin: a rate and collection plugin, one item per disk with
//! primary key `disk_name`; the read and write counters are diffed into
//! rates.
use vstd::prelude::*;
use crate::config::Config;
use crate::namemap::NameMap;
use crate::num::Num;
use crate::plugins::filter::{all_valid, passes, patterns_valid, retain_shown, KeyFilter};
use crate::plugins::linux::{sat_sub, DiskIoCounters};
use crate::plugins::{
    is_increase, is_rate_tenths, millis_of, per_sec_tenths, per_sec_tenths_rounds, rate_tenths, rounded_millis,
};
use crate::text::{lex_lt, sort_strings, strictly_sorted, texts};

verus! {

/// One disk of the payload. Rates are per second in tenths (ten times the
/// value that the payload rounds to one decimal); `time_since_update` is in
/// milliseconds.
pub struct DiskioItem {
    pub disk_name: String,
    pub read_count: u64,
    pub read_count_gauge: u64,
    pub read_count_rate_tenths: u128,
    pub write_count: u64,
    pub write_count_gauge: u64,
    pub write_count_rate_tenths: u128,
    pub read_bytes: u64,
    pub read_bytes_gauge: u64,
    pub read_bytes_rate_tenths: u128,
    pub write_bytes: u64,
    pub write_bytes_gauge: u64,
    pub write_bytes_rate_tenths: u128,
    /// The operator's alias for the disk; `None` (`null`) when unset.
    pub alias: Option<String>,
    pub time_since_update_ms: u64,
}

/// The alias configured for `name`, if any.
pub open spec fn alias_for(alias: Map<Seq<char>, String>, name: Seq<char>) -> Option<Seq<char>> {
    if alias.contains_key(name) {
        Some(alias[name]@)
    } else {
        None
    }
}

/// Whether `it` is the item of disk `name` for the counters `cur` after
/// `prev`, `elapsed_ns` nanoseconds apart: each delta is the counter's
/// increase, clamped to zero when the counter went back (reboot).
pub open spec fn disk_item(
    it: DiskioItem,
    name: Seq<char>,
    cur: DiskIoCounters,
    prev: DiskIoCounters,
    elapsed_ns: u64,
    alias: Map<Seq<char>, String>,
) -> bool {
    &&& it.disk_name@ == name
    &&& it.read_count == sat_sub(cur.0, prev.0)
    &&& it.read_count_gauge == cur.0
    &&& it.read_count_rate_tenths == per_sec_tenths(sat_sub(cur.0, prev.0) as int, elapsed_ns as int)
    &&& it.write_count == sat_sub(cur.1, prev.1)
    &&& it.write_count_gauge == cur.1
    &&& it.write_count_rate_tenths == per_sec_tenths(sat_sub(cur.1, prev.1) as int, elapsed_ns as int)
    &&& it.read_bytes == sat_sub(cur.2, prev.2)
    &&& it.read_bytes_gauge == cur.2
    &&& it.read_bytes_rate_tenths == per_sec_tenths(sat_sub(cur.2, prev.2) as int, elapsed_ns as int)
    &&& it.write_bytes == sat_sub(cur.3, prev.3)
    &&& it.write_bytes_gauge == cur.3
    &&& it.write_bytes_rate_tenths == per_sec_tenths(sat_sub(cur.3, prev.3) as int, elapsed_ns as int)
    &&& match it.alias {
        Some(a) => alias_for(alias, name) == Some(a@),
        None => alias_for(alias, name) is None,
    }
    &&& it.time_since_update_ms == rounded_millis(elapsed_ns as int)
}

pub open spec fn disk_names(items: Seq<DiskioItem>) -> Seq<Seq<char>> {
    items.map_values(|it: DiskioItem| it.disk_name@)
}

fn alias_copy(alias: &NameMap<String>, name: &str) -> (r: Option<String>)
    ensures
        match r {
            Some(a) => alias_for(alias.view(), name@) == Some(a@),
            None => alias_for(alias.view(), name@) is None,
        },
{
    match alias.get(name) {
        Some(a) => Some(a.clone()),
        None => None,
    }
}

/// Whether `items` are the items of one rate step from `previous` to
/// `current`: one for each disk present in both samples, sorted by name.
pub open spec fn step_items(
    items: Seq<DiskioItem>,
    previous: Map<Seq<char>, DiskIoCounters>,
    current: Map<Seq<char>, DiskIoCounters>,
    elapsed_ns: u64,
    alias: Map<Seq<char>, String>,
) -> bool {
    &&& strictly_sorted(disk_names(items))
    &&& forall|i: int|
        0 <= i < items.len() ==> {
            let n = (#[trigger] items[i]).disk_name@;
            &&& current.contains_key(n)
            &&& previous.contains_key(n)
            &&& disk_item(items[i], n, current[n], previous[n], elapsed_ns, alias)
        }
    &&& forall|k: Seq<char>| current.contains_key(k) && previous.contains_key(k) ==> disk_names(items).contains(k)
}

/// Nanoseconds from `last` to `now`; `0` on the first cycle or when the
/// clock did not advance.
pub open spec fn elapsed_since(last: Option<u64>, now: u64) -> u64 {
    match last {
        Some(t) => sat_sub(now, t),
        None => 0,
    }
}

/// One rate step: the items of the disks present in both samples, sorted by
/// name, and the next inter-cycle state, which is the current sample alone
/// (never a merge: a disk gone from the current sample leaves both the
/// output and the state in the same cycle, and a disk that appears gets a
/// rate from the next cycle on).
pub fn step(
    previous: NameMap<DiskIoCounters>,
    current: NameMap<DiskIoCounters>,
    elapsed_ns: u64,
    alias: &NameMap<String>,
) -> (r: (Vec<DiskioItem>, NameMap<DiskIoCounters>))
    ensures
        r.1 == current,
        step_items(r.0@, previous.view(), current.view(), elapsed_ns, alias.view()),
{
    let names = sort_strings(current.common_keys(&previous));
    let ghost tn = texts(names@);
    let mut items: Vec<DiskioItem> = Vec::new();
    let mut i: usize = 0;
    while i < names.len()
        invariant
            0 <= i <= names@.len(),
            tn == texts(names@),
            forall|k: Seq<char>| tn.contains(k) <==> current.view().contains_key(k) && previous.view().contains_key(k),
            items@.len() == i,
            forall|j: int| 0 <= j < i ==> (#[trigger] items@[j]).disk_name@ == tn[j],
            forall|j: int|
                0 <= j < i ==> {
                    let n = (#[trigger] items@[j]).disk_name@;
                    &&& current.view().contains_key(n)
                    &&& previous.view().contains_key(n)
                    &&& disk_item(items@[j], n, current.view()[n], previous.view()[n], elapsed_ns, alias.view())
                },
        decreases names@.len() - i,
    {
        let name = &names[i];
        assert(tn[i as int] == name@);
        assert(tn.contains(name@));
        let c = match current.get(name.as_str()) {
            Some(c) => *c,
            None => (0, 0, 0, 0),
        };
        let p = match previous.get(name.as_str()) {
            Some(p) => *p,
            None => (0, 0, 0, 0),
        };
        let read_count = c.0.saturating_sub(p.0);
        let write_count = c.1.saturating_sub(p.1);
        let read_bytes = c.2.saturating_sub(p.2);
        let write_bytes = c.3.saturating_sub(p.3);
        let item = DiskioItem {
            disk_name: name.clone(),
            read_count,
            read_count_gauge: c.0,
            read_count_rate_tenths: rate_tenths(read_count, elapsed_ns),
            write_count,
            write_count_gauge: c.1,
            write_count_rate_tenths: rate_tenths(write_count, elapsed_ns),
            read_bytes,
            read_bytes_gauge: c.2,
            read_bytes_rate_tenths: rate_tenths(read_bytes, elapsed_ns),
            write_bytes,
            write_bytes_gauge: c.3,
            write_bytes_rate_tenths: rate_tenths(write_bytes, elapsed_ns),
            alias: alias_copy(alias, name.as_str()),
            time_since_update_ms: millis_of(elapsed_ns),
        };
        items.push(item);
        i = i + 1;
    }
    proof {
        assert(disk_names(items@) =~= tn);
    }
    (items, current)
}

/// What each disk's figures are, for any rate step: every delta is how much
/// its own counter grew since the previous sample (zero when it went
/// back), every gauge is its counter now, and every rate is its own delta
/// per second over the elapsed time, in tenths rounded half up (zero when
/// no time elapsed).
pub proof fn disk_rates_follow_their_own_counters(
    items: Seq<DiskioItem>,
    previous: Map<Seq<char>, DiskIoCounters>,
    current: Map<Seq<char>, DiskIoCounters>,
    elapsed_ns: u64,
    alias: Map<Seq<char>, String>,
)
    requires
        step_items(items, previous, current, elapsed_ns, alias),
    ensures
        forall|i: int|
            0 <= i < items.len() ==> current.contains_key((#[trigger] items[i]).disk_name@) && previous.contains_key(
                items[i].disk_name@,
            ),
        forall|k: Seq<char>|
            #![trigger current.contains_key(k), previous.contains_key(k)]
            current.contains_key(k) && previous.contains_key(k) ==> exists|i: int|
                0 <= i < items.len() && (#[trigger] items[i]).disk_name@ == k,
        forall|i: int, j: int| 0 <= i < j < items.len() ==> lex_lt((#[trigger] items[i]).disk_name@, (#[trigger] items[j]).disk_name@),
        forall|i: int|
            0 <= i < items.len() ==> match (#[trigger] items[i]).alias {
                Some(a) => alias.contains_key(items[i].disk_name@) && a@ == alias[items[i].disk_name@]@,
                None => !alias.contains_key(items[i].disk_name@),
            },
        forall|i: int|
            0 <= i < items.len() ==> {
                let ms = (#[trigger] items[i]).time_since_update_ms as int;
                ms * 1_000_000 <= elapsed_ns + 500_000 && elapsed_ns + 500_000 < (ms + 1) * 1_000_000
            },
        forall|i: int|
            0 <= i < items.len() ==> {
                let it = #[trigger] items[i];
                let c = current[it.disk_name@];
                let p = previous[it.disk_name@];
                let e = elapsed_ns as int;
                &&& is_increase(it.read_count as int, p.0 as int, c.0 as int) && it.read_count_gauge == c.0
                &&& is_increase(it.write_count as int, p.1 as int, c.1 as int) && it.write_count_gauge == c.1
                &&& is_increase(it.read_bytes as int, p.2 as int, c.2 as int) && it.read_bytes_gauge == c.2
                &&& is_increase(it.write_bytes as int, p.3 as int, c.3 as int) && it.write_bytes_gauge == c.3
                &&& is_rate_tenths(it.read_count_rate_tenths as int, it.read_count as int, e)
                &&& is_rate_tenths(it.write_count_rate_tenths as int, it.write_count as int, e)
                &&& is_rate_tenths(it.read_bytes_rate_tenths as int, it.read_bytes as int, e)
                &&& is_rate_tenths(it.write_bytes_rate_tenths as int, it.write_bytes as int, e)
            },
{
    assert forall|k: Seq<char>| current.contains_key(k) && previous.contains_key(k) implies exists|i: int|
        0 <= i < items.len() && (#[trigger] items[i]).disk_name@ == k by {
        let idx = choose|idx: int| 0 <= idx < disk_names(items).len() && disk_names(items)[idx] == k;
        assert(disk_names(items)[idx] == items[idx].disk_name@);
    }
    assert forall|i: int, j: int| 0 <= i < j < items.len() implies lex_lt(
        (#[trigger] items[i]).disk_name@,
        (#[trigger] items[j]).disk_name@,
    ) by {
        assert(disk_names(items)[i] == items[i].disk_name@ && disk_names(items)[j] == items[j].disk_name@);
    }
    assert forall|i: int| 0 <= i < items.len() implies {
        let ms = (#[trigger] items[i]).time_since_update_ms as int;
        ms * 1_000_000 <= elapsed_ns + 500_000 && elapsed_ns + 500_000 < (ms + 1) * 1_000_000
    } by {
        let x = elapsed_ns + 500_000;
        let q = x / 1_000_000;
        assert(q * 1_000_000 <= x && x < (q + 1) * 1_000_000) by (nonlinear_arith)
            requires
                q == x / 1_000_000,
                x >= 0,
        ;
    }
    assert forall|i: int| 0 <= i < items.len() implies {
        let it = #[trigger] items[i];
        let c = current[it.disk_name@];
        let p = previous[it.disk_name@];
        let e = elapsed_ns as int;
        &&& is_increase(it.read_count as int, p.0 as int, c.0 as int) && it.read_count_gauge == c.0
        &&& is_increase(it.write_count as int, p.1 as int, c.1 as int) && it.write_count_gauge == c.1
        &&& is_increase(it.read_bytes as int, p.2 as int, c.2 as int) && it.read_bytes_gauge == c.2
        &&& is_increase(it.write_bytes as int, p.3 as int, c.3 as int) && it.write_bytes_gauge == c.3
        &&& is_rate_tenths(it.read_count_rate_tenths as int, it.read_count as int, e)
        &&& is_rate_tenths(it.write_count_rate_tenths as int, it.write_count as int, e)
        &&& is_rate_tenths(it.read_bytes_rate_tenths as int, it.read_bytes as int, e)
        &&& is_rate_tenths(it.write_bytes_rate_tenths as int, it.write_bytes as int, e)
    } by {
        let it = items[i];
        per_sec_tenths_rounds(it.read_count as int, elapsed_ns as int);
        per_sec_tenths_rounds(it.write_count as int, elapsed_ns as int);
        per_sec_tenths_rounds(it.read_bytes as int, elapsed_ns as int);
        per_sec_tenths_rounds(it.write_bytes as int, elapsed_ns as int);
    }
}

/// The `diskio` plugin: collection period, item filter and aliases.
pub struct DiskioPlugin {
    pub refresh: Num,
    pub filter: KeyFilter,
    /// Disk name to operator-defined alias.
    pub alias: NameMap<String>,
}

/// The `show` and `hide` lists that a plugin's section sets, empty when it
/// has no section.
pub open spec fn show_of(c: Config, name: Seq<char>) -> Seq<Seq<char>> {
    match c.plugin(name) {
        Some(p) => texts(p.show@),
        None => Seq::empty(),
    }
}

pub open spec fn hide_of(c: Config, name: Seq<char>) -> Seq<Seq<char>> {
    match c.plugin(name) {
        Some(p) => texts(p.hide@),
        None => Seq::empty(),
    }
}

pub open spec fn alias_of(c: Config, name: Seq<char>) -> Map<Seq<char>, String> {
    match c.plugin(name) {
        Some(p) => p.alias.view(),
        None => Map::empty(),
    }
}

impl DiskioPlugin {
    /// The plugin as `config` sets it up; its `show`/`hide` patterns must
    /// compile (as a validated configuration's do).
    pub fn new(config: &Config) -> (p: Self)
        requires
            all_valid(show_of(*config, "diskio"@)),
            all_valid(hide_of(*config, "diskio"@)),
        ensures
            p.refresh == config.refresh_seconds("diskio"@),
            p.filter.show_patterns() == show_of(*config, "diskio"@),
            p.filter.hide_patterns() == hide_of(*config, "diskio"@),
            p.alias.view() == alias_of(*config, "diskio"@),
    {
        let empty: Vec<String> = Vec::new();
        match config.plugin_config("diskio") {
            Some(pc) => DiskioPlugin {
                refresh: config.refresh_for("diskio"),
                filter: KeyFilter::new(pc.show.as_slice(), pc.hide.as_slice()),
                alias: pc.alias.copied(),
            },
            None => {
                assert(texts(empty@) =~= Seq::<Seq<char>>::empty());
                DiskioPlugin {
                    refresh: config.refresh_for("diskio"),
                    filter: KeyFilter::new(empty.as_slice(), empty.as_slice()),
                    alias: NameMap::new(),
                }
            },
        }
    }

    /// The plugin as `config` sets it up, or `None` when one of its
    /// `show`/`hide` patterns does not compile.
    pub fn checked(config: &Config) -> (r: Option<Self>)
        ensures
            r is Some <==> all_valid(show_of(*config, "diskio"@)) && all_valid(hide_of(*config, "diskio"@)),
            r matches Some(p) ==> p.refresh == config.refresh_seconds("diskio"@)
                && p.filter.show_patterns() == show_of(*config, "diskio"@)
                && p.filter.hide_patterns() == hide_of(*config, "diskio"@)
                && p.alias.view() == alias_of(*config, "diskio"@),
    {
        match config.plugin_config("diskio") {
            Some(pc) => {
                if !patterns_valid(pc.show.as_slice()) || !patterns_valid(pc.hide.as_slice()) {
                    return None;
                }
            },
            None => {},
        }
        Some(DiskioPlugin::new(config))
    }

    /// The disks of a `/proc/diskstats` sample that the filter shows:
    /// filtering comes before the rate step, so a hidden disk neither
    /// appears nor costs a diff.
    pub fn sample(&self, stats: &NameMap<DiskIoCounters>) -> (r: NameMap<DiskIoCounters>)
        ensures
            r.view() == Map::new(
                |k: Seq<char>| stats.view().contains_key(k) && passes(self.filter.show_patterns(), self.filter.hide_patterns(), k),
                |k: Seq<char>| stats.view()[k],
            ),
    {
        retain_shown(&self.filter, stats)
    }
}

/// Inter-cycle memory of the `diskio` plugin: the previous sample and the
/// time it was taken (nanoseconds of a monotonic clock).
pub struct DiskioState {
    pub previous: NameMap<DiskIoCounters>,
    pub last: Option<u64>,
}

impl DiskioState {
    /// One collection cycle on the filtered sample `current` taken at
    /// `now`: the rate step over the time measured since the previous cycle
    /// (never the nominal refresh), after which the state holds `current`.
    pub fn advance(&mut self, current: NameMap<DiskIoCounters>, now: u64, alias: &NameMap<String>) -> (items: Vec<DiskioItem>)
        ensures
            final(self).previous == current,
            final(self).last == Some(now),
            step_items(items@, old(self).previous.view(), current.view(), elapsed_since(old(self).last, now), alias.view()),
    {
        let elapsed = match self.last {
            Some(t) => now.saturating_sub(t),
            None => 0,
        };
        let mut previous: NameMap<DiskIoCounters> = NameMap::new();
        std::mem::swap(&mut previous, &mut self.previous);
        let (items, next) = step(previous, current, elapsed, alias);
        self.previous = next;
        self.last = Some(now);
        items
    }
}

impl Default for DiskioState {
    fn default() -> (s: Self)
        ensures
            s.previous.view() == Map::<Seq<char>, DiskIoCounters>::empty(),
            s.last is None,
    {
        DiskioState { previous: NameMap::new(), last: None }
    }
}

} // verus!
