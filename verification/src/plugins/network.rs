//! `network` plugin: a rate and collection plugin, one item per interface
//! with primary key `interface_name`.
use vstd::prelude::*;
use crate::config::Config;
use crate::namemap::NameMap;
use crate::num::Num;
use crate::plugins::diskio::{elapsed_since, hide_of, show_of};
use crate::plugins::filter::{all_valid, passes, patterns_valid, retain_shown, KeyFilter};
use crate::plugins::linux::sat_sub;
use crate::plugins::{
    is_increase, is_rate_tenths, millis_of, per_sec_tenths, per_sec_tenths_rounds, rate_tenths, rounded_millis,
};
use crate::text::{lex_lt, sort_strings, strictly_sorted, texts};

verus! {

/// Cumulative `(received, transmitted)` byte counters of one interface.
pub type Counters = (u64, u64);

/// `a.saturating_add(b)`.
pub open spec fn sat_add(a: u64, b: u64) -> u64 {
    if a + b > u64::MAX {
        u64::MAX
    } else {
        (a + b) as u64
    }
}

/// One interface of the payload. Rates are per second in tenths;
/// `time_since_update` is in milliseconds.
pub struct NetworkItem {
    pub interface_name: String,
    pub bytes_recv: u64,
    pub bytes_recv_gauge: u64,
    pub bytes_recv_rate_tenths: u128,
    pub bytes_sent: u64,
    pub bytes_sent_gauge: u64,
    pub bytes_sent_rate_tenths: u128,
    pub bytes_all: u64,
    pub bytes_all_gauge: u64,
    pub bytes_all_rate_tenths: u128,
    pub time_since_update_ms: u64,
}

/// Whether `it` is the item of interface `name` for the counters `cur`
/// after `prev`, `elapsed_ns` nanoseconds apart: each delta is the
/// counter's increase, clamped to zero when the counter went back (reboot
/// or wrap), and the `all` values are saturating sums.
pub open spec fn iface_item(it: NetworkItem, name: Seq<char>, cur: Counters, prev: Counters, elapsed_ns: u64) -> bool {
    let recv = sat_sub(cur.0, prev.0);
    let sent = sat_sub(cur.1, prev.1);
    let all = sat_add(recv, sent);
    &&& it.interface_name@ == name
    &&& it.bytes_recv == recv
    &&& it.bytes_recv_gauge == cur.0
    &&& it.bytes_recv_rate_tenths == per_sec_tenths(recv as int, elapsed_ns as int)
    &&& it.bytes_sent == sent
    &&& it.bytes_sent_gauge == cur.1
    &&& it.bytes_sent_rate_tenths == per_sec_tenths(sent as int, elapsed_ns as int)
    &&& it.bytes_all == all
    &&& it.bytes_all_gauge == sat_add(cur.0, cur.1)
    &&& it.bytes_all_rate_tenths == per_sec_tenths(all as int, elapsed_ns as int)
    &&& it.time_since_update_ms == rounded_millis(elapsed_ns as int)
}

pub open spec fn iface_names(items: Seq<NetworkItem>) -> Seq<Seq<char>> {
    items.map_values(|it: NetworkItem| it.interface_name@)
}

/// Whether `items` are the items of one rate step from `previous` to
/// `current`: one for each interface present in both samples, sorted by
/// name.
pub open spec fn step_items(
    items: Seq<NetworkItem>,
    previous: Map<Seq<char>, Counters>,
    current: Map<Seq<char>, Counters>,
    elapsed_ns: u64,
) -> bool {
    &&& strictly_sorted(iface_names(items))
    &&& forall|i: int|
        0 <= i < items.len() ==> {
            let n = (#[trigger] items[i]).interface_name@;
            &&& current.contains_key(n)
            &&& previous.contains_key(n)
            &&& iface_item(items[i], n, current[n], previous[n], elapsed_ns)
        }
    &&& forall|k: Seq<char>| current.contains_key(k) && previous.contains_key(k) ==> iface_names(items).contains(k)
}

/// One rate step: the items of the interfaces present in both samples,
/// sorted by name, and the next inter-cycle state, which is the current
/// sample alone (never a merge: an interface gone from the current sample
/// leaves both the output and the state in the same cycle, and one that
/// appears gets a rate from the next cycle on).
pub fn step(previous: NameMap<Counters>, current: NameMap<Counters>, elapsed_ns: u64) -> (r: (Vec<NetworkItem>, NameMap<Counters>))
    ensures
        r.1 == current,
        step_items(r.0@, previous.view(), current.view(), elapsed_ns),
{
    let names = sort_strings(current.common_keys(&previous));
    let ghost tn = texts(names@);
    let mut items: Vec<NetworkItem> = Vec::new();
    let mut i: usize = 0;
    while i < names.len()
        invariant
            0 <= i <= names@.len(),
            tn == texts(names@),
            forall|k: Seq<char>| tn.contains(k) <==> current.view().contains_key(k) && previous.view().contains_key(k),
            items@.len() == i,
            forall|j: int| 0 <= j < i ==> (#[trigger] items@[j]).interface_name@ == tn[j],
            forall|j: int|
                0 <= j < i ==> {
                    let n = (#[trigger] items@[j]).interface_name@;
                    &&& current.view().contains_key(n)
                    &&& previous.view().contains_key(n)
                    &&& iface_item(items@[j], n, current.view()[n], previous.view()[n], elapsed_ns)
                },
        decreases names@.len() - i,
    {
        let name = &names[i];
        assert(tn[i as int] == name@);
        assert(tn.contains(name@));
        let c = match current.get(name.as_str()) {
            Some(c) => *c,
            None => (0, 0),
        };
        let p = match previous.get(name.as_str()) {
            Some(p) => *p,
            None => (0, 0),
        };
        let recv = c.0.saturating_sub(p.0);
        let sent = c.1.saturating_sub(p.1);
        let all = recv.saturating_add(sent);
        let item = NetworkItem {
            interface_name: name.clone(),
            bytes_recv: recv,
            bytes_recv_gauge: c.0,
            bytes_recv_rate_tenths: rate_tenths(recv, elapsed_ns),
            bytes_sent: sent,
            bytes_sent_gauge: c.1,
            bytes_sent_rate_tenths: rate_tenths(sent, elapsed_ns),
            bytes_all: all,
            bytes_all_gauge: c.0.saturating_add(c.1),
            bytes_all_rate_tenths: rate_tenths(all, elapsed_ns),
            time_since_update_ms: millis_of(elapsed_ns),
        };
        items.push(item);
        i = i + 1;
    }
    proof {
        assert(iface_names(items@) =~= tn);
    }
    (items, current)
}

/// What each interface's figures are, for any rate step: received and
/// sent are how much their own counters grew since the previous sample
/// (zero when one went back), `all` is their sum (saturating), every gauge
/// is its counter now, and every rate is its own delta per second over the
/// elapsed time, in tenths rounded half up (zero when no time elapsed).
pub proof fn iface_rates_follow_their_own_counters(
    items: Seq<NetworkItem>,
    previous: Map<Seq<char>, Counters>,
    current: Map<Seq<char>, Counters>,
    elapsed_ns: u64,
)
    requires
        step_items(items, previous, current, elapsed_ns),
    ensures
        forall|i: int|
            0 <= i < items.len() ==> current.contains_key((#[trigger] items[i]).interface_name@) && previous.contains_key(
                items[i].interface_name@,
            ),
        forall|k: Seq<char>|
            #![trigger current.contains_key(k), previous.contains_key(k)]
            current.contains_key(k) && previous.contains_key(k) ==> exists|i: int|
                0 <= i < items.len() && (#[trigger] items[i]).interface_name@ == k,
        forall|i: int, j: int| 0 <= i < j < items.len() ==> lex_lt((#[trigger] items[i]).interface_name@, (#[trigger] items[j]).interface_name@),
        forall|i: int|
            0 <= i < items.len() ==> {
                let ms = (#[trigger] items[i]).time_since_update_ms as int;
                ms * 1_000_000 <= elapsed_ns + 500_000 && elapsed_ns + 500_000 < (ms + 1) * 1_000_000
            },
        forall|i: int|
            0 <= i < items.len() ==> {
                let it = #[trigger] items[i];
                let c = current[it.interface_name@];
                let p = previous[it.interface_name@];
                let e = elapsed_ns as int;
                &&& is_increase(it.bytes_recv as int, p.0 as int, c.0 as int) && it.bytes_recv_gauge == c.0
                &&& is_increase(it.bytes_sent as int, p.1 as int, c.1 as int) && it.bytes_sent_gauge == c.1
                &&& it.bytes_all == if it.bytes_recv + it.bytes_sent > u64::MAX {
                    u64::MAX as int
                } else {
                    it.bytes_recv + it.bytes_sent
                }
                &&& it.bytes_all_gauge == if c.0 + c.1 > u64::MAX {
                    u64::MAX as int
                } else {
                    c.0 + c.1
                }
                &&& is_rate_tenths(it.bytes_recv_rate_tenths as int, it.bytes_recv as int, e)
                &&& is_rate_tenths(it.bytes_sent_rate_tenths as int, it.bytes_sent as int, e)
                &&& is_rate_tenths(it.bytes_all_rate_tenths as int, it.bytes_all as int, e)
            },
{
    assert forall|k: Seq<char>| current.contains_key(k) && previous.contains_key(k) implies exists|i: int|
        0 <= i < items.len() && (#[trigger] items[i]).interface_name@ == k by {
        let idx = choose|idx: int| 0 <= idx < iface_names(items).len() && iface_names(items)[idx] == k;
        assert(iface_names(items)[idx] == items[idx].interface_name@);
    }
    assert forall|i: int, j: int| 0 <= i < j < items.len() implies lex_lt(
        (#[trigger] items[i]).interface_name@,
        (#[trigger] items[j]).interface_name@,
    ) by {
        assert(iface_names(items)[i] == items[i].interface_name@ && iface_names(items)[j] == items[j].interface_name@);
    }
    assert forall|i: int| 0 <= i < items.len() implies {
        let ms = (#[trigger] items[i]).time_since_update_ms as int;
        ms * 1_000_000 <= elapsed_ns + 500_000 && elapsed_ns + 500_000 < (ms + 1) * 1_000_000
    } by {
        let x = elapsed_ns + 500_000;
        let q = x / 1_000_000;
        assert(q * 1_000_000 <= x && x < (q + 1) * 1_000_000) by (nonlinear_arith)
            requires
                q == x / 1_000_000,
                x >= 0,
        ;
    }
    assert forall|i: int| 0 <= i < items.len() implies {
        let it = #[trigger] items[i];
        let c = current[it.interface_name@];
        let p = previous[it.interface_name@];
        let e = elapsed_ns as int;
        &&& is_increase(it.bytes_recv as int, p.0 as int, c.0 as int) && it.bytes_recv_gauge == c.0
        &&& is_increase(it.bytes_sent as int, p.1 as int, c.1 as int) && it.bytes_sent_gauge == c.1
        &&& it.bytes_all == if it.bytes_recv + it.bytes_sent > u64::MAX {
            u64::MAX as int
        } else {
            it.bytes_recv + it.bytes_sent
        }
        &&& it.bytes_all_gauge == if c.0 + c.1 > u64::MAX {
            u64::MAX as int
        } else {
            c.0 + c.1
        }
        &&& is_rate_tenths(it.bytes_recv_rate_tenths as int, it.bytes_recv as int, e)
        &&& is_rate_tenths(it.bytes_sent_rate_tenths as int, it.bytes_sent as int, e)
        &&& is_rate_tenths(it.bytes_all_rate_tenths as int, it.bytes_all as int, e)
    } by {
        let it = items[i];
        per_sec_tenths_rounds(it.bytes_recv as int, elapsed_ns as int);
        per_sec_tenths_rounds(it.bytes_sent as int, elapsed_ns as int);
        per_sec_tenths_rounds(it.bytes_all as int, elapsed_ns as int);
    }
}

/// `show`/`hide` regex lists on the interface name: `hide` wins, an empty
/// `show` list shows everything. Every pattern compiles.
pub struct InterfaceFilter {
    inner: KeyFilter,
}

impl InterfaceFilter {
    pub closed spec fn show_patterns(&self) -> Seq<Seq<char>> {
        self.inner.show_patterns()
    }

    pub closed spec fn hide_patterns(&self) -> Seq<Seq<char>> {
        self.inner.hide_patterns()
    }

    pub fn new(show: &[String], hide: &[String]) -> (f: Self)
        requires
            all_valid(texts(show@)),
            all_valid(texts(hide@)),
        ensures
            f.show_patterns() == texts(show@),
            f.hide_patterns() == texts(hide@),
    {
        InterfaceFilter { inner: KeyFilter::new(show, hide) }
    }

    /// The filter of the given lists, or `None` when a pattern does not
    /// compile.
    pub fn checked(show: &[String], hide: &[String]) -> (r: Option<Self>)
        ensures
            r is Some <==> all_valid(texts(show@)) && all_valid(texts(hide@)),
            r matches Some(f) ==> f.show_patterns() == texts(show@) && f.hide_patterns() == texts(hide@),
    {
        if patterns_valid(show) && patterns_valid(hide) {
            Some(InterfaceFilter::new(show, hide))
        } else {
            None
        }
    }

    /// Whether the interface called `name` appears in the output.
    pub fn shown(&self, name: &str) -> (r: bool)
        ensures
            r == passes(self.show_patterns(), self.hide_patterns(), name@),
    {
        self.inner.shown(name)
    }

    /// The interfaces of a sample that the filter shows: filtering comes
    /// before the rate step, so a hidden interface neither appears nor
    /// costs a diff.
    pub fn sample(&self, counters: &NameMap<Counters>) -> (r: NameMap<Counters>)
        ensures
            r.view() == Map::new(
                |k: Seq<char>| counters.view().contains_key(k) && passes(self.show_patterns(), self.hide_patterns(), k),
                |k: Seq<char>| counters.view()[k],
            ),
    {
        retain_shown(&self.inner, counters)
    }
}

/// The `network` plugin: collection period and interface filter.
pub struct NetworkPlugin {
    pub refresh: Num,
    pub filter: InterfaceFilter,
}

impl NetworkPlugin {
    /// The plugin as `config` sets it up; its `show`/`hide` patterns must
    /// compile (as a validated configuration's do).
    pub fn new(config: &Config) -> (p: Self)
        requires
            all_valid(show_of(*config, "network"@)),
            all_valid(hide_of(*config, "network"@)),
        ensures
            p.refresh == config.refresh_seconds("network"@),
            p.filter.show_patterns() == show_of(*config, "network"@),
            p.filter.hide_patterns() == hide_of(*config, "network"@),
    {
        let empty: Vec<String> = Vec::new();
        match config.plugin_config("network") {
            Some(pc) => NetworkPlugin {
                refresh: config.refresh_for("network"),
                filter: InterfaceFilter::new(pc.show.as_slice(), pc.hide.as_slice()),
            },
            None => {
                assert(texts(empty@) =~= Seq::<Seq<char>>::empty());
                NetworkPlugin {
                    refresh: config.refresh_for("network"),
                    filter: InterfaceFilter::new(empty.as_slice(), empty.as_slice()),
                }
            },
        }
    }

    /// The plugin as `config` sets it up, or `None` when one of its
    /// `show`/`hide` patterns does not compile.
    pub fn checked(config: &Config) -> (r: Option<Self>)
        ensures
            r is Some <==> all_valid(show_of(*config, "network"@)) && all_valid(hide_of(*config, "network"@)),
            r matches Some(p) ==> p.refresh == config.refresh_seconds("network"@)
                && p.filter.show_patterns() == show_of(*config, "network"@)
                && p.filter.hide_patterns() == hide_of(*config, "network"@),
    {
        match config.plugin_config("network") {
            Some(pc) => {
                if !patterns_valid(pc.show.as_slice()) || !patterns_valid(pc.hide.as_slice()) {
                    return None;
                }
            },
            None => {},
        }
        Some(NetworkPlugin::new(config))
    }
}

/// Inter-cycle memory of the `network` plugin: the previous sample and the
/// time it was taken (nanoseconds of a monotonic clock).
pub struct NetworkState {
    pub previous: NameMap<Counters>,
    pub last: Option<u64>,
}

impl NetworkState {
    /// One collection cycle on the filtered sample `current` taken at
    /// `now`: the rate step over the time measured since the previous cycle
    /// (never the nominal refresh), after which the state holds `current`.
    pub fn advance(&mut self, current: NameMap<Counters>, now: u64) -> (items: Vec<NetworkItem>)
        ensures
            final(self).previous == current,
            final(self).last == Some(now),
            step_items(items@, old(self).previous.view(), current.view(), elapsed_since(old(self).last, now)),
    {
        let elapsed = match self.last {
            Some(t) => now.saturating_sub(t),
            None => 0,
        };
        let mut previous: NameMap<Counters> = NameMap::new();
        std::mem::swap(&mut previous, &mut self.previous);
        let (items, next) = step(previous, current, elapsed);
        self.previous = next;
        self.last = Some(now);
        items
    }
}

impl Default for NetworkState {
    fn default() -> (s: Self)
        ensures
            s.previous.view() == Map::<Seq<char>, Counters>::empty(),
            s.last is None,
    {
        NetworkState { previous: NameMap::new(), last: None }
    }
}

} // verus!
