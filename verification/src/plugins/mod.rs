//! Plugin identities and the per-plugin collection logic.
use vstd::prelude::*;
use crate::text::str_eq;

pub mod cpu;
pub mod diskio;
pub mod fields;
pub mod filter;
pub mod fs;
pub mod linux;
pub mod load;
pub mod mem;
pub mod memswap;
pub mod network;
pub mod system;
pub mod uptime;

verus! {

/// `num / den` as a percentage in tenths, rounded half up: the exact value
/// that `round1(num / den * 100)` approximates, times ten.
pub open spec fn percent_tenths(num: int, den: int) -> int {
    (2000 * num + den) / (2 * den)
}

/// Whether `r` is `num / den` as a percentage in tenths, rounded half up:
/// the one whole `r` with `r - 1/2 <= 1000 * num / den < r + 1/2`.
pub open spec fn is_share_tenths(r: int, num: int, den: int) -> bool {
    2 * r * den <= 2000 * num + den && 2000 * num + den < 2 * (r + 1) * den
}

/// Whether `r` is `delta` per second over `elapsed_ns` nanoseconds, in
/// tenths and rounded half up; `0` when no time elapsed.
pub open spec fn is_rate_tenths(r: int, delta: int, elapsed_ns: int) -> bool {
    if elapsed_ns > 0 {
        2 * r * elapsed_ns <= 20_000_000_000 * delta + elapsed_ns && 20_000_000_000 * delta + elapsed_ns < 2 * (r
            + 1) * elapsed_ns
    } else {
        r == 0
    }
}

/// Whether `d` is how much a cumulative counter grew from `prev` to `cur`,
/// zero when it went back (a reboot or a wrap).
pub open spec fn is_increase(d: int, prev: int, cur: int) -> bool {
    if cur >= prev {
        prev + d == cur
    } else {
        d == 0
    }
}

/// `percent_tenths` is the rounded percentage.
pub proof fn percent_tenths_rounds(num: int, den: int)
    requires
        den > 0,
    ensures
        is_share_tenths(percent_tenths(num, den), num, den),
        0 <= num <= den ==> 0 <= percent_tenths(num, den) <= 1000,
        0 <= num ==> 0 <= percent_tenths(num, den) <= 1000 * num + 1,
{
    let x = 2000 * num + den;
    let q = x / (2 * den);
    assert(2 * q * den <= x && x < 2 * (q + 1) * den) by (nonlinear_arith)
        requires
            den > 0,
            q == x / (2 * den),
    ;
    if 0 <= num {
        assert(0 <= q <= 1000 * num + 1) by (nonlinear_arith)
            requires
                den > 0,
                0 <= num,
                x == 2000 * num + den,
                2 * q * den <= x,
                x < 2 * (q + 1) * den,
        ;
    }
    if 0 <= num <= den {
        assert(0 <= q <= 1000) by (nonlinear_arith)
            requires
                den > 0,
                0 <= num <= den,
                x == 2000 * num + den,
                2 * q * den <= x,
                x < 2 * (q + 1) * den,
        ;
    }
}

/// `per_sec_tenths` is the rounded rate.
pub proof fn per_sec_tenths_rounds(delta: int, elapsed_ns: int)
    ensures
        is_rate_tenths(per_sec_tenths(delta, elapsed_ns), delta, elapsed_ns),
{
    if elapsed_ns > 0 {
        let x = 20_000_000_000 * delta + elapsed_ns;
        let q = x / (2 * elapsed_ns);
        assert(2 * q * elapsed_ns <= x && x < 2 * (q + 1) * elapsed_ns) by (nonlinear_arith)
            requires
                elapsed_ns > 0,
                q == x / (2 * elapsed_ns),
        ;
    }
}

/// `percent_tenths(num, den)` for a share of a whole.
pub fn share_tenths(num: u128, den: u128) -> (r: u64)
    requires
        0 < den <= 0x1_0000_0000_0000_0000_0000,
        num <= den,
    ensures
        r == percent_tenths(num as int, den as int),
        r <= 1000,
{
    let q = (2000 * num + den) / (2 * den);
    assert(q <= 1000) by (nonlinear_arith)
        requires
            0 < den,
            num <= den,
            q == (2000 * num + den) / (2 * den),
    ;
    q as u64
}

/// Ten times the per-second rate of `delta` over `elapsed_ns` nanoseconds,
/// rounded half up: the exact value that `round1(delta / elapsed_secs)`
/// approximates, times ten. `0` when no time passed.
pub open spec fn per_sec_tenths(delta: int, elapsed_ns: int) -> int {
    if elapsed_ns > 0 {
        (20_000_000_000 * delta + elapsed_ns) / (2 * elapsed_ns)
    } else {
        0
    }
}

/// `per_sec_tenths(delta, elapsed_ns)`.
pub fn rate_tenths(delta: u64, elapsed_ns: u64) -> (r: u128)
    ensures
        r == per_sec_tenths(delta as int, elapsed_ns as int),
{
    if elapsed_ns == 0 {
        return 0;
    }
    let d = delta as u128;
    let e = elapsed_ns as u128;
    assert(20_000_000_000 * d <= 20_000_000_000 * 0xffff_ffff_ffff_ffffu128) by (nonlinear_arith)
        requires
            d <= 0xffff_ffff_ffff_ffffu128,
    ;
    (20_000_000_000 * d + e) / (2 * e)
}

/// A duration in nanoseconds as milliseconds, rounded half up: the exact
/// value that `round3(elapsed_secs)` approximates, times a thousand.
pub open spec fn rounded_millis(ns: int) -> int {
    (ns + 500_000) / 1_000_000
}

/// `rounded_millis(ns)`.
pub fn millis_of(ns: u64) -> (r: u64)
    ensures
        r == rounded_millis(ns as int),
{
    ((ns as u128 + 500_000) / 1_000_000) as u64
}

/// One collectable metric source of the server.
#[derive(Debug, Clone, Copy, PartialEq, Eq, Hash, Structural)]
pub enum PluginId {
    Cpu,
    Diskio,
    Fs,
    Load,
    Mem,
    MemSwap,
    Network,
    System,
    Uptime,
}

/// The public name of a plugin, as used in routes and configuration.
pub open spec fn plugin_name(id: PluginId) -> Seq<char> {
    match id {
        PluginId::Cpu => seq!['c', 'p', 'u'],
        PluginId::Diskio => seq!['d', 'i', 's', 'k', 'i', 'o'],
        PluginId::Fs => seq!['f', 's'],
        PluginId::Load => seq!['l', 'o', 'a', 'd'],
        PluginId::Mem => seq!['m', 'e', 'm'],
        PluginId::MemSwap => seq!['m', 'e', 'm', 's', 'w', 'a', 'p'],
        PluginId::Network => seq!['n', 'e', 't', 'w', 'o', 'r', 'k'],
        PluginId::System => seq!['s', 'y', 's', 't', 'e', 'm'],
        PluginId::Uptime => seq!['u', 'p', 't', 'i', 'm', 'e'],
    }
}

impl PluginId {
    /// Every plugin this build exposes.
    pub const ALL: [PluginId; 9] = [
        PluginId::Cpu,
        PluginId::Diskio,
        PluginId::Fs,
        PluginId::Load,
        PluginId::Mem,
        PluginId::MemSwap,
        PluginId::Network,
        PluginId::System,
        PluginId::Uptime,
    ];

    pub fn as_str(self) -> (s: &'static str)
        ensures
            s@ == plugin_name(self),
    {
        proof {
            reveal_strlit("cpu");
            reveal_strlit("diskio");
            reveal_strlit("fs");
            reveal_strlit("load");
            reveal_strlit("mem");
            reveal_strlit("memswap");
            reveal_strlit("network");
            reveal_strlit("system");
            reveal_strlit("uptime");
        }
        match self {
            PluginId::Cpu => "cpu",
            PluginId::Diskio => "diskio",
            PluginId::Fs => "fs",
            PluginId::Load => "load",
            PluginId::Mem => "mem",
            PluginId::MemSwap => "memswap",
            PluginId::Network => "network",
            PluginId::System => "system",
            PluginId::Uptime => "uptime",
        }
    }
}

/// The plugin whose name is `name`, if any.
pub open spec fn plugin_named(name: Seq<char>) -> Option<PluginId> {
    if name == plugin_name(PluginId::Cpu) {
        Some(PluginId::Cpu)
    } else if name == plugin_name(PluginId::Diskio) {
        Some(PluginId::Diskio)
    } else if name == plugin_name(PluginId::Fs) {
        Some(PluginId::Fs)
    } else if name == plugin_name(PluginId::Load) {
        Some(PluginId::Load)
    } else if name == plugin_name(PluginId::Mem) {
        Some(PluginId::Mem)
    } else if name == plugin_name(PluginId::MemSwap) {
        Some(PluginId::MemSwap)
    } else if name == plugin_name(PluginId::Network) {
        Some(PluginId::Network)
    } else if name == plugin_name(PluginId::System) {
        Some(PluginId::System)
    } else if name == plugin_name(PluginId::Uptime) {
        Some(PluginId::Uptime)
    } else {
        None
    }
}

/// The primary-key field of a collection plugin; `None` for a plugin whose
/// payload is one object.
pub open spec fn key_field_name(id: PluginId) -> Option<Seq<char>> {
    match id {
        PluginId::Network => Some("interface_name"@),
        PluginId::Fs => Some("mnt_point"@),
        PluginId::Diskio => Some("disk_name"@),
        _ => None,
    }
}

impl PluginId {
    /// `&str -> PluginId`; `None` for a name that is no plugin.
    pub fn parse(name: &str) -> (r: Option<PluginId>)
        ensures
            r == plugin_named(name@),
    {
        if str_eq(name, PluginId::Cpu.as_str()) {
            Some(PluginId::Cpu)
        } else if str_eq(name, PluginId::Diskio.as_str()) {
            Some(PluginId::Diskio)
        } else if str_eq(name, PluginId::Fs.as_str()) {
            Some(PluginId::Fs)
        } else if str_eq(name, PluginId::Load.as_str()) {
            Some(PluginId::Load)
        } else if str_eq(name, PluginId::Mem.as_str()) {
            Some(PluginId::Mem)
        } else if str_eq(name, PluginId::MemSwap.as_str()) {
            Some(PluginId::MemSwap)
        } else if str_eq(name, PluginId::Network.as_str()) {
            Some(PluginId::Network)
        } else if str_eq(name, PluginId::System.as_str()) {
            Some(PluginId::System)
        } else if str_eq(name, PluginId::Uptime.as_str()) {
            Some(PluginId::Uptime)
        } else {
            None
        }
    }

    /// The primary-key field of a collection plugin.
    pub fn key_field(self) -> (r: Option<&'static str>)
        ensures
            r matches Some(k) ==> key_field_name(self) == Some(k@),
            r is None ==> key_field_name(self) is None,
    {
        match self {
            PluginId::Network => Some("interface_name"),
            PluginId::Fs => Some("mnt_point"),
            PluginId::Diskio => Some("disk_name"),
            _ => None,
        }
    }

    /// Position of the plugin in `ALL`.
    pub open spec fn index(self) -> nat {
        match self {
            PluginId::Cpu => 0,
            PluginId::Diskio => 1,
            PluginId::Fs => 2,
            PluginId::Load => 3,
            PluginId::Mem => 4,
            PluginId::MemSwap => 5,
            PluginId::Network => 6,
            PluginId::System => 7,
            PluginId::Uptime => 8,
        }
    }

    pub fn position(self) -> (i: usize)
        ensures
            i == self.index(),
    {
        match self {
            PluginId::Cpu => 0,
            PluginId::Diskio => 1,
            PluginId::Fs => 2,
            PluginId::Load => 3,
            PluginId::Mem => 4,
            PluginId::MemSwap => 5,
            PluginId::Network => 6,
            PluginId::System => 7,
            PluginId::Uptime => 8,
        }
    }
}

/// Names and plugins correspond one to one: parsing a plugin's name gives
/// the plugin back, and a name that parses is that plugin's name.
pub proof fn parse_inverts_as_str(id: PluginId, name: Seq<char>)
    ensures
        plugin_named(plugin_name(id)) == Some(id),
        plugin_named(name) matches Some(p) ==> plugin_name(p) == name,
{
    assert(plugin_name(PluginId::Cpu).len() == 3);
    assert(plugin_name(PluginId::Fs).len() == 2);
    assert(plugin_name(PluginId::Mem).len() == 3);
    assert(plugin_name(PluginId::Mem)[0] != plugin_name(PluginId::Cpu)[0]);
    assert(plugin_name(PluginId::Load).len() == 4);
    assert(plugin_name(PluginId::Diskio)[0] != plugin_name(PluginId::System)[0]);
    assert(plugin_name(PluginId::Diskio)[0] != plugin_name(PluginId::Uptime)[0]);
    assert(plugin_name(PluginId::System)[0] != plugin_name(PluginId::Uptime)[0]);
    assert(plugin_name(PluginId::MemSwap)[0] != plugin_name(PluginId::Network)[0]);
}

} // verus!
