//! Configuration: the typed settings, their validation, the per-plugin
//! lookups, and the command-line arguments. Reading and deserialising the
//! TOML file happens outside the library, which receives the typed values.
use vstd::prelude::*;
use crate::alerts::{careful_of, critical_of, lookup, pick, warning_of};
use crate::namemap::NameMap;
use crate::num::Num;
use crate::plugins::filter::{all_valid, regex_match, regex_valid};
use crate::plugins::{plugin_named, PluginId};
use crate::plugins::linux::opt_text;
use crate::text::{chars_of, opt_string, push_str, starts_with_in, str_eq, string_of, texts};

verus! {

/// Plugins known to this build: a `[plugins.<name>]` section for any other
/// name is refused.
pub const KNOWN_PLUGINS: [&'static str; 9] = [
    "cpu",
    "diskio",
    "fs",
    "load",
    "mem",
    "memswap",
    "network",
    "system",
    "uptime",
];

/// Same default port as the Glances REST server.
pub const DEFAULT_PORT: u16 = 61208;

/// An IP address to bind to.
#[derive(Debug, Clone, Copy, PartialEq, Eq, Structural)]
pub enum BindAddr {
    V4(u8, u8, u8, u8),
    V6(u16, u16, u16, u16, u16, u16, u16, u16),
}

impl BindAddr {
    /// `IpAddr::is_loopback`: `127.0.0.0/8` for IPv4, `::1` for IPv6.
    pub open spec fn loopback(self) -> bool {
        match self {
            BindAddr::V4(a, _, _, _) => a == 127,
            BindAddr::V6(a, b, c, d, e, f, g, h) => a == 0 && b == 0 && c == 0 && d == 0 && e == 0
                && f == 0 && g == 0 && h == 1,
        }
    }

    pub fn is_loopback(&self) -> (r: bool)
        ensures
            r == self.loopback(),
    {
        match *self {
            BindAddr::V4(a, _, _, _) => a == 127,
            BindAddr::V6(a, b, c, d, e, f, g, h) => a == 0 && b == 0 && c == 0 && d == 0 && e == 0
                && f == 0 && g == 0 && h == 1,
        }
    }
}

pub struct ServerConfig {
    pub bind: BindAddr,
    pub port: u16,
    /// Cleartext password; mutually exclusive with `password_env`.
    pub password: Option<String>,
    /// Name of the environment variable that holds the password.
    pub password_env: Option<String>,
}

impl Default for ServerConfig {
    /// Closed by default: loopback, no password.
    fn default() -> (s: Self)
        ensures
            s.bind == BindAddr::V4(127, 0, 0, 1),
            s.port == DEFAULT_PORT,
            s.password is None,
            s.password_env is None,
    {
        ServerConfig { bind: BindAddr::V4(127, 0, 0, 1), port: DEFAULT_PORT, password: None, password_env: None }
    }
}

pub struct SecurityConfig {
    /// CORS allow-list. Empty: CORS fully closed; never a wildcard.
    pub cors_origins: Vec<String>,
    /// Expected `Host` header values.
    pub trusted_hosts: Vec<String>,
}

impl Default for SecurityConfig {
    fn default() -> (s: Self)
        ensures
            s.cors_origins@.len() == 0,
            s.trusted_hosts@.len() == 2,
            s.trusted_hosts@[0]@ == "localhost"@,
            s.trusted_hosts@[1]@ == "127.0.0.1"@,
    {
        let mut trusted_hosts: Vec<String> = Vec::new();
        trusted_hosts.push(String::from_str("localhost"));
        trusted_hosts.push(String::from_str("127.0.0.1"));
        SecurityConfig { cors_origins: Vec::new(), trusted_hosts }
    }
}

/// 2.0 seconds.
pub const TWO_SECONDS: u64 = 0x4000_0000_0000_0000;

/// 5.0 seconds.
pub const FIVE_SECONDS: u64 = 0x4014_0000_0000_0000;

pub struct CollectConfig {
    /// Default collection period in seconds, overridable per plugin.
    pub refresh: Num,
    /// A collector stops after this many refresh periods without a request.
    pub idle_cycles: u32,
    /// How long a waking request waits for the first cycle, in seconds.
    pub guard_timeout: Num,
}

impl Default for CollectConfig {
    fn default() -> (s: Self)
        ensures
            s.refresh.bits == TWO_SECONDS,
            s.idle_cycles == 5,
            s.guard_timeout.bits == FIVE_SECONDS,
    {
        CollectConfig {
            refresh: Num::from_bits(TWO_SECONDS),
            idle_cycles: 5,
            guard_timeout: Num::from_bits(FIVE_SECONDS),
        }
    }
}

/// Alert limits of one field; any subset may be set.
#[derive(Debug, Clone, Copy, PartialEq, Eq, Structural)]
pub struct Thresholds {
    pub careful: Option<Num>,
    pub warning: Option<Num>,
    pub critical: Option<Num>,
}

pub struct PluginConfig {
    /// A disabled plugin is absent from the API.
    pub enabled: Option<bool>,
    /// Per-plugin override of `collect.refresh`, in seconds.
    pub refresh: Option<Num>,
    /// Regex allow-list on the item primary key.
    pub show: Vec<String>,
    /// Regex deny-list on the item primary key.
    pub hide: Vec<String>,
    /// Item primary key to display alias.
    pub alias: NameMap<String>,
    /// Global alert limits, by field.
    pub thresholds: NameMap<Thresholds>,
    /// Per-item alert limits: item key, then field.
    pub thresholds_by_item: NameMap<NameMap<Thresholds>>,
    /// Per-plugin hysteresis window, in seconds.
    pub min_duration_seconds: Option<Num>,
}

impl Default for PluginConfig {
    fn default() -> (p: Self)
        ensures
            p.enabled is None,
            p.refresh is None,
            p.show@.len() == 0,
            p.hide@.len() == 0,
            p.alias.view() == Map::<Seq<char>, String>::empty(),
            p.thresholds.view() == Map::<Seq<char>, Thresholds>::empty(),
            p.thresholds_by_item.view() == Map::<Seq<char>, NameMap<Thresholds>>::empty(),
            p.min_duration_seconds is None,
    {
        PluginConfig {
            enabled: None,
            refresh: None,
            show: Vec::new(),
            hide: Vec::new(),
            alias: NameMap::new(),
            thresholds: NameMap::new(),
            thresholds_by_item: NameMap::new(),
            min_duration_seconds: None,
        }
    }
}

/// The `[alerts]` section.
pub struct AlertsConfig {
    /// Maximum number of retained events.
    pub history_size: usize,
    /// Global hysteresis window, in seconds.
    pub min_duration_seconds: Num,
}

impl Default for AlertsConfig {
    fn default() -> (a: Self)
        ensures
            a.history_size == 200,
            a.min_duration_seconds.bits == FIVE_SECONDS,
    {
        AlertsConfig { history_size: 200, min_duration_seconds: Num::from_bits(FIVE_SECONDS) }
    }
}

pub struct Config {
    pub server: ServerConfig,
    pub security: SecurityConfig,
    pub collect: CollectConfig,
    pub plugins: NameMap<PluginConfig>,
    pub alerts: AlertsConfig,
}

impl Default for Config {
    fn default() -> (c: Self)
        ensures
            c.server.bind == BindAddr::V4(127, 0, 0, 1),
            c.server.port == DEFAULT_PORT,
            c.server.password is None,
            c.server.password_env is None,
            c.security.cors_origins@.len() == 0,
            c.security.trusted_hosts@.len() == 2,
            c.security.trusted_hosts@[0]@ == "localhost"@,
            c.security.trusted_hosts@[1]@ == "127.0.0.1"@,
            c.collect.refresh.bits == TWO_SECONDS,
            c.collect.idle_cycles == 5,
            c.collect.guard_timeout.bits == FIVE_SECONDS,
            c.plugins.view() == Map::<Seq<char>, PluginConfig>::empty(),
            c.alerts.history_size == 200,
            c.alerts.min_duration_seconds.bits == FIVE_SECONDS,
    {
        Config {
            server: ServerConfig::default(),
            security: SecurityConfig::default(),
            collect: CollectConfig::default(),
            plugins: NameMap::new(),
            alerts: AlertsConfig::default(),
        }
    }
}

impl Config {
    /// The configuration section of a plugin, if any.
    pub open spec fn plugin(self, name: Seq<char>) -> Option<PluginConfig> {
        if self.plugins.view().contains_key(name) {
            Some(self.plugins.view()[name])
        } else {
            None
        }
    }

    /// Collection period of a plugin in seconds: its own `refresh`, else the
    /// global one.
    pub open spec fn refresh_seconds(self, name: Seq<char>) -> Num {
        match self.plugin(name) {
            Some(p) => match p.refresh {
                Some(r) => r,
                None => self.collect.refresh,
            },
            None => self.collect.refresh,
        }
    }

    pub fn plugin_config(&self, name: &str) -> (r: Option<&PluginConfig>)
        ensures
            r matches Some(p) ==> self.plugin(name@) == Some(*p),
            r is None ==> self.plugin(name@) is None,
    {
        self.plugins.get(name)
    }

    /// Collection period for a plugin, in seconds (per-plugin override or
    /// global).
    pub fn refresh_for(&self, plugin: &str) -> (r: Num)
        ensures
            r == self.refresh_seconds(plugin@),
    {
        match self.plugins.get(plugin) {
            Some(p) => match p.refresh {
                Some(r) => r,
                None => self.collect.refresh,
            },
            None => self.collect.refresh,
        }
    }

    /// How long a waking request waits for the first cycle, in seconds.
    pub fn guard_timeout(&self) -> (r: Num)
        ensures
            r == self.collect.guard_timeout,
    {
        self.collect.guard_timeout
    }

    /// A plugin is enabled unless its section says `enabled = false`.
    pub fn plugin_enabled(&self, plugin: &str) -> (r: bool)
        ensures
            r == (match self.plugin(plugin@) {
                Some(p) => match p.enabled {
                    Some(e) => e,
                    None => true,
                },
                None => true,
            }),
    {
        match self.plugins.get(plugin) {
            Some(p) => match p.enabled {
                Some(e) => e,
                None => true,
            },
            None => true,
        }
    }
}


/// What makes a configuration invalid.
pub enum Invalid {
    /// `collect.refresh` is not a positive number of seconds.
    Refresh(Num),
    /// `collect.guard_timeout` is not a positive number of seconds.
    GuardTimeout(Num),
    /// `collect.idle_cycles` is 0.
    IdleCycles,
    /// `alerts.history_size` is 0.
    HistorySize,
    /// `alerts.min_duration_seconds` is not a finite, non-negative number.
    MinDuration(Num),
    /// A `[plugins.<name>]` section for a plugin this build does not know.
    UnknownPlugin(String),
    /// `plugins.<name>.refresh` is not a positive number of seconds.
    PluginRefresh(String, Num),
    /// `plugins.<name>.min_duration_seconds` is not a finite, non-negative
    /// number.
    PluginMinDuration(String, Num),
    /// A pattern of `plugins.<plugin>.<list>` does not compile.
    Regex { plugin: String, list: &'static str, pattern: String },
    /// A declared threshold set of `plugins.<plugin>`, or the set merged
    /// from a per-item override and the global one, has a limit that is not
    /// finite or limits out of the order `careful <= warning <= critical`.
    Thresholds { plugin: String, item: Option<String>, field: String },
    /// Both `[server].password` and `[server].password_env` are set.
    PasswordConflict,
    /// The variable that `[server].password_env` names is not set (or not
    /// valid UTF-8).
    PasswordEnvUnset(String),
    /// The variable that `[server].password_env` names is empty.
    PasswordEnvEmpty(String),
}

/// Why a configuration could not be had.
pub enum ConfigError {
    /// A path given via `--config` or `GLANCES_RS_CONFIG` does not exist.
    ExplicitPathMissing(String),
    /// The file could not be read: its path and the reason.
    Read(String, String),
    /// The TOML document could not be parsed: the parser's message.
    Parse(String),
    Invalid(Invalid),
}

/// A positive, finite number of seconds.
pub open spec fn positive_secs(n: Num) -> bool {
    n.finite() && n.positive()
}

/// A finite, non-negative number of seconds.
pub open spec fn window_secs(n: Num) -> bool {
    n.finite() && n.non_negative()
}

/// An unset limit, or a finite one.
pub open spec fn limit_ok(l: Option<Num>) -> bool {
    match l {
        Some(v) => v.finite(),
        None => true,
    }
}

/// `a <= b` where both are set.
pub open spec fn in_order(a: Option<Num>, b: Option<Num>) -> bool {
    match (a, b) {
        (Some(x), Some(y)) => x.spec_le(y),
        _ => true,
    }
}

/// Every set limit is finite and the set ones satisfy
/// `careful <= warning <= critical`.
pub open spec fn thresholds_ok(t: Thresholds) -> bool {
    &&& limit_ok(t.careful)
    &&& limit_ok(t.warning)
    &&& limit_ok(t.critical)
    &&& in_order(t.careful, t.warning)
    &&& in_order(t.warning, t.critical)
    &&& in_order(t.careful, t.critical)
}

/// The limits of a per-item set, each falling back to the global set's.
pub open spec fn merged(item: Thresholds, global: Option<Thresholds>) -> Thresholds {
    Thresholds {
        careful: pick(item.careful, careful_of(global)),
        warning: pick(item.warning, warning_of(global)),
        critical: pick(item.critical, critical_of(global)),
    }
}

/// The threshold sets declared for one item are valid, as are their merges
/// with the global sets.
pub open spec fn item_thresholds_ok(p: PluginConfig, item: Seq<char>) -> bool {
    forall|f: Seq<char>|
        #[trigger] p.thresholds_by_item.view()[item].view().contains_key(f) ==> thresholds_ok(
            p.thresholds_by_item.view()[item].view()[f],
        ) && thresholds_ok(merged(p.thresholds_by_item.view()[item].view()[f], lookup(p.thresholds.view(), f)))
}

/// Everything a plugin section is checked for.
pub open spec fn plugin_ok(name: Seq<char>, p: PluginConfig) -> bool {
    &&& plugin_named(name) is Some
    &&& match p.refresh {
        Some(r) => positive_secs(r),
        None => true,
    }
    &&& match p.min_duration_seconds {
        Some(m) => window_secs(m),
        None => true,
    }
    &&& all_valid(texts(p.show@))
    &&& all_valid(texts(p.hide@))
    &&& forall|f: Seq<char>| #[trigger] p.thresholds.view().contains_key(f) ==> thresholds_ok(p.thresholds.view()[f])
    &&& forall|i: Seq<char>| #[trigger] p.thresholds_by_item.view().contains_key(i) ==> item_thresholds_ok(p, i)
}

/// Whether a configuration passes validation.
pub open spec fn config_ok(c: Config) -> bool {
    &&& positive_secs(c.collect.refresh)
    &&& positive_secs(c.collect.guard_timeout)
    &&& c.collect.idle_cycles > 0
    &&& c.alerts.history_size >= 1
    &&& window_secs(c.alerts.min_duration_seconds)
    &&& forall|n: Seq<char>| #[trigger] c.plugins.view().contains_key(n) ==> plugin_ok(n, c.plugins.view()[n])
}

/// Whether `e` names a fault that plugin section `name`, `p` has.
pub open spec fn plugin_fault(name: Seq<char>, p: PluginConfig, e: Invalid) -> bool {
    match e {
        Invalid::UnknownPlugin(n) => n@ == name && plugin_named(name) is None,
        Invalid::PluginRefresh(n, r) => n@ == name && p.refresh == Some(r) && !positive_secs(r),
        Invalid::PluginMinDuration(n, m) => n@ == name && p.min_duration_seconds == Some(m) && !window_secs(m),
        Invalid::Regex { plugin, list, pattern } => plugin@ == name && !regex_valid(pattern@) && (
        (list@ == "show"@ && texts(p.show@).contains(pattern@)) || (list@ == "hide"@ && texts(
            p.hide@,
        ).contains(pattern@))),
        Invalid::Thresholds { plugin, item, field } => plugin@ == name && match item {
            None => p.thresholds.view().contains_key(field@) && !thresholds_ok(p.thresholds.view()[field@]),
            Some(i) => p.thresholds_by_item.view().contains_key(i@)
                && p.thresholds_by_item.view()[i@].view().contains_key(field@) && !(thresholds_ok(
                p.thresholds_by_item.view()[i@].view()[field@],
            ) && thresholds_ok(
                merged(p.thresholds_by_item.view()[i@].view()[field@], lookup(p.thresholds.view(), field@)),
            )),
        },
        _ => false,
    }
}

/// Whether a limit is unset or finite.
fn limit_valid(l: Option<Num>) -> (r: bool)
    ensures
        r == limit_ok(l),
{
    match l {
        Some(v) => v.is_finite(),
        None => true,
    }
}

fn ordered(a: Option<Num>, b: Option<Num>) -> (r: bool)
    ensures
        r == in_order(a, b),
{
    match (a, b) {
        (Some(x), Some(y)) => x.le(&y),
        _ => true,
    }
}

/// Whether a threshold set is valid.
pub fn thresholds_valid(t: &Thresholds) -> (r: bool)
    ensures
        r == thresholds_ok(*t),
{
    limit_valid(t.careful) && limit_valid(t.warning) && limit_valid(t.critical) && ordered(t.careful, t.warning)
        && ordered(t.warning, t.critical) && ordered(t.careful, t.critical)
}

fn merge(item: &Thresholds, global: Option<&Thresholds>) -> (r: Thresholds)
    ensures
        r == merged(*item, match global {
            Some(g) => Some(*g),
            None => None,
        }),
{
    match global {
        Some(g) => Thresholds {
            careful: match item.careful {
                Some(v) => Some(v),
                None => g.careful,
            },
            warning: match item.warning {
                Some(v) => Some(v),
                None => g.warning,
            },
            critical: match item.critical {
                Some(v) => Some(v),
                None => g.critical,
            },
        },
        None => *item,
    }
}

/// The first pattern of `patterns` that does not compile, if any.
fn first_invalid(patterns: &Vec<String>) -> (r: Option<usize>)
    ensures
        r is None <==> all_valid(texts(patterns@)),
        r matches Some(i) ==> i < patterns@.len() && !regex_valid(patterns@[i as int]@),
{
    let mut i: usize = 0;
    while i < patterns.len()
        invariant
            0 <= i <= patterns@.len(),
            forall|j: int| 0 <= j < i ==> regex_valid(#[trigger] texts(patterns@)[j]),
        decreases patterns@.len() - i,
    {
        if regex_match(patterns[i].as_str(), "").is_none() {
            assert(texts(patterns@)[i as int] == patterns@[i as int]@);
            return Some(i);
        }
        i = i + 1;
    }
    None
}

/// Checks the threshold sets declared for one item against `global`.
fn check_item(plugin: &String, item: &String, sets: &NameMap<Thresholds>, global: &NameMap<Thresholds>) -> (r: Result<(), Invalid>)
    ensures
        r is Ok <==> forall|f: Seq<char>|
            #[trigger] sets.view().contains_key(f) ==> thresholds_ok(sets.view()[f]) && thresholds_ok(
                merged(sets.view()[f], lookup(global.view(), f)),
            ),
        r matches Err(e) ==> (e matches Invalid::Thresholds { plugin: p, item: Some(i), field }
            && p@ == plugin@ && i@ == item@ && sets.view().contains_key(field@) && !(thresholds_ok(sets.view()[field@])
            && thresholds_ok(merged(sets.view()[field@], lookup(global.view(), field@))))),
{
    sets.lemma_view();
    let ghost e = sets.entries_seq();
    let mut j: usize = 0;
    while j < sets.len()
        invariant
            0 <= j <= e.len(),
            e == sets.entries_seq(),
            forall|a: int| 0 <= a < e.len() ==> #[trigger] sets.view()[e[a].0@] == e[a].1,
            forall|k: Seq<char>| #[trigger] sets.view().contains_key(k) <==> exists|a: int| 0 <= a < e.len() && e[a].0@ == k,
            forall|a: int| 0 <= a < j ==> thresholds_ok((#[trigger] e[a]).1) && thresholds_ok(merged(e[a].1, lookup(global.view(), e[a].0@))),
        decreases e.len() - j,
    {
        let entry = sets.entry(j);
        let m = merge(&entry.1, global.get(entry.0.as_str()));
        if !thresholds_valid(&entry.1) || !thresholds_valid(&m) {
            assert(sets.view()[e[j as int].0@] == e[j as int].1);
            assert(sets.view().contains_key(e[j as int].0@));
            return Err(Invalid::Thresholds { plugin: plugin.clone(), item: Some(item.clone()), field: entry.0.clone() });
        }
        j = j + 1;
    }
    proof {
        assert forall|f: Seq<char>| #[trigger] sets.view().contains_key(f) implies thresholds_ok(sets.view()[f]) && thresholds_ok(
            merged(sets.view()[f], lookup(global.view(), f))) by {
            let a = choose|a: int| 0 <= a < e.len() && e[a].0@ == f;
            assert(thresholds_ok(e[a].1));
        }
    }
    Ok(())
}

/// Checks one plugin section, in this order: its name, `refresh`,
/// `min_duration_seconds`, the `show` then `hide` patterns, the global
/// threshold sets, then the per-item ones.
fn check_plugin(name: &String, p: &PluginConfig) -> (r: Result<(), Invalid>)
    ensures
        r is Ok <==> plugin_ok(name@, *p),
        r matches Err(e) ==> plugin_fault(name@, *p, e),
{
    if PluginId::parse(name.as_str()).is_none() {
        return Err(Invalid::UnknownPlugin(name.clone()));
    }
    match p.refresh {
        Some(r) => {
            if !(r.is_finite() && r.is_positive()) {
                return Err(Invalid::PluginRefresh(name.clone(), r));
            }
        },
        None => {},
    }
    match p.min_duration_seconds {
        Some(m) => {
            if !(m.is_finite() && m.is_non_negative()) {
                return Err(Invalid::PluginMinDuration(name.clone(), m));
            }
        },
        None => {},
    }
    match first_invalid(&p.show) {
        Some(i) => {
            assert(texts(p.show@)[i as int] == p.show@[i as int]@);
            return Err(Invalid::Regex { plugin: name.clone(), list: "show", pattern: p.show[i].clone() });
        },
        None => {},
    }
    match first_invalid(&p.hide) {
        Some(i) => {
            assert(texts(p.hide@)[i as int] == p.hide@[i as int]@);
            return Err(Invalid::Regex { plugin: name.clone(), list: "hide", pattern: p.hide[i].clone() });
        },
        None => {},
    }
    p.thresholds.lemma_view();
    let ghost e = p.thresholds.entries_seq();
    let mut j: usize = 0;
    while j < p.thresholds.len()
        invariant
            0 <= j <= e.len(),
            e == p.thresholds.entries_seq(),
            forall|a: int| 0 <= a < e.len() ==> #[trigger] p.thresholds.view()[e[a].0@] == e[a].1,
            forall|k: Seq<char>| #[trigger] p.thresholds.view().contains_key(k) <==> exists|a: int| 0 <= a < e.len() && e[a].0@ == k,
            forall|a: int| 0 <= a < j ==> thresholds_ok((#[trigger] e[a]).1),
        decreases e.len() - j,
    {
        let entry = p.thresholds.entry(j);
        if !thresholds_valid(&entry.1) {
            assert(p.thresholds.view()[e[j as int].0@] == e[j as int].1);
            assert(p.thresholds.view().contains_key(e[j as int].0@));
            return Err(Invalid::Thresholds { plugin: name.clone(), item: None, field: entry.0.clone() });
        }
        j = j + 1;
    }
    assert forall|f: Seq<char>| #[trigger] p.thresholds.view().contains_key(f) implies thresholds_ok(p.thresholds.view()[f]) by {
        let a = choose|a: int| 0 <= a < e.len() && e[a].0@ == f;
        assert(thresholds_ok(e[a].1));
    }
    p.thresholds_by_item.lemma_view();
    let ghost b = p.thresholds_by_item.entries_seq();
    let mut k: usize = 0;
    while k < p.thresholds_by_item.len()
        invariant
            0 <= k <= b.len(),
            b == p.thresholds_by_item.entries_seq(),
            forall|a: int| 0 <= a < b.len() ==> #[trigger] p.thresholds_by_item.view()[b[a].0@] == b[a].1,
            forall|x: Seq<char>| #[trigger] p.thresholds_by_item.view().contains_key(x) <==> exists|a: int| 0 <= a < b.len() && b[a].0@ == x,
            forall|a: int| 0 <= a < k ==> item_thresholds_ok(*p, (#[trigger] b[a]).0@),
        decreases b.len() - k,
    {
        let entry = p.thresholds_by_item.entry(k);
        assert(p.thresholds_by_item.view()[b[k as int].0@] == b[k as int].1);
        assert(p.thresholds_by_item.view().contains_key(b[k as int].0@));
        match check_item(name, &entry.0, &entry.1, &p.thresholds) {
            Ok(()) => {},
            Err(err) => {
                return Err(err);
            },
        }
        k = k + 1;
    }
    assert forall|x: Seq<char>| #[trigger] p.thresholds_by_item.view().contains_key(x) implies item_thresholds_ok(*p, x) by {
        let a = choose|a: int| 0 <= a < b.len() && b[a].0@ == x;
        assert(item_thresholds_ok(*p, b[a].0@));
    }
    Ok(())
}

impl Config {
    /// Validates the configuration: `collect.refresh`,
    /// `collect.guard_timeout`, `collect.idle_cycles`, `alerts.history_size`
    /// and `alerts.min_duration_seconds` in this order, then each plugin
    /// section (which fault of which section is reported, where several
    /// have one, follows the order of the sections).
    pub fn validate(&self) -> (r: Result<(), Invalid>)
        ensures
            r is Ok <==> config_ok(*self),
            !positive_secs(self.collect.refresh) ==> (r matches Err(Invalid::Refresh(v)) && v == self.collect.refresh),
            positive_secs(self.collect.refresh) && !positive_secs(self.collect.guard_timeout) ==> (r matches Err(
                Invalid::GuardTimeout(v),
            ) && v == self.collect.guard_timeout),
            positive_secs(self.collect.refresh) && positive_secs(self.collect.guard_timeout) && self.collect.idle_cycles
                == 0 ==> r matches Err(Invalid::IdleCycles),
            positive_secs(self.collect.refresh) && positive_secs(self.collect.guard_timeout) && self.collect.idle_cycles
                > 0 && self.alerts.history_size == 0 ==> r matches Err(Invalid::HistorySize),
            positive_secs(self.collect.refresh) && positive_secs(self.collect.guard_timeout) && self.collect.idle_cycles
                > 0 && self.alerts.history_size >= 1 && !window_secs(self.alerts.min_duration_seconds) ==> (r matches Err(
                Invalid::MinDuration(v),
            ) && v == self.alerts.min_duration_seconds),
            r matches Err(e) ==> match e {
                Invalid::Refresh(_) | Invalid::GuardTimeout(_) | Invalid::IdleCycles | Invalid::HistorySize
                | Invalid::MinDuration(_) => true,
                _ => exists|n: Seq<char>|
                    #[trigger] self.plugins.view().contains_key(n) && plugin_fault(n, self.plugins.view()[n], e),
            },
    {
        let c = &self.collect;
        if !(c.refresh.is_finite() && c.refresh.is_positive()) {
            return Err(Invalid::Refresh(c.refresh));
        }
        if !(c.guard_timeout.is_finite() && c.guard_timeout.is_positive()) {
            return Err(Invalid::GuardTimeout(c.guard_timeout));
        }
        if c.idle_cycles == 0 {
            return Err(Invalid::IdleCycles);
        }
        if self.alerts.history_size == 0 {
            return Err(Invalid::HistorySize);
        }
        let m = self.alerts.min_duration_seconds;
        if !(m.is_finite() && m.is_non_negative()) {
            return Err(Invalid::MinDuration(m));
        }
        self.plugins.lemma_view();
        let ghost e = self.plugins.entries_seq();
        let mut i: usize = 0;
        while i < self.plugins.len()
            invariant
                0 <= i <= e.len(),
                e == self.plugins.entries_seq(),
                forall|a: int| 0 <= a < e.len() ==> #[trigger] self.plugins.view()[e[a].0@] == e[a].1,
                forall|k: Seq<char>| #[trigger] self.plugins.view().contains_key(k) <==> exists|a: int| 0 <= a < e.len() && e[a].0@ == k,
                forall|a: int| 0 <= a < i ==> plugin_ok((#[trigger] e[a]).0@, e[a].1),
                positive_secs(self.collect.refresh),
                positive_secs(self.collect.guard_timeout),
                self.collect.idle_cycles > 0,
                self.alerts.history_size >= 1,
                window_secs(self.alerts.min_duration_seconds),
            decreases e.len() - i,
        {
            let entry = self.plugins.entry(i);
            match check_plugin(&entry.0, &entry.1) {
                Ok(()) => {},
                Err(err) => {
                    assert(self.plugins.view().contains_key(e[i as int].0@));
                    assert(self.plugins.view()[e[i as int].0@] == e[i as int].1);
                    return Err(err);
                },
            }
            i = i + 1;
        }
        assert forall|n: Seq<char>| #[trigger] self.plugins.view().contains_key(n) implies plugin_ok(n, self.plugins.view()[n]) by {
            let a = choose|a: int| 0 <= a < e.len() && e[a].0@ == n;
            assert(plugin_ok(e[a].0@, e[a].1));
        }
        Ok(())
    }
}

impl ServerConfig {
    /// Replaces `password_env` with the secret that the variable it names
    /// holds, `env_value` (the variable's value as read from the
    /// environment; `None` when it is not set or not valid UTF-8), so that
    /// downstream code reads `password` alone. Both fields set, a missing
    /// variable or an empty one is an error, and the section is then left
    /// as it was: a misconfigured secret never degrades to "no auth".
    pub fn resolve_password(&mut self, env_value: Option<String>) -> (r: Result<(), Invalid>)
        ensures
            match (old(self).password, old(self).password_env) {
                (Some(_), Some(_)) => r matches Err(Invalid::PasswordConflict) && *final(self) == *old(self),
                (None, Some(var)) => match env_value {
                    None => (r matches Err(Invalid::PasswordEnvUnset(v)) && v@ == var@) && *final(self) == *old(self),
                    Some(val) => if val@.len() == 0 {
                        (r matches Err(Invalid::PasswordEnvEmpty(v)) && v@ == var@) && *final(self) == *old(self)
                    } else {
                        r is Ok && final(self).password == Some(val) && final(self).password_env is None
                            && final(self).bind == old(self).bind && final(self).port == old(self).port
                    },
                },
                _ => r is Ok && *final(self) == *old(self),
            },
    {
        match (&self.password, &self.password_env) {
            (Some(_), Some(_)) => Err(Invalid::PasswordConflict),
            (None, Some(var)) => match env_value {
                None => Err(Invalid::PasswordEnvUnset(var.clone())),
                Some(val) => {
                    if val.as_str().is_empty() {
                        Err(Invalid::PasswordEnvEmpty(var.clone()))
                    } else {
                        self.password = Some(val);
                        self.password_env = None;
                        Ok(())
                    }
                },
            },
            _ => Ok(()),
        }
    }
}

impl Config {
    /// A parsed configuration made ready for use: validated, then its
    /// `password_env` resolved against `env_value` (see
    /// `ServerConfig::resolve_password`).
    pub fn validated(self, env_value: Option<String>) -> (r: Result<Config, ConfigError>)
        ensures
            !config_ok(self) ==> r matches Err(ConfigError::Invalid(_)),
            r matches Ok(c) ==> config_ok(self) && c.server.password_env is None && c.collect == self.collect
                && c.plugins == self.plugins && c.alerts == self.alerts && c.security == self.security
                && c.server.bind == self.server.bind && c.server.port == self.server.port,
            config_ok(self) ==> match (self.server.password, self.server.password_env) {
                (Some(_), Some(_)) => r matches Err(ConfigError::Invalid(Invalid::PasswordConflict)),
                (None, Some(_)) => match env_value {
                    None => r matches Err(ConfigError::Invalid(Invalid::PasswordEnvUnset(_))),
                    Some(val) => if val@.len() == 0 {
                        r matches Err(ConfigError::Invalid(Invalid::PasswordEnvEmpty(_)))
                    } else {
                        r matches Ok(c) && c.server.password == Some(val)
                    },
                },
                _ => r matches Ok(c) && c.server == self.server,
            },
    {
        match self.validate() {
            Ok(()) => {},
            Err(e) => {
                return Err(ConfigError::Invalid(e));
            },
        }
        let mut c = self;
        match c.server.resolve_password(env_value) {
            Ok(()) => Ok(c),
            Err(e) => Err(ConfigError::Invalid(e)),
        }
    }

    /// The idle timeout of a plugin: `idle_cycles` of its refresh periods,
    /// as the period in seconds and the count.
    pub fn idle_timeout_for(&self, plugin: &str) -> (r: (Num, u32))
        ensures
            r == (self.refresh_seconds(plugin@), self.collect.idle_cycles),
    {
        (self.refresh_for(plugin), self.collect.idle_cycles)
    }

    /// The hysteresis window of a plugin in seconds: its own
    /// `min_duration_seconds`, else the global one.
    pub fn effective_min_duration(&self, id: PluginId) -> (r: Num)
        ensures
            r == match self.plugin(crate::plugins::plugin_name(id)) {
                Some(p) => match p.min_duration_seconds {
                    Some(m) => m,
                    None => self.alerts.min_duration_seconds,
                },
                None => self.alerts.min_duration_seconds,
            },
    {
        match self.plugins.get(id.as_str()) {
            Some(p) => match p.min_duration_seconds {
                Some(m) => m,
                None => self.alerts.min_duration_seconds,
            },
            None => self.alerts.min_duration_seconds,
        }
    }
}

/// The command-line arguments.
#[derive(Debug, PartialEq)]
pub struct CliArgs {
    /// The configuration file given with `-c`/`--config`.
    pub config: Option<String>,
    pub help: bool,
    pub version: bool,
}

impl Default for CliArgs {
    fn default() -> (a: Self)
        ensures
            a.config is None,
            !a.help,
            !a.version,
    {
        CliArgs { config: None, help: false, version: false }
    }
}

/// What the arguments set: the configuration path, `help`, `version`.
pub type CliView = (Option<Seq<char>>, bool, bool);

/// The arguments `rest` read after `acc`: `-c PATH`/`--config PATH` and
/// `--config=PATH` set the path (the last one wins), `-h`/`--help` and
/// `-V`/`--version` set their flag; a `--config` without a path, or any
/// other argument, is an error with its message.
pub open spec fn cli_read(acc: CliView, rest: Seq<Seq<char>>) -> Result<CliView, Seq<char>>
    decreases rest.len(),
{
    if rest.len() == 0 {
        Ok(acc)
    } else {
        let a = rest[0];
        if a == "-c"@ || a == "--config"@ {
            if rest.len() < 2 {
                Err("--config requires a path"@)
            } else {
                cli_read((Some(rest[1]), acc.1, acc.2), rest.skip(2))
            }
        } else if a.len() >= 9 && a.take(9) == "--config="@ {
            cli_read((Some(a.skip(9)), acc.1, acc.2), rest.drop_first())
        } else if a == "-h"@ || a == "--help"@ {
            cli_read((acc.0, true, acc.2), rest.drop_first())
        } else if a == "-V"@ || a == "--version"@ {
            cli_read((acc.0, acc.1, true), rest.drop_first())
        } else {
            Err("unknown argument: "@ + a + " (try --help)"@)
        }
    }
}

/// `-c` or `--config`, which take the next argument as the path.
pub open spec fn is_config_flag(a: Seq<char>) -> bool {
    a == "-c"@ || a == "--config"@
}

/// `--config=PATH`.
pub open spec fn is_config_eq(a: Seq<char>) -> bool {
    a.len() >= 9 && a.take(9) == "--config="@
}

/// `-h` or `--help`.
pub open spec fn is_help_flag(a: Seq<char>) -> bool {
    a == "-h"@ || a == "--help"@
}

/// `-V` or `--version`.
pub open spec fn is_version_flag(a: Seq<char>) -> bool {
    a == "-V"@ || a == "--version"@
}

/// The positions, from `from` on, at which the arguments `args` start an
/// option when read left to right (the path after `-c`/`--config` starts
/// none).
pub open spec fn option_starts(args: Seq<Seq<char>>, from: int) -> Seq<int>
    decreases args.len() + 1 - from,
{
    if from < 0 || from >= args.len() {
        seq![]
    } else if is_config_flag(args[from]) {
        seq![from] + option_starts(args, from + 2)
    } else {
        seq![from] + option_starts(args, from + 1)
    }
}

/// Whether the option at `k` is refused: it is none of the known options,
/// or it is `-c`/`--config` with no argument after it.
pub open spec fn option_refused(args: Seq<Seq<char>>, k: int) -> bool {
    let a = args[k];
    (!is_config_flag(a) && !is_config_eq(a) && !is_help_flag(a) && !is_version_flag(a)) || (is_config_flag(a) && k + 1
        >= args.len())
}

/// Whether the option at `k` names the configuration file.
pub open spec fn sets_config(args: Seq<Seq<char>>, k: int) -> bool {
    is_config_flag(args[k]) || is_config_eq(args[k])
}

/// The path the configuration option at `k` names.
pub open spec fn config_path_at(args: Seq<Seq<char>>, k: int) -> Seq<char> {
    if is_config_flag(args[k]) {
        args[k + 1]
    } else {
        args[k].skip(9)
    }
}

proof fn lemma_options_distinct(a: Seq<char>)
    ensures
        is_help_flag(a) ==> !is_config_flag(a) && !is_config_eq(a) && !is_version_flag(a),
        is_version_flag(a) ==> !is_config_flag(a) && !is_config_eq(a),
        is_config_flag(a) ==> !is_config_eq(a),
{
    reveal_strlit("-c");
    reveal_strlit("--config");
    reveal_strlit("-h");
    reveal_strlit("--help");
    reveal_strlit("-V");
    reveal_strlit("--version");
    reveal_strlit("--config=");
    if a == "--version"@ {
        assert(a.take(9)[2] != "--config="@[2]);
    }
    if a == "-h"@ {
        assert(a[1] != "-V"@[1]);
    }
    if a == "--help"@ {
        assert(a.len() != "-V"@.len());
        assert(a[2] != "--version"@[2]);
    }
    if a == "-V"@ {
        assert(a[1] != "-c"@[1]);
    }
    if a == "--version"@ {
        assert(a.len() != "-c"@.len() && a.len() != "--config"@.len());
    }
}

proof fn lemma_option_starts(args: Seq<Seq<char>>, from: int)
    requires
        0 <= from,
    ensures
        ({
            let st = option_starts(args, from);
            &&& forall|j: int| 0 <= j < st.len() ==> from <= #[trigger] st[j] < args.len()
            &&& forall|j: int, j2: int| 0 <= j < j2 < st.len() ==> #[trigger] st[j] < #[trigger] st[j2]
        }),
    decreases args.len() + 1 - from,
{
    if from < args.len() {
        let next = if is_config_flag(args[from]) {
            from + 2
        } else {
            from + 1
        };
        lemma_option_starts(args, next);
        let st = option_starts(args, from);
        let st2 = option_starts(args, next);
        assert(st == seq![from] + st2);
        assert forall|j: int| 0 < j < st.len() implies #[trigger] st[j] == st2[j - 1] by {}
        assert forall|j: int, j2: int| 0 <= j < j2 < st.len() implies #[trigger] st[j] < #[trigger] st[j2] by {
            if j > 0 {
                assert(st2[j - 1] < st2[j2 - 1]);
            } else {
                assert(st2[j2 - 1] >= next);
            }
        }
    }
}

/// Where the option after the one at `from` starts.
pub open spec fn next_start(args: Seq<Seq<char>>, from: int) -> int {
    if is_config_flag(args[from]) {
        from + 2
    } else {
        from + 1
    }
}

/// What the accepted option at `from` sets.
pub open spec fn step_acc(acc: CliView, args: Seq<Seq<char>>, from: int) -> CliView {
    if sets_config(args, from) {
        (Some(config_path_at(args, from)), acc.1, acc.2)
    } else if is_help_flag(args[from]) {
        (acc.0, true, acc.2)
    } else {
        (acc.0, acc.1, true)
    }
}

proof fn lemma_cli_head(acc: CliView, args: Seq<Seq<char>>, from: int)
    requires
        0 <= from < args.len(),
    ensures
        option_starts(args, from) == seq![from] + option_starts(args, next_start(args, from)),
        option_refused(args, from) ==> cli_read(acc, args.skip(from)) is Err,
        !option_refused(args, from) ==> next_start(args, from) <= args.len() && cli_read(acc, args.skip(from))
            == cli_read(step_acc(acc, args, from), args.skip(next_start(args, from))),
{
    let rest = args.skip(from);
    let a = args[from];
    assert(rest[0] == a);
    lemma_options_distinct(a);
    if is_config_flag(a) {
        if from + 1 < args.len() {
            assert(rest.skip(2) =~= args.skip(from + 2));
            assert(rest[1] == args[from + 1]);
        }
    } else {
        assert(rest.drop_first() =~= args.skip(from + 1));
    }
}

proof fn lemma_cli_refused(acc: CliView, args: Seq<Seq<char>>, from: int)
    requires
        0 <= from <= args.len(),
    ensures
        ({
            let st = option_starts(args, from);
            cli_read(acc, args.skip(from)) is Err <==> exists|j: int| 0 <= j < st.len() && #[trigger] option_refused(args, st[j])
        }),
    decreases args.len() + 1 - from,
{
    if from < args.len() {
        lemma_cli_head(acc, args, from);
        let st = option_starts(args, from);
        assert(st[0] == from);
        if !option_refused(args, from) {
            let next = next_start(args, from);
            lemma_cli_refused(step_acc(acc, args, from), args, next);
            let st2 = option_starts(args, next);
            assert forall|j: int| 0 < j < st.len() implies #[trigger] st[j] == st2[j - 1] by {}
            if exists|j: int| 0 <= j < st2.len() && #[trigger] option_refused(args, st2[j]) {
                let j = choose|j: int| 0 <= j < st2.len() && #[trigger] option_refused(args, st2[j]);
                assert(st[j + 1] == st2[j]);
            }
            if exists|j: int| 0 <= j < st.len() && #[trigger] option_refused(args, st[j]) {
                let j = choose|j: int| 0 <= j < st.len() && #[trigger] option_refused(args, st[j]);
                assert(option_refused(args, st2[j - 1]));
            }
        }
    } else {
        assert(args.skip(from) =~= Seq::<Seq<char>>::empty());
    }
}

proof fn lemma_cli_flags(acc: CliView, args: Seq<Seq<char>>, from: int)
    requires
        0 <= from <= args.len(),
    ensures
        ({
            let st = option_starts(args, from);
            cli_read(acc, args.skip(from)) matches Ok(v) ==> {
                &&& v.1 == (acc.1 || exists|j: int| 0 <= j < st.len() && #[trigger] is_help_flag(args[st[j]]))
                &&& v.2 == (acc.2 || exists|j: int| 0 <= j < st.len() && #[trigger] is_version_flag(args[st[j]]))
            }
        }),
    decreases args.len() + 1 - from,
{
    if from < args.len() {
        lemma_cli_head(acc, args, from);
        lemma_options_distinct(args[from]);
        let st = option_starts(args, from);
        assert(st[0] == from);
        if !option_refused(args, from) {
            let next = next_start(args, from);
            lemma_cli_flags(step_acc(acc, args, from), args, next);
            let st2 = option_starts(args, next);
            assert forall|j: int| 0 < j < st.len() implies #[trigger] st[j] == st2[j - 1] by {}
            if exists|j: int| 0 <= j < st2.len() && #[trigger] is_help_flag(args[st2[j]]) {
                let j = choose|j: int| 0 <= j < st2.len() && #[trigger] is_help_flag(args[st2[j]]);
                assert(st[j + 1] == st2[j]);
                assert(is_help_flag(args[st[j + 1]]));
            }
            if exists|j: int| 0 <= j < st.len() && #[trigger] is_help_flag(args[st[j]]) {
                let j = choose|j: int| 0 <= j < st.len() && #[trigger] is_help_flag(args[st[j]]);
                if j > 0 {
                    assert(is_help_flag(args[st2[j - 1]]));
                }
            }
            if exists|j: int| 0 <= j < st2.len() && #[trigger] is_version_flag(args[st2[j]]) {
                let j = choose|j: int| 0 <= j < st2.len() && #[trigger] is_version_flag(args[st2[j]]);
                assert(st[j + 1] == st2[j]);
                assert(is_version_flag(args[st[j + 1]]));
            }
            if exists|j: int| 0 <= j < st.len() && #[trigger] is_version_flag(args[st[j]]) {
                let j = choose|j: int| 0 <= j < st.len() && #[trigger] is_version_flag(args[st[j]]);
                if j > 0 {
                    assert(is_version_flag(args[st2[j - 1]]));
                }
            }
        }
    } else {
        assert(args.skip(from) =~= Seq::<Seq<char>>::empty());
    }
}

proof fn lemma_cli_no_config(acc: CliView, args: Seq<Seq<char>>, from: int)
    requires
        0 <= from <= args.len(),
        forall|j: int| 0 <= j < option_starts(args, from).len() ==> !#[trigger] sets_config(args, option_starts(args, from)[j]),
    ensures
        cli_read(acc, args.skip(from)) matches Ok(v) ==> v.0 == acc.0,
    decreases args.len() + 1 - from,
{
    if from < args.len() {
        lemma_cli_head(acc, args, from);
        let st = option_starts(args, from);
        assert(!sets_config(args, st[0]));
        if !option_refused(args, from) {
            let next = next_start(args, from);
            let st2 = option_starts(args, next);
            assert forall|j: int| 0 <= j < st2.len() implies !#[trigger] sets_config(args, st2[j]) by {
                assert(st[j + 1] == st2[j]);
                assert(!sets_config(args, st[j + 1]));
            }
            lemma_cli_no_config(step_acc(acc, args, from), args, next);
        }
    } else {
        assert(args.skip(from) =~= Seq::<Seq<char>>::empty());
    }
}

#[verifier::rlimit(40)]
proof fn lemma_cli_last_config(acc: CliView, args: Seq<Seq<char>>, from: int, j: int)
    requires
        0 <= from <= args.len(),
        0 <= j < option_starts(args, from).len(),
        sets_config(args, option_starts(args, from)[j]),
        forall|j2: int| j < j2 < option_starts(args, from).len() ==> !#[trigger] sets_config(args, option_starts(args, from)[j2]),
    ensures
        cli_read(acc, args.skip(from)) matches Ok(v) ==> v.0 == Some(config_path_at(args, option_starts(args, from)[j])),
    decreases args.len() + 1 - from,
{
    lemma_cli_head(acc, args, from);
    let st = option_starts(args, from);
    if !option_refused(args, from) {
        let next = next_start(args, from);
        let acc2 = step_acc(acc, args, from);
        let st2 = option_starts(args, next);
        if j == 0 {
            assert(st[0] == from);
            assert forall|k: int| 0 <= k < st2.len() implies !#[trigger] sets_config(args, st2[k]) by {
                assert(st[k + 1] == st2[k]);
                assert(!sets_config(args, st[k + 1]));
            }
            lemma_cli_no_config(acc2, args, next);
        } else {
            assert(st2[j - 1] == st[j]);
            assert forall|j2: int| j - 1 < j2 < st2.len() implies !#[trigger] sets_config(args, st2[j2]) by {
                assert(st[j2 + 1] == st2[j2]);
                assert(!sets_config(args, st[j2 + 1]));
            }
            lemma_cli_last_config(acc2, args, next, j - 1);
        }
    }
}

/// What `parse_args` accepts, read left to right (the argument after
/// `-c`/`--config` being its path): it fails exactly when one option is
/// none of `-c PATH`, `--config PATH`, `--config=PATH`, `-h`, `--help`,
/// `-V`, `--version`, or is `-c`/`--config` with nothing after it;
/// otherwise `help` and `version` say whether their option occurs, and the
/// configuration path is that of the last configuration option (none
/// without one).
pub proof fn parse_args_reads_options(args: Seq<Seq<char>>)
    ensures
        ({
            let st = option_starts(args, 0);
            let r = cli_read((None, false, false), args);
            &&& forall|j: int| 0 <= j < st.len() ==> 0 <= #[trigger] st[j] < args.len()
            &&& forall|j: int, j2: int| 0 <= j < j2 < st.len() ==> #[trigger] st[j] < #[trigger] st[j2]
            &&& (r is Err <==> exists|j: int| 0 <= j < st.len() && #[trigger] option_refused(args, st[j]))
            &&& r matches Ok(v) ==> {
                &&& v.1 == exists|j: int| 0 <= j < st.len() && #[trigger] is_help_flag(args[st[j]])
                &&& v.2 == exists|j: int| 0 <= j < st.len() && #[trigger] is_version_flag(args[st[j]])
                &&& (forall|j: int| 0 <= j < st.len() ==> !#[trigger] sets_config(args, st[j])) ==> v.0 is None
                &&& forall|j: int|
                    0 <= j < st.len() && #[trigger] sets_config(args, st[j]) && (forall|j2: int|
                        j < j2 < st.len() ==> !#[trigger] sets_config(args, st[j2])) ==> v.0 == Some(
                        config_path_at(args, st[j]),
                    )
            }
        }),
{
    assert(args.skip(0) =~= args);
    lemma_option_starts(args, 0);
    lemma_cli_refused((None, false, false), args, 0);
    lemma_cli_flags((None, false, false), args, 0);
    let st = option_starts(args, 0);
    if forall|j: int| 0 <= j < st.len() ==> !#[trigger] sets_config(args, st[j]) {
        lemma_cli_no_config((None, false, false), args, 0);
    }
    assert forall|j: int|
        0 <= j < st.len() && #[trigger] sets_config(args, st[j]) && (forall|j2: int|
            j < j2 < st.len() ==> !#[trigger] sets_config(args, st[j2])) implies (cli_read((None, false, false), args) matches Ok(v)
        ==> v.0 == Some(config_path_at(args, st[j]))) by {
        lemma_cli_last_config((None, false, false), args, 0, j);
    }
}

pub open spec fn cli_view(a: CliArgs) -> CliView {
    (opt_string(a.config), a.help, a.version)
}

/// Parses the command-line arguments (without the program name).
pub fn parse_args(args: Vec<String>) -> (r: Result<CliArgs, String>)
    ensures
        match cli_read((None, false, false), texts(args@)) {
            Ok(v) => r matches Ok(a) && cli_view(a) == v,
            Err(m) => r matches Err(e) && e@ == m,
        },
{
    let ghost all = texts(args@);
    let mut out = CliArgs::default();
    let mut i: usize = 0;
    let prefix = chars_of("--config=");
    proof {
        reveal_strlit("--config=");
    }
    assert(all.skip(0) =~= all);
    while i < args.len()
        invariant
            0 <= i <= args@.len(),
            all == texts(args@),
            prefix@ == "--config="@,
            prefix@.len() == 9,
            cli_read((None, false, false), all) == cli_read(cli_view(out), all.skip(i as int)),
        decreases args@.len() - i,
    {
        let ghost rest = all.skip(i as int);
        let arg = &args[i];
        assert(rest[0] == arg@);
        if str_eq(arg.as_str(), "-c") || str_eq(arg.as_str(), "--config") {
            if i + 1 >= args.len() {
                return Err("--config requires a path".to_owned());
            }
            assert(rest[1] == args@[i + 1]@);
            assert(rest.skip(2) =~= all.skip(i + 2));
            out.config = Some(args[i + 1].clone());
            i = i + 2;
        } else {
            let cs = chars_of(arg.as_str());
            assert(rest.drop_first() =~= all.skip(i + 1));
            if starts_with_in(&cs, 0, cs.len(), &prefix) {
                assert(cs@.subrange(0, 9) =~= cs@.take(9));
                let path = string_of(&cs, 9, cs.len());
                assert(path@ =~= arg@.skip(9));
                out.config = Some(path);
            } else if str_eq(arg.as_str(), "-h") || str_eq(arg.as_str(), "--help") {
                assert(!(arg@.len() >= 9 && arg@.take(9) == "--config="@)) by {
                    if arg@.len() >= 9 && arg@.take(9) == "--config="@ {
                        assert(cs@.subrange(0, 9) =~= cs@.take(9));
                    }
                }
                out.help = true;
            } else if str_eq(arg.as_str(), "-V") || str_eq(arg.as_str(), "--version") {
                assert(!(arg@.len() >= 9 && arg@.take(9) == "--config="@)) by {
                    if arg@.len() >= 9 && arg@.take(9) == "--config="@ {
                        assert(cs@.subrange(0, 9) =~= cs@.take(9));
                    }
                }
                out.version = true;
            } else {
                assert(!(arg@.len() >= 9 && arg@.take(9) == "--config="@)) by {
                    if arg@.len() >= 9 && arg@.take(9) == "--config="@ {
                        assert(cs@.subrange(0, 9) =~= cs@.take(9));
                    }
                }
                let mut m = "unknown argument: ".to_owned();
                push_str(&mut m, arg.as_str());
                push_str(&mut m, " (try --help)");
                return Err(m);
            }
            i = i + 1;
        }
    }
    assert(all.skip(i as int) =~= Seq::<Seq<char>>::empty());
    Ok(out)
}

/// A path under a directory: `rel` appended with one `/` between them.
pub open spec fn joined(dir: Seq<char>, rel: Seq<char>) -> Seq<char> {
    if dir.len() > 0 && dir.last() == '/' {
        dir + rel
    } else {
        dir + seq!['/'] + rel
    }
}

pub fn join_path(dir: &str, rel: &str) -> (r: String)
    ensures
        r@ == joined(dir@, rel@),
{
    let mut r = dir.to_owned();
    let cs = chars_of(dir);
    if !(cs.len() > 0 && cs[cs.len() - 1] == '/') {
        push_str(&mut r, "/");
        proof {
            reveal_strlit("/");
        }
    }
    push_str(&mut r, rel);
    r
}

/// The user's configuration directory: `$XDG_CONFIG_HOME`, else
/// `$HOME/.config`.
pub open spec fn config_dir(xdg: Option<Seq<char>>, home: Option<Seq<char>>) -> Option<Seq<char>> {
    match xdg {
        Some(x) => Some(x),
        None => match home {
            Some(h) => Some(joined(h, ".config"@)),
            None => None,
        },
    }
}

/// The implicit configuration locations, in the order they are tried:
/// `glances-rs.toml` in the working directory, then `glances-rs/config.toml`
/// under the user's configuration directory, then (on Unix)
/// `/etc/glances-rs/config.toml`.
pub open spec fn candidates(xdg: Option<Seq<char>>, home: Option<Seq<char>>, unix: bool) -> Seq<Seq<char>> {
    let first = seq!["glances-rs.toml"@];
    let user = match config_dir(xdg, home) {
        Some(d) => first.push(joined(d, "glances-rs/config.toml"@)),
        None => first,
    };
    if unix {
        user.push("/etc/glances-rs/config.toml"@)
    } else {
        user
    }
}

pub fn config_candidates(xdg: Option<&str>, home: Option<&str>, unix: bool) -> (r: Vec<String>)
    ensures
        texts(r@) == candidates(opt_text(xdg), opt_text(home), unix),
{
    let mut r: Vec<String> = Vec::new();
    r.push("glances-rs.toml".to_owned());
    let dir = match xdg {
        Some(x) => Some(x.to_owned()),
        None => match home {
            Some(h) => Some(join_path(h, ".config")),
            None => None,
        },
    };
    match dir {
        Some(d) => {
            r.push(join_path(d.as_str(), "glances-rs/config.toml"));
        },
        None => {},
    }
    if unix {
        r.push("/etc/glances-rs/config.toml".to_owned());
    }
    assert(texts(r@) =~= candidates(opt_text(xdg), opt_text(home), unix));
    r
}

/// Where the configuration comes from, the first match winning: the path
/// given on the command line, else the one in `GLANCES_RS_CONFIG` (an
/// explicit path that is not a file is an error, never a silent
/// fallback), else the first of the implicit locations that is a file;
/// `None` means the built-in defaults. Each path comes with whether it is
/// an existing file.
pub fn choose_config_path(
    cli: Option<(String, bool)>,
    env: Option<(String, bool)>,
    candidates: Vec<(String, bool)>,
) -> (r: Result<Option<String>, ConfigError>)
    ensures
        match cli {
            Some((p, exists)) => if exists {
                r matches Ok(Some(q)) && q == p
            } else {
                r matches Err(ConfigError::ExplicitPathMissing(q)) && q == p
            },
            None => match env {
                Some((p, exists)) => if exists {
                    r matches Ok(Some(q)) && q == p
                } else {
                    r matches Err(ConfigError::ExplicitPathMissing(q)) && q == p
                },
                None => match r {
                    Ok(Some(q)) => exists|i: int|
                        0 <= i < candidates@.len() && candidates@[i].1 && candidates@[i].0 == q && forall|j: int|
                            0 <= j < i ==> !(#[trigger] candidates@[j]).1,
                    Ok(None) => forall|j: int| 0 <= j < candidates@.len() ==> !(#[trigger] candidates@[j]).1,
                    Err(_) => false,
                },
            },
        },
{
    match &cli {
        Some((p, exists)) => {
            return if *exists {
                Ok(Some(p.clone()))
            } else {
                Err(ConfigError::ExplicitPathMissing(p.clone()))
            };
        },
        None => {},
    }
    match &env {
        Some((p, exists)) => {
            return if *exists {
                Ok(Some(p.clone()))
            } else {
                Err(ConfigError::ExplicitPathMissing(p.clone()))
            };
        },
        None => {},
    }
    let ghost c = candidates@;
    let mut i: usize = 0;
    while i < candidates.len()
        invariant
            0 <= i <= c.len(),
            c == candidates@,
            cli is None,
            env is None,
            forall|j: int| 0 <= j < i ==> !(#[trigger] c[j]).1,
        decreases c.len() - i,
    {
        if candidates[i].1 {
            return Ok(Some(candidates[i].0.clone()));
        }
        i = i + 1;
    }
    Ok(None)
}

} // verus!
