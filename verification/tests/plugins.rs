use glances_rs::namemap::NameMap;
use glances_rs::plugins::diskio;
use glances_rs::plugins::fs::usage;
use glances_rs::plugins::network::{self, InterfaceFilter};
use glances_rs::plugins::{millis_of, rate_tenths, PluginId};

const SEC: u64 = 1_000_000_000;

fn rate(tenths: u128) -> f64 {
    tenths as f64 / 10.0
}

fn secs(ms: u64) -> f64 {
    ms as f64 / 1000.0
}

#[test]
fn parse_known_names() {
    for id in PluginId::ALL {
        assert_eq!(PluginId::parse(id.as_str()), Some(id));
    }
}

#[test]
fn parse_unknown_names() {
    assert_eq!(PluginId::parse("bogus"), None);
    assert_eq!(PluginId::parse("MEM"), None);
    assert_eq!(PluginId::parse(""), None);
    // "all" is the aggregate route, not a plugin name.
    assert_eq!(PluginId::parse("all"), None);
}

#[test]
fn usage_computes_used_and_percent() {
    let f = |size: u64, free: u64| {
        let (used, tenths) = usage(size, free);
        (used, tenths as f64 / 10.0)
    };
    assert_eq!(f(1000, 250), (750, 75.0));
    assert_eq!(f(0, 0), (0, 0.0));
    assert_eq!(f(100, 200), (0, 0.0));
}

fn disks(pairs: &[(&str, (u64, u64, u64, u64))]) -> NameMap<(u64, u64, u64, u64)> {
    let mut m = NameMap::new();
    for &(name, c) in pairs {
        m.insert(name.to_string(), c);
    }
    m
}

#[test]
fn diskio_nominal_rate() {
    let prev = disks(&[("sda", (100, 200, 4_000, 8_000))]);
    let cur = disks(&[("sda", (110, 230, 6_000, 9_000))]);
    let (items, _) = diskio::step(prev, cur, 2 * SEC, &NameMap::new());
    assert_eq!(items.len(), 1);
    let item = &items[0];
    assert_eq!(item.disk_name, "sda");
    assert_eq!(item.read_count, 10);
    assert_eq!(item.read_count_gauge, 110);
    assert_eq!(rate(item.read_count_rate_tenths), 5.0); // 10 / 2s
    assert_eq!(item.write_count, 30);
    assert_eq!(item.read_bytes, 2_000);
    assert_eq!(rate(item.read_bytes_rate_tenths), 1_000.0);
    assert_eq!(item.write_bytes, 1_000);
    assert_eq!(secs(item.time_since_update_ms), 2.0);
    assert_eq!(item.alias, None);
}

#[test]
fn diskio_counter_rollback_clamps_to_zero() {
    let prev = disks(&[("sda", (5_000, 5_000, 5_000, 5_000))]);
    let cur = disks(&[("sda", (100, 100, 100, 100))]);
    let (items, _) = diskio::step(prev, cur, 2 * SEC, &NameMap::new());
    assert_eq!(items[0].read_count, 0);
    assert_eq!(items[0].write_bytes, 0);
    assert_eq!(rate(items[0].read_bytes_rate_tenths), 0.0);
}

#[test]
fn appearing_disk_is_skipped_for_one_cycle() {
    let prev = disks(&[("sda", (10, 10, 10, 10))]);
    let cur = disks(&[("sda", (20, 20, 20, 20)), ("sdb", (5, 5, 5, 5))]);
    let (items, previous) = diskio::step(prev, cur, SEC, &NameMap::new());
    assert_eq!(items.len(), 1);
    assert_eq!(items[0].disk_name, "sda");
    // ...but it is referenced for the next cycle.
    assert!(previous.contains_key("sdb"));
}

#[test]
fn disappearing_disk_vanishes_from_output_and_state() {
    let prev = disks(&[("sda", (10, 10, 10, 10)), ("sdb", (9, 9, 9, 9))]);
    let cur = disks(&[("sda", (20, 20, 20, 20))]);
    let (items, previous) = diskio::step(prev, cur, SEC, &NameMap::new());
    assert_eq!(items.len(), 1);
    // The anti-leak rule: previous == current sample, no merge.
    assert!(!previous.contains_key("sdb"));
    assert_eq!(previous.len(), 1);
}

#[test]
fn alias_is_injected_and_output_sorted() {
    let prev = disks(&[("sdb", (0, 0, 0, 0)), ("sda", (0, 0, 0, 0))]);
    let cur = disks(&[("sdb", (1, 1, 1, 1)), ("sda", (1, 1, 1, 1))]);
    let mut alias = NameMap::new();
    alias.insert("sda".to_string(), "root-disk".to_string());
    let (items, _) = diskio::step(prev, cur, SEC, &alias);
    let names: Vec<&str> = items.iter().map(|i| i.disk_name.as_str()).collect();
    assert_eq!(names, ["sda", "sdb"]);
    assert_eq!(items[0].alias.as_deref(), Some("root-disk"));
    assert_eq!(items[1].alias, None);
}

#[test]
fn diskio_state_measures_elapsed_between_cycles() {
    let mut state = diskio::DiskioState::default();
    let first = state.advance(disks(&[("sda", (1, 1, 1, 1))]), 10 * SEC, &NameMap::new());
    // nothing to diff on the first cycle.
    assert!(first.is_empty());
    let second = state.advance(disks(&[("sda", (5, 1, 1, 1))]), 12 * SEC, &NameMap::new());
    assert_eq!(second[0].read_count, 4);
    assert_eq!(rate(second[0].read_count_rate_tenths), 2.0);
    assert_eq!(secs(second[0].time_since_update_ms), 2.0);
    assert_eq!(state.last, Some(12 * SEC));
}

fn counters(pairs: &[(&str, u64, u64)]) -> NameMap<(u64, u64)> {
    let mut m = NameMap::new();
    for &(name, rx, tx) in pairs {
        m.insert(name.to_string(), (rx, tx));
    }
    m
}

#[test]
fn network_nominal_rate() {
    let prev = counters(&[("eth0", 1_000, 2_000)]);
    let cur = counters(&[("eth0", 2_000, 2_500)]);
    let (items, _) = network::step(prev, cur, 2 * SEC);
    assert_eq!(items.len(), 1);
    let item = &items[0];
    assert_eq!(item.interface_name, "eth0");
    assert_eq!(item.bytes_recv, 1_000);
    assert_eq!(item.bytes_recv_gauge, 2_000);
    assert_eq!(rate(item.bytes_recv_rate_tenths), 500.0);
    assert_eq!(item.bytes_sent, 500);
    assert_eq!(item.bytes_all, 1_500);
    assert_eq!(rate(item.bytes_all_rate_tenths), 750.0);
    assert_eq!(secs(item.time_since_update_ms), 2.0);
}

#[test]
fn network_counter_rollback_clamps_to_zero() {
    // Reboot or 32-bit wrap: the new counter is lower than the old.
    let prev = counters(&[("eth0", 5_000, 5_000)]);
    let cur = counters(&[("eth0", 100, 200)]);
    let (items, _) = network::step(prev, cur, 2 * SEC);
    assert_eq!(items[0].bytes_recv, 0);
    assert_eq!(items[0].bytes_sent, 0);
    assert_eq!(rate(items[0].bytes_recv_rate_tenths), 0.0);
}

#[test]
fn appearing_interface_is_skipped_for_one_cycle() {
    let prev = counters(&[("eth0", 1_000, 1_000)]);
    let cur = counters(&[("eth0", 1_100, 1_100), ("eth1", 50, 50)]);
    let (items, previous) = network::step(prev, cur, 2 * SEC);
    assert_eq!(items.len(), 1);
    assert_eq!(items[0].interface_name, "eth0");
    // ...but it is referenced for the next cycle.
    assert!(previous.contains_key("eth1"));
}

#[test]
fn disappearing_interface_vanishes_from_output_and_state() {
    let prev = counters(&[("eth0", 1_000, 1_000), ("ppp0", 9_000, 9_000)]);
    let cur = counters(&[("eth0", 1_100, 1_100)]);
    let (items, previous) = network::step(prev, cur, 2 * SEC);
    assert_eq!(items.len(), 1);
    assert_eq!(items[0].interface_name, "eth0");
    // The anti-leak rule: previous == current sample, no merge.
    assert!(!previous.contains_key("ppp0"));
    assert_eq!(previous.len(), 1);
}

#[test]
fn output_is_sorted_by_interface_name() {
    let prev = counters(&[("lo", 0, 0), ("eth0", 0, 0), ("wlan0", 0, 0)]);
    let cur = counters(&[("lo", 1, 1), ("eth0", 1, 1), ("wlan0", 1, 1)]);
    let (items, _) = network::step(prev, cur, SEC);
    let names: Vec<&str> = items.iter().map(|i| i.interface_name.as_str()).collect();
    assert_eq!(names, ["eth0", "lo", "wlan0"]);
}

#[test]
fn filter_show_and_hide() {
    let all = InterfaceFilter::new(&[], &[]);
    assert!(all.shown("lo"));
    assert!(all.shown("eth0"));

    let no_lo = InterfaceFilter::new(&[], &["^lo$".into()]);
    assert!(!no_lo.shown("lo"));
    assert!(no_lo.shown("eth0"));

    // hide wins over show.
    let eth_only = InterfaceFilter::new(&["^eth".into()], &["^eth1$".into()]);
    assert!(eth_only.shown("eth0"));
    assert!(!eth_only.shown("eth1"));
    assert!(!eth_only.shown("wlan0"));
    assert!(!eth_only.shown("lo"));
}

#[test]
fn filter_applies_before_the_rate_step() {
    let f = InterfaceFilter::new(&[], &["^lo$".into()]);
    let sample = f.sample(&counters(&[("lo", 1, 1), ("eth0", 2, 2)]));
    assert_eq!(sample.len(), 1);
    assert!(sample.contains_key("eth0"));
    assert!(!sample.contains_key("lo"));
}

#[test]
fn rate_rounds_half_up_in_tenths() {
    // 1 byte over 3 s = 0.333.. per second -> 3 tenths; 5 over 3 s -> 16.66.. -> 17 tenths.
    assert_eq!(rate_tenths(1, 3 * SEC), 3);
    assert_eq!(rate_tenths(5, 3 * SEC), 17);
    assert_eq!(rate_tenths(1_000, 0), 0);
    assert_eq!(millis_of(1_499_999), 1);
    assert_eq!(millis_of(1_500_000), 2);
}
