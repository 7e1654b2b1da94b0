use glances_rs::alerts::{
    alert_fields, compute_level, iso8601_utc, reconcile, resolve, AlertState, Alerts, Direction, Effective,
    FieldSample, ItemSample, Level, Levels, Sample,
};
use glances_rs::config::{Config, PluginConfig, Thresholds};
use glances_rs::namemap::NameMap;
use glances_rs::num::Num;
use glances_rs::plugins::PluginId;

fn n(x: f64) -> Num {
    Num::from_bits(x.to_bits())
}

fn limits(careful: Option<f64>, warning: Option<f64>, critical: Option<f64>) -> Thresholds {
    Thresholds { careful: careful.map(n), warning: warning.map(n), critical: critical.map(n) }
}

/// A configuration with global thresholds for one field of one plugin.
fn with_thresholds(plugin: &str, field: &str, t: Thresholds) -> Config {
    let mut config = Config::default();
    let mut pc = PluginConfig::default();
    pc.thresholds.insert(field.to_string(), t);
    config.plugins.insert(plugin.to_string(), pc);
    config
}

fn scalar(values: &[Option<f64>]) -> Sample {
    Sample::Scalar(values.iter().map(|v| FieldSample { raw: v.map(n), divisor: None, ratio: None }).collect())
}

fn item(key: &str, percent: f64) -> ItemSample {
    ItemSample { key: Some(key.to_string()), fields: vec![FieldSample { raw: Some(n(percent)), divisor: None, ratio: None }] }
}

const MS: u64 = 1_000_000;
const SEC: u64 = 1_000_000_000;

#[test]
fn observe_writes_scalar_levels_and_no_event_until_min_duration() {
    let mut config = with_thresholds("mem", "percent", limits(None, Some(70.0), Some(90.0)));
    config.alerts.min_duration_seconds = n(0.05);
    let mut alerts = Alerts::new("host1".to_string());
    let levels = alerts.observe(&config, PluginId::Mem, &scalar(&[Some(95.0)]), SEC, 0, 50 * MS, 2 * SEC);
    // _levels is rewritten raw, immediately.
    match levels {
        Some(Levels::Scalar(l)) => {
            assert_eq!(l.len(), 1);
            assert_eq!(l[0].field, "percent");
            assert_eq!(l[0].level.as_str(), "critical");
            assert!(l[0].prominent);
        },
        _ => panic!("scalar levels expected"),
    }
    // but no event yet (min_duration not elapsed).
    assert!(alerts.history().is_empty());
}

#[test]
fn observe_skips_unconfigured_and_non_alertable_fields() {
    let config = Config::default();
    let mut alerts = Alerts::new("host1".to_string());
    let levels = alerts.observe(&config, PluginId::Mem, &scalar(&[Some(95.0)]), SEC, 0, 5 * SEC, 2 * SEC);
    match levels {
        Some(Levels::Scalar(l)) => assert!(l.is_empty()),
        _ => panic!("scalar levels expected"),
    }
    assert!(alerts.history().is_empty());
}

#[test]
fn observe_collection_keys_levels_by_primary_key() {
    let mut config = with_thresholds("fs", "percent", limits(None, None, Some(90.0)));
    config.alerts.min_duration_seconds = n(0.0);
    let mut alerts = Alerts::new("h".to_string());
    let sample = Sample::Collection(vec![item("/", 95.0), item("/home", 10.0)]);
    let levels = alerts.observe(&config, PluginId::Fs, &sample, SEC, 0, 0, 2 * SEC);
    match levels {
        Some(Levels::Collection(items)) => {
            assert_eq!(items.len(), 2);
            assert_eq!(items[0].key, "/");
            assert_eq!(items[0].fields[0].field, "percent");
            assert_eq!(items[0].fields[0].level, Level::Critical);
            assert_eq!(items[1].key, "/home");
            assert_eq!(items[1].fields[0].level.as_str(), "ok");
        },
        _ => panic!("collection levels expected"),
    }
    // min_duration 0 -> the "/" breach commits an event immediately.
    assert!(alerts.history().iter().any(|e| e.plugin.as_str() == "fs"
        && e.key.as_deref() == Some("/")
        && e.level.as_str() == "critical"));
}

#[test]
fn observe_normalize_by_skips_when_divisor_zero() {
    let config = with_thresholds("network", "bytes_recv", limits(None, Some(0.8), None));
    let mut alerts = Alerts::new("h".to_string());
    // capacity 0 (unknown link speed) -> no level entry for bytes_recv.
    let eth0 = ItemSample {
        key: Some("eth0".to_string()),
        fields: vec![
            FieldSample { raw: Some(n(9999.0)), divisor: Some(n(0.0)), ratio: Some(n(9999.0 / 0.0)) },
            FieldSample { raw: None, divisor: Some(n(0.0)), ratio: None },
        ],
    };
    let levels = alerts.observe(&config, PluginId::Network, &Sample::Collection(vec![eth0]), SEC, 0, 5 * SEC, 2 * SEC);
    match levels {
        Some(Levels::Collection(items)) => assert!(items.is_empty()),
        _ => panic!("collection levels expected"),
    }
}

#[test]
fn observe_prunes_state_for_disappeared_items() {
    let mut config = with_thresholds("fs", "percent", limits(None, None, Some(90.0)));
    config.alerts.min_duration_seconds = n(0.0);
    let mut alerts = Alerts::new("h".to_string());
    alerts.observe(&config, PluginId::Fs, &Sample::Collection(vec![item("/usb", 95.0)]), SEC, 0, 0, 2 * SEC);
    assert_eq!(alerts.state_len(), 1);
    // next cycle /usb is gone -> its hysteresis state is pruned.
    alerts.observe(&config, PluginId::Fs, &Sample::Collection(vec![]), 2 * SEC, 0, 0, 2 * SEC);
    assert_eq!(alerts.state_len(), 0);
}

#[test]
fn idle_gap_reset_prevents_stale_commit() {
    // refresh = 1ms -> idle-gap threshold (2 * refresh) = 2ms; min_duration = 5ms.
    let mut config = with_thresholds("mem", "percent", limits(None, None, Some(0.0)));
    config.collect.refresh = n(0.001);
    config.alerts.min_duration_seconds = n(0.005);
    let mut alerts = Alerts::new("host1".to_string());
    // Cycle 1: breaching payload starts a pending window; no event yet.
    alerts.observe(&config, PluginId::Mem, &scalar(&[Some(95.0)]), SEC, 0, 5 * MS, MS);
    assert!(alerts.history().is_empty());
    // Cycle 2, 30ms later: the gap (> 2ms) resets the pending window, so
    // the level does not commit although 30ms exceed the 5ms window.
    alerts.observe(&config, PluginId::Mem, &scalar(&[Some(95.0)]), SEC + 30 * MS, 0, 5 * MS, MS);
    assert!(alerts.history().is_empty());
}

#[test]
fn history_ring_evicts_oldest() {
    let mut config = with_thresholds("mem", "percent", limits(None, Some(50.0), Some(90.0)));
    config.alerts.history_size = 2;
    config.alerts.min_duration_seconds = n(0.0);
    let mut alerts = Alerts::new("host1".to_string());
    // Four distinct committed transitions: critical -> ok -> critical -> ok.
    let mut now = SEC;
    for percent in [95.0, 10.0, 95.0, 10.0] {
        alerts.observe(&config, PluginId::Mem, &scalar(&[Some(percent)]), now, 0, 0, SEC);
        now += SEC;
    }
    let h = alerts.history();
    // Ring bounded to history_size even though 4 events were appended.
    assert_eq!(h.len(), 2);
    // Retained events are the two most recent, most-recent-last.
    assert_eq!(h.front().unwrap().level.as_str(), "critical");
    assert_eq!(h.back().unwrap().level.as_str(), "ok");
}

fn eff(c: f64, w: f64, cr: f64) -> Effective {
    Effective { careful: Some(n(c)), warning: Some(n(w)), critical: Some(n(cr)) }
}

#[test]
fn high_direction_ladder() {
    let t = eff(50.0, 70.0, 90.0);
    assert_eq!(compute_level(n(45.0), &t, Direction::High), Level::OK);
    assert_eq!(compute_level(n(60.0), &t, Direction::High), Level::Careful);
    assert_eq!(compute_level(n(75.0), &t, Direction::High), Level::Warning);
    assert_eq!(compute_level(n(95.0), &t, Direction::High), Level::Critical);
    // boundary is inclusive (>=)
    assert_eq!(compute_level(n(90.0), &t, Direction::High), Level::Critical);
}

#[test]
fn low_direction_ladder() {
    // free-space style: careful=20, warning=10, critical=5 (low = worse)
    let t = eff(20.0, 10.0, 5.0);
    assert_eq!(compute_level(n(25.0), &t, Direction::Low), Level::OK);
    assert_eq!(compute_level(n(15.0), &t, Direction::Low), Level::Careful);
    assert_eq!(compute_level(n(8.0), &t, Direction::Low), Level::Warning);
    assert_eq!(compute_level(n(3.0), &t, Direction::Low), Level::Critical);
}

#[test]
fn partial_subset_only_uses_present_limits() {
    let t = Effective { careful: None, warning: Some(n(80.0)), critical: Some(n(90.0)) };
    assert_eq!(compute_level(n(85.0), &t, Direction::High), Level::Warning);
    assert_eq!(compute_level(n(50.0), &t, Direction::High), Level::OK);
}

#[test]
fn resolve_merges_item_over_global_per_limit() {
    let mut config = Config::default();
    let mut pc = PluginConfig::default();
    pc.thresholds.insert("percent".to_string(), limits(Some(70.0), Some(80.0), None));
    let mut root = NameMap::new();
    root.insert("percent".to_string(), limits(None, None, Some(95.0)));
    pc.thresholds_by_item.insert("/".to_string(), root);
    config.plugins.insert("fs".to_string(), pc);
    // item "/" inherits careful+warning from global, adds critical.
    let e = resolve(&config, PluginId::Fs, Some("/"), "percent").unwrap();
    assert_eq!(e.careful, Some(n(70.0)));
    assert_eq!(e.warning, Some(n(80.0)));
    assert_eq!(e.critical, Some(n(95.0)));
    // item "/home" (no override) sees global only, critical unset.
    let e2 = resolve(&config, PluginId::Fs, Some("/home"), "percent").unwrap();
    assert_eq!(e2.critical, None);
    // unconfigured field -> None (no _levels entry).
    assert!(resolve(&config, PluginId::Fs, Some("/"), "size").is_none());
}

#[test]
fn alert_fields_match_emitted_payload_fields() {
    let mem = alert_fields(PluginId::Mem);
    assert_eq!(mem.len(), 1);
    assert_eq!(mem[0].field, "percent");
    assert!(mem[0].prominent);

    let fs = alert_fields(PluginId::Fs);
    assert_eq!(fs[0].field, "percent");
    assert!(!fs[0].prominent);

    let net = alert_fields(PluginId::Network);
    assert!(net.iter().all(|f| f.normalize_by == Some("bytes_speed_rate_per_sec")));
    assert!(net.iter().any(|f| f.field == "bytes_recv"));

    // scalar/no-numeric plugins have no alertable fields.
    assert!(alert_fields(PluginId::System).is_empty());
    assert!(alert_fields(PluginId::Uptime).is_empty());
}

#[test]
fn reconcile_debounces_then_commits() {
    let md = 50 * MS;
    let mut s = AlertState::default();
    let t0 = 1_000 * SEC;
    // ok == committed ok: no event, marks has_committed.
    assert!(reconcile(&mut s, Level::OK, t0, md).is_none());
    // first warning: starts pending, no commit yet.
    assert!(reconcile(&mut s, Level::Warning, t0, md).is_none());
    // same warning, before window elapses: still pending.
    assert!(reconcile(&mut s, Level::Warning, t0 + 10 * MS, md).is_none());
    // after window: commit -> transition ok->warning, is_initial=false.
    let tr = reconcile(&mut s, Level::Warning, t0 + 60 * MS, md).unwrap();
    assert_eq!(tr.previous, Level::OK);
    assert_eq!(tr.new, Level::Warning);
    assert!(!tr.is_initial);
    // return to ok commits on the next persisted observation window.
    assert!(reconcile(&mut s, Level::OK, t0 + 60 * MS, md).is_none());
    let back = reconcile(&mut s, Level::OK, t0 + 120 * MS, md).unwrap();
    assert_eq!(back.previous, Level::Warning);
    assert_eq!(back.new, Level::OK);
}

#[test]
fn reconcile_zero_min_duration_commits_immediately() {
    let mut s = AlertState::default();
    let tr = reconcile(&mut s, Level::Critical, 5 * SEC, 0).unwrap();
    assert_eq!(tr.new, Level::Critical);
    assert!(tr.is_initial); // first commit, no prior ok observed
}

#[test]
fn iso8601_formats_known_instants() {
    assert_eq!(iso8601_utc(0), "1970-01-01T00:00:00Z");
    // 2021-01-01T00:00:00Z = 1_609_459_200 s
    assert_eq!(iso8601_utc(1_609_459_200), "2021-01-01T00:00:00Z");
    // 2026-06-14T12:34:56Z = 1_781_440_496 s
    assert_eq!(iso8601_utc(1_781_440_496), "2026-06-14T12:34:56Z");
}

#[test]
fn iso8601_handles_leap_days_and_earlier_instants() {
    // 2024-02-29T23:59:59Z = 1_709_251_199 s
    assert_eq!(iso8601_utc(1_709_251_199), "2024-02-29T23:59:59Z");
    assert_eq!(iso8601_utc(1_709_251_200), "2024-03-01T00:00:00Z");
    // 2000-12-31 (day 366 of a leap century year) = 978_220_800 s
    assert_eq!(iso8601_utc(978_220_800), "2000-12-31T00:00:00Z");
    // an instant before the epoch is stamped as the epoch
    assert_eq!(iso8601_utc(-1), "1970-01-01T00:00:00Z");
    assert_eq!(iso8601_utc(i64::MIN), "1970-01-01T00:00:00Z");
}

#[test]
fn cpucore_normalizes_load_level() {
    // load.min15 threshold on the per-core value.
    let mut config = with_thresholds("load", "min15", limits(Some(1.0), Some(2.0), Some(4.0)));
    config.alerts.min_duration_seconds = n(0.0);
    let mut alerts = Alerts::new("h".to_string());
    // 8.0 / 4 cores = 2.0 -> warning (not critical, which raw 8.0 would be).
    let per_core = |raw: f64| FieldSample { raw: Some(n(raw)), divisor: Some(n(4.0)), ratio: Some(n(raw / 4.0)) };
    let sample = Sample::Scalar(vec![per_core(1.0), per_core(8.0)]);
    let levels = alerts.observe(&config, PluginId::Load, &sample, SEC, 0, 0, 2 * SEC);
    match levels {
        Some(Levels::Scalar(l)) => {
            assert_eq!(l.len(), 1);
            assert_eq!(l[0].field, "min15");
            assert_eq!(l[0].level, Level::Warning);
        },
        _ => panic!("scalar levels expected"),
    }
    let ev = alerts.history().iter().find(|e| e.field == "min15").unwrap();
    assert_eq!(ev.level, Level::Warning);
    assert_eq!(ev.value, n(8.0)); // the event carries the undivided value
}

#[test]
fn load_and_ctx_switches_alert_per_core() {
    let load = alert_fields(PluginId::Load);
    assert!(load.iter().all(|f| f.normalize_by == Some("cpucore")));
    let cpu = alert_fields(PluginId::Cpu);
    let ctx = cpu.iter().find(|f| f.field == "ctx_switches").unwrap();
    assert_eq!(ctx.normalize_by, Some("cpucore"));
    assert!(!ctx.prominent);
    assert!(cpu.iter().find(|f| f.field == "iowait").unwrap().prominent);
    assert!(!cpu.iter().find(|f| f.field == "steal").unwrap().prominent);
}

#[test]
fn collection_levels_only_for_keyed_items_with_a_level() {
    let mut config = with_thresholds("fs", "percent", limits(None, None, Some(90.0)));
    config.alerts.min_duration_seconds = n(0.0);
    let mut alerts = Alerts::new("h".to_string());
    let unkeyed = ItemSample { key: None, fields: vec![FieldSample { raw: Some(n(99.0)), divisor: None, ratio: None }] };
    let no_value = ItemSample { key: Some("/mnt".to_string()), fields: vec![FieldSample { raw: None, divisor: None, ratio: None }] };
    let sample = Sample::Collection(vec![unkeyed, item("/", 95.0), no_value]);
    match alerts.observe(&config, PluginId::Fs, &sample, SEC, 0, 0, 2 * SEC) {
        Some(Levels::Collection(items)) => {
            assert_eq!(items.len(), 1);
            assert_eq!(items[0].key, "/");
            assert_eq!(items[0].fields[0].level, Level::Critical);
        },
        _ => panic!("collection levels expected"),
    }
}
