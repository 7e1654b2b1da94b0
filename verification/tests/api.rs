use glances_rs::api::{compose_all, configured_thresholds, field_schema, plugins_list};
use glances_rs::collector::{ensure_outcome, idle_expired, wake, EnsureError};
use glances_rs::config::{Config, PluginConfig, Thresholds};
use glances_rs::num::Num;
use glances_rs::plugins::fields::fields;
use glances_rs::plugins::PluginId;

fn n(x: f64) -> Num {
    Num::from_bits(x.to_bits())
}

fn disabled(name: &str) -> Config {
    let mut config = Config::default();
    let mut pc = PluginConfig::default();
    pc.enabled = Some(false);
    config.plugins.insert(name.to_string(), pc);
    config
}

#[test]
fn pluginslist_lists_enabled_plugins_sorted() {
    let all = plugins_list(&Config::default());
    assert_eq!(all, ["cpu", "diskio", "fs", "load", "mem", "memswap", "network", "system", "uptime"]);
    let no_net = plugins_list(&disabled("network"));
    assert_eq!(no_net, ["cpu", "diskio", "fs", "load", "mem", "memswap", "system", "uptime"]);
}

#[test]
fn aggregate_body_is_one_object_in_name_order() {
    let parts = vec![(PluginId::Mem, b"{\"a\":1}".to_vec()), (PluginId::Cpu, b"[]".to_vec())];
    let body = compose_all(&parts);
    assert_eq!(String::from_utf8(body).unwrap(), "{\"cpu\":[],\"mem\":{\"a\":1}}");
    assert_eq!(compose_all(&vec![]), b"{}".to_vec());
}

#[test]
fn default_thresholds_reflect_config() {
    let mut config = Config::default();
    let mut pc = PluginConfig::default();
    pc.thresholds.insert("percent".to_string(), Thresholds { careful: None, warning: Some(n(70.0)), critical: None });
    pc.thresholds.insert("used".to_string(), Thresholds { careful: None, warning: None, critical: None });
    config.plugins.insert("mem".to_string(), pc);
    let t = configured_thresholds(&config, PluginId::Mem, "percent").unwrap();
    assert_eq!(t.warning, Some(n(70.0)));
    assert!(configured_thresholds(&config, PluginId::Mem, "used").is_none());
    assert!(configured_thresholds(&config, PluginId::Cpu, "total").is_none());

    let mem = fields(PluginId::Mem);
    let percent = mem.iter().find(|f| f.field == "percent").unwrap();
    let s = field_schema(&config, PluginId::Mem, percent);
    assert_eq!(s.unit, "percent");
    let w = s.watched.unwrap();
    assert_eq!(w.direction, "high");
    assert!(w.prominent);
    assert_eq!(w.default_thresholds.unwrap().warning, Some(n(70.0)));
    let total = field_schema(&config, PluginId::Mem, &mem[0]);
    assert!(total.watched.is_none());
    assert_eq!(total.description, "Total physical memory available.");
}

#[test]
fn collector_decisions() {
    assert_eq!(wake(&Config::default(), PluginId::Mem), Ok(()));
    assert_eq!(wake(&disabled("mem"), PluginId::Mem), Err(EnsureError::NotRegistered));
    assert_eq!(ensure_outcome(true, Some(b"{}".to_vec())), Ok(b"{}".to_vec()));
    assert_eq!(ensure_outcome(false, Some(b"{}".to_vec())), Err(EnsureError::Timeout));
    assert_eq!(ensure_outcome(true, None), Err(EnsureError::Timeout));
    assert!(idle_expired(10, 10));
    assert!(!idle_expired(9, 10));
}

#[test]
fn cpu_info_internal_and_no_unimplemented_keys() {
    let config = Config::default();
    let cpu = fields(PluginId::Cpu);
    let schema = |name: &str| field_schema(&config, PluginId::Cpu, cpu.iter().find(|f| f.field == name).unwrap());
    assert!(schema("cpucore").internal);
    // the alert attributes as /info serves them
    assert_eq!(schema("ctx_switches").normalize_by, Some("cpucore"));
    assert!(schema("iowait").watched.as_ref().unwrap().prominent);
    assert!(!schema("steal").watched.as_ref().unwrap().prominent);
}
