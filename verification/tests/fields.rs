use glances_rs::plugins::fields::{alert_fields, fields, Direction, Unit};
use glances_rs::plugins::PluginId;

#[test]
fn watched_subset_matches_v030_alertfield() {
    // (plugin, field, prominent, normalize_by): the alertable set, with the
    // cpu/load attributes as Glances /info serves them.
    let expected: &[(PluginId, &str, bool, Option<&str>)] = &[
        (PluginId::Mem, "percent", true, None),
        (PluginId::Cpu, "total", true, None),
        (PluginId::Cpu, "system", false, None),
        (PluginId::Cpu, "user", false, None),
        (PluginId::Cpu, "iowait", true, None),
        (PluginId::Cpu, "steal", false, None),
        (PluginId::Cpu, "ctx_switches", false, Some("cpucore")),
        (PluginId::Load, "min5", false, Some("cpucore")),
        (PluginId::Load, "min15", true, Some("cpucore")),
        (PluginId::MemSwap, "percent", true, None),
        (PluginId::MemSwap, "sin", false, None),
        (PluginId::MemSwap, "sout", false, None),
        (PluginId::Diskio, "read_bytes", false, None),
        (PluginId::Diskio, "write_bytes", false, None),
        (PluginId::Fs, "percent", false, None),
        (PluginId::Network, "bytes_recv", false, Some("bytes_speed_rate_per_sec")),
        (PluginId::Network, "bytes_sent", false, Some("bytes_speed_rate_per_sec")),
    ];
    let mut got: Vec<(PluginId, &str, bool, Option<&str>)> = Vec::new();
    for id in PluginId::ALL {
        for f in alert_fields(id) {
            assert!(f.watched);
            assert_eq!(f.direction, Direction::High); // every alertable field is High
            got.push((id, f.field, f.prominent, f.normalize_by));
        }
    }
    got.sort_by_key(|t| (t.0.as_str(), t.1));
    let mut want = expected.to_vec();
    want.sort_by_key(|t| (t.0.as_str(), t.1));
    assert_eq!(got, want);
}

#[test]
fn primary_key_matches_key_field() {
    for id in PluginId::ALL {
        let pk: Vec<&str> = fields(id).iter().filter(|f| f.primary_key).map(|f| f.field).collect();
        match id.key_field() {
            Some(k) => assert_eq!(pk, vec![k], "{} pk", id.as_str()),
            None => assert!(pk.is_empty(), "{} has no pk", id.as_str()),
        }
    }
}

#[test]
fn every_plugin_has_fields() {
    for id in PluginId::ALL {
        assert!(!fields(id).is_empty(), "{} has fields", id.as_str());
    }
}

#[test]
fn unit_strings() {
    assert_eq!(Unit::Bytes.as_str(), "bytes");
    assert_eq!(Unit::BytesPerSec.as_str(), "bytespers");
    assert_eq!(Unit::BitPerSec.as_str(), "bitpersecond");
    assert_eq!(Unit::Float.as_str(), "float");
    assert_eq!(Unit::Seconds.as_str(), "seconds");
}

#[test]
fn direction_strings() {
    assert_eq!(Direction::High.as_str(), "high");
    assert_eq!(Direction::Low.as_str(), "low");
}

#[test]
fn schema_texts_are_verbatim() {
    let mem = fields(PluginId::Mem);
    assert_eq!(mem.len(), 9);
    assert_eq!(mem[1].field, "available");
    assert_eq!(mem[1].short_name, Some("avail"));
    assert_eq!(mem[0].description, "Total physical memory available.");
    let cpu = fields(PluginId::Cpu);
    let ctx = cpu.iter().find(|f| f.field == "ctx_switches").unwrap();
    assert!(ctx.rate && ctx.watched && !ctx.prominent);
    assert_eq!(ctx.normalize_by, Some("cpucore"));
    assert_eq!(ctx.short_name, Some("ctx_sw"));
    assert_eq!(ctx.unit, Unit::Number);
    assert!(cpu.last().unwrap().internal);
    let net = fields(PluginId::Network);
    assert_eq!(net[0].field, "interface_name");
    assert!(net[0].primary_key);
    assert_eq!(fields(PluginId::Uptime)[0].unit.as_str(), "seconds");
}

#[test]
fn cpu_info_attributes_follow_glances() {
    let cpu = fields(PluginId::Cpu);
    let f = |n: &str| *cpu.iter().find(|x| x.field == n).unwrap();
    assert!(f("cpucore").internal);
    assert_eq!(f("ctx_switches").normalize_by, Some("cpucore"));
    assert!(f("iowait").prominent);
    assert!(!f("steal").prominent);
    let load = fields(PluginId::Load);
    for n in ["min5", "min15"] {
        let x = load.iter().find(|x| x.field == n).unwrap();
        assert_eq!(x.normalize_by, Some("cpucore"));
    }
    assert_eq!(load.iter().find(|x| x.field == "min1").unwrap().normalize_by, None);
}
