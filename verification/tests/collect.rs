use glances_rs::config::{Config, PluginConfig};
use glances_rs::plugins::cpu::{CpuPlugin, CpuState};
use glances_rs::plugins::fs::{DiskInfo, FsPlugin};
use glances_rs::plugins::linux::CpuSample;
use glances_rs::plugins::memswap::MemSwapState;
use glances_rs::plugins::system::{hr_name, os_name, platform_bits};

const SEC: u64 = 1_000_000_000;

fn disk(mnt: &str, total: u64, avail: u64) -> DiskInfo {
    DiskInfo {
        device_name: format!("/dev/{}", mnt.len()),
        fs_type: "ext4".to_string(),
        mnt_point: mnt.to_string(),
        total_space: total,
        available_space: avail,
    }
}

#[test]
fn fs_items_are_filtered_sorted_and_aliased() {
    let mut config = Config::default();
    let mut pc = PluginConfig::default();
    pc.alias.insert("/".to_string(), "root".to_string());
    config.plugins.insert("fs".to_string(), pc);
    let plugin = FsPlugin::checked(&config).unwrap();
    let items = plugin.items(&vec![
        disk("/home", 1000, 250),
        disk("/boot/efi", 100, 50),
        disk("/", 200, 100),
        disk("/snap/core", 10, 0),
    ]);
    let mounts: Vec<&str> = items.iter().map(|i| i.mnt_point.as_str()).collect();
    // the default hide list drops /boot and snap mounts.
    assert_eq!(mounts, ["/", "/home"]);
    assert_eq!(items[0].alias.as_deref(), Some("root"));
    assert_eq!(items[1].alias, None);
    assert_eq!((items[1].used, items[1].percent), (750, 750));
}

#[test]
fn fs_operator_hide_replaces_the_defaults() {
    let mut config = Config::default();
    let mut pc = PluginConfig::default();
    pc.hide = vec!["^/home$".to_string()];
    config.plugins.insert("fs".to_string(), pc);
    let plugin = FsPlugin::checked(&config).unwrap();
    let items = plugin.items(&vec![disk("/home", 1, 1), disk("/boot", 1, 1)]);
    assert_eq!(items.len(), 1);
    assert_eq!(items[0].mnt_point, "/boot");
}

#[test]
fn cpu_cycle_needs_two_samples() {
    let plugin = CpuPlugin::new(&Config::default(), 4);
    let mut state = CpuState::default();
    assert!(state.needs_baseline());
    state.baseline(Some(CpuSample { user: 100, idle: 900, ctxt: 1000, ..Default::default() }), SEC);
    let cur = CpuSample { user: 200, idle: 1800, ctxt: 3000, ..Default::default() };
    let r = plugin.cycle(&mut state, Some(cur), 3 * SEC);
    assert_eq!(r.cpucore, 4);
    assert_eq!(r.time_since_update_ms, 2000);
    let b = r.breakdown.unwrap();
    assert_eq!(b.percents.user, 100);
    assert_eq!(b.ctx_switches_tenths, 10_000); // 2000 over 2 s
    assert_eq!(state.prev, Some(cur));
    // a failed read reports the core count only and keeps the sample.
    let r2 = plugin.cycle(&mut state, None, 4 * SEC);
    assert!(r2.breakdown.is_none());
    assert_eq!(state.prev, Some(cur));
}

#[test]
fn memswap_elapsed_is_zero_first() {
    let mut s = MemSwapState::default();
    assert_eq!(s.elapsed(5 * SEC), 0);
    assert_eq!(s.elapsed(5 * SEC + 1_500_000_000), 1500);
}

#[test]
fn system_identity() {
    assert_eq!(os_name("linux"), "Linux");
    assert_eq!(os_name("macos"), "Darwin");
    assert_eq!(os_name("haiku"), "haiku");
    assert!(platform_bits() == "64bit" || platform_bits() == "32bit");
    assert_eq!(hr_name("Ubuntu 22.04", "64bit", "Linux", "6.1"), "Ubuntu 22.04 64bit / Linux 6.1");
}
