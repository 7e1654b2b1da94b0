use glances_rs::plugins::linux::{
    cpu_percents, iface_meta, parse_diskstats, parse_meminfo, parse_os_release, parse_proc_stat, parse_swap,
    speed_capacity_bytes_per_dir, CpuPercents, CpuSample,
};

const STAT: &str = "\
cpu  990 10 4260 214257 735 0 15 1 5 0
cpu0 495 5 2130 107128 367 0 7 0 2 0
intr 227275 1 2 3
ctxt 456736
btime 1700000000
processes 1757
procs_running 1
softirq 35833 100 200
";

fn pct(tenths: u128) -> f64 {
    tenths as f64 / 10.0
}

#[test]
fn parse_proc_stat_reads_aggregate_line_and_counters() {
    let s = parse_proc_stat(STAT).unwrap();
    assert_eq!(s.user, 990);
    assert_eq!(s.nice, 10);
    assert_eq!(s.system, 4260);
    assert_eq!(s.idle, 214257);
    assert_eq!(s.iowait, 735);
    assert_eq!(s.softirq, 15);
    assert_eq!(s.steal, 1);
    assert_eq!(s.guest, 5);
    assert_eq!(s.ctxt, 456736);
    assert_eq!(s.intr, 227275);
    assert_eq!(s.softirq_total, 35833);
}

#[test]
fn parse_proc_stat_without_cpu_line_is_none() {
    assert!(parse_proc_stat("intr 1 2\nctxt 3\n").is_none());
}

#[test]
fn cpu_percents_sum_with_idle_to_about_100() {
    let prev = CpuSample { user: 100, system: 100, idle: 800, ..Default::default() };
    let cur = CpuSample { user: 200, system: 150, idle: 1650, ..Default::default() };
    // deltas: user 100, system 50, idle 850, total 1000
    let p = cpu_percents(&prev, &cur);
    assert_eq!(pct(p.user), 10.0);
    assert_eq!(pct(p.system), 5.0);
    assert_eq!(pct(p.idle), 85.0);
    assert_eq!(pct(p.total), 15.0); // 100 - idle
}

#[test]
fn cpu_percents_identical_samples_are_zero() {
    let s = CpuSample { user: 5, idle: 5, ..Default::default() };
    assert_eq!(cpu_percents(&s, &s), CpuPercents::default());
}

#[test]
fn cpu_percents_round_half_up_in_tenths() {
    // user 1 of 3 jiffies: 33.33..% -> 333 tenths; idle 2 of 3 -> 666.6.. -> 667.
    let prev = CpuSample::default();
    let cur = CpuSample { user: 1, idle: 2, ..Default::default() };
    let p = cpu_percents(&prev, &cur);
    assert_eq!(p.user, 333);
    assert_eq!(p.idle, 667);
    assert_eq!(p.total, 333);
    // total + idle stays within one tenth of 100%.
    assert!(p.total + p.idle >= 1000 && p.total + p.idle <= 1001);
}

#[test]
fn parse_meminfo_follows_psutil_formulas() {
    let content = "\
MemTotal:       1000 kB
MemFree:         400 kB
MemAvailable:    600 kB
Buffers:          50 kB
Cached:          100 kB
SReclaimable:     20 kB
Active:          200 kB
Inactive:        150 kB
";
    let m = parse_meminfo(content);
    assert_eq!(m.total, 1000 * 1024);
    assert_eq!(m.free, 400 * 1024);
    assert_eq!(m.available, 600 * 1024);
    assert_eq!(m.buffers, 50 * 1024);
    assert_eq!(m.cached, (100 + 20) * 1024); // Cached + SReclaimable
    assert_eq!(m.used, (1000 - 400 - 120 - 50) * 1024); // total-free-cached-buffers
    assert_eq!(m.active, 200 * 1024);
    assert_eq!(m.percent_tenths as f64 / 10.0, 40.0); // (1000-600)/1000
}

#[test]
fn parse_meminfo_falls_back_to_free_without_memavailable() {
    let m = parse_meminfo("MemTotal: 1000 kB\nMemFree: 400 kB\n");
    assert_eq!(m.available, 400 * 1024);
}

#[test]
fn parse_diskstats_reads_counts_and_sector_bytes() {
    let content = "\
   8       0 sda 1000 50 4000 120 2000 30 8000 200 0 300 420
 259       0 nvme0n1 5 0 40 1 7 0 80 2 0 3 6
";
    let m = parse_diskstats(content);
    let sda = m.get("sda").unwrap();
    // read_count, write_count, read_bytes (4000*512), write_bytes (8000*512)
    assert_eq!(*sda, (1000, 2000, 4000 * 512, 8000 * 512));
    assert!(m.contains_key("nvme0n1"));
}

#[test]
fn parse_diskstats_skips_short_lines() {
    assert!(parse_diskstats("8 0 sda 1 2 3\n").is_empty());
}

#[test]
fn parse_swap_reads_bytes_and_cumulative_counters() {
    let meminfo = "\
MemTotal:       1000 kB
SwapTotal:      2000 kB
SwapFree:        500 kB
";
    let vmstat = "\
nr_free_pages 12345
pswpin 10
pswpout 7
";
    // page_size = 4096: sin = 10*4096, sout = 7*4096.
    let s = parse_swap(meminfo, vmstat, 4096);
    assert_eq!(s.total, 2000 * 1024);
    assert_eq!(s.free, 500 * 1024);
    assert_eq!(s.used, (2000 - 500) * 1024);
    assert_eq!(s.percent_tenths as f64 / 10.0, 75.0); // 1500/2000
    assert_eq!(s.sin, 10 * 4096);
    assert_eq!(s.sout, 7 * 4096);
}

#[test]
fn parse_swap_without_swap_is_all_zero() {
    let s = parse_swap("MemTotal: 1000 kB\n", "pswpin 0\n", 4096);
    assert_eq!(s.total, 0);
    assert_eq!(s.percent_tenths as f64 / 10.0, 0.0);
}

#[test]
fn parse_os_release_combines_name_and_version_id() {
    let content = "\
PRETTY_NAME=\"Ubuntu 22.04.3 LTS\"
NAME=\"Ubuntu\"
VERSION_ID=\"22.04\"
ID=ubuntu
";
    assert_eq!(parse_os_release(content), "Ubuntu 22.04");
}

#[test]
fn parse_os_release_tolerates_unquoted_and_missing_fields() {
    assert_eq!(parse_os_release("NAME=Arch\n"), "Arch");
    assert_eq!(parse_os_release(""), "");
}

#[test]
fn bytes_speed_rate_per_sec_is_decimal_per_direction() {
    // 1000 Mbit/s full-duplex -> 1000 * 1e6 / 8 / 2 = 62_500_000 B/s per dir.
    assert_eq!(speed_capacity_bytes_per_dir(1000), 62_500_000);
    // unknown / down link -> 0.
    assert_eq!(speed_capacity_bytes_per_dir(0), 0);
}

#[test]
fn iface_meta_reads_flags_and_speed() {
    let m = iface_meta(Some("0x1003\n"), Some("1000\n"));
    assert!(m.is_up);
    assert_eq!(m.speed, 1000 * 1_048_576);
    assert_eq!(m.bytes_speed_rate_per_sec, 62_500_000);
    let down = iface_meta(Some("0x1002"), Some("-1"));
    assert!(!down.is_up);
    assert_eq!(down.speed, 0);
    assert_eq!(down.bytes_speed_rate_per_sec, 0);
    let missing = iface_meta(None, None);
    assert!(!missing.is_up);
    assert_eq!(missing.speed, 0);
}

#[test]
fn parse_diskstats_last_line_for_a_disk_wins() {
    let content = "\
   8       0 sda 1 0 2 0 3 0 4 0 0 0 0
   8       0 sda 10 0 20 0 30 0 40 0 0 0 0
";
    let m = parse_diskstats(content);
    assert_eq!(m.len(), 1);
    assert_eq!(*m.get("sda").unwrap(), (10, 30, 20 * 512, 40 * 512));
}

#[test]
fn parse_proc_stat_reads_the_last_cpu_and_counter_lines() {
    let s = parse_proc_stat("cpu 1 2 3 4\nctxt 5\ncpu 10 20 30 40 50\nctxt 6\n").unwrap();
    assert_eq!((s.user, s.nice, s.system, s.idle, s.iowait, s.irq), (10, 20, 30, 40, 50, 0));
    assert_eq!(s.ctxt, 6);
    assert_eq!((s.intr, s.softirq_total), (0, 0));
    // one malformed cpu line spoils the whole read
    assert!(parse_proc_stat("cpu 1 2 3 4\ncpu 1 2\n").is_none());
}
