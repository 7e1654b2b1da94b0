//! Static per-plugin field metadata: the one source of both the
//! `/api/5/<plugin>/info` schema and the set of alertable fields. Every value
//! follows the Glances v5 `develop-v5` `/info` output.
use vstd::prelude::*;
use crate::alerts;
use crate::alerts::opt_str;
use crate::plugins::{key_field_name, PluginId};

verus! {

/// Threshold ladder direction. `High`: alert as the value rises; `Low`:
/// alert as it falls. Every current field is `High`.
#[derive(Clone, Copy, PartialEq, Eq, Debug, Structural)]
pub enum Direction {
    High,
    Low,
}

pub open spec fn direction_name(d: Direction) -> Seq<char> {
    match d {
        Direction::High => "high"@,
        Direction::Low => "low"@,
    }
}

impl Direction {
    pub fn as_str(self) -> (s: &'static str)
        ensures
            s@ == direction_name(self),
    {
        match self {
            Direction::High => "high",
            Direction::Low => "low",
        }
    }
}

/// Field unit vocabulary of Glances v5 `/info`.
#[derive(Clone, Copy, PartialEq, Eq, Debug, Structural)]
pub enum Unit {
    Bytes,
    Percent,
    BytesPerSec,
    BitPerSec,
    Number,
    Float,
    Bool,
    StringT,
    Seconds,
}

pub open spec fn unit_name(u: Unit) -> Seq<char> {
    match u {
        Unit::Bytes => "bytes"@,
        Unit::Percent => "percent"@,
        Unit::BytesPerSec => "bytespers"@,
        Unit::BitPerSec => "bitpersecond"@,
        Unit::Number => "number"@,
        Unit::Float => "float"@,
        Unit::Bool => "bool"@,
        Unit::StringT => "string"@,
        Unit::Seconds => "seconds"@,
    }
}

impl Unit {
    pub fn as_str(self) -> (s: &'static str)
        ensures
            s@ == unit_name(self),
    {
        match self {
            Unit::Bytes => "bytes",
            Unit::Percent => "percent",
            Unit::BytesPerSec => "bytespers",
            Unit::BitPerSec => "bitpersecond",
            Unit::Number => "number",
            Unit::Float => "float",
            Unit::Bool => "bool",
            Unit::StringT => "string",
            Unit::Seconds => "seconds",
        }
    }
}

/// One emitted field's static metadata. `watched`, `direction`, `prominent`
/// and `normalize_by` drive alerting; the rest is schema for `/info`.
#[derive(Clone, Copy, Debug)]
pub struct FieldInfo {
    pub field: &'static str,
    pub description: &'static str,
    pub unit: Unit,
    pub short_name: Option<&'static str>,
    pub primary_key: bool,
    pub rate: bool,
    pub internal: bool,
    pub watched: bool,
    pub direction: Direction,
    pub prominent: bool,
    pub normalize_by: Option<&'static str>,
}

/// What a field's metadata says, its texts as character sequences.
pub struct InfoView {
    pub field: Seq<char>,
    pub description: Seq<char>,
    pub unit: Unit,
    pub short_name: Option<Seq<char>>,
    pub primary_key: bool,
    pub rate: bool,
    pub internal: bool,
    pub watched: bool,
    pub direction: Direction,
    pub prominent: bool,
    pub normalize_by: Option<Seq<char>>,
}

impl InfoView {
    /// A field with no flag set: not a key, not a rate, not internal, not
    /// alertable, no short name, no divisor.
    pub open spec fn plain(field: Seq<char>, description: Seq<char>, unit: Unit) -> InfoView {
        InfoView {
            field,
            description,
            unit,
            short_name: None,
            primary_key: false,
            rate: false,
            internal: false,
            watched: false,
            direction: Direction::High,
            prominent: false,
            normalize_by: None,
        }
    }

    pub open spec fn short(self, s: Seq<char>) -> InfoView {
        InfoView { short_name: Some(s), ..self }
    }

    pub open spec fn pk(self) -> InfoView {
        InfoView { primary_key: true, ..self }
    }

    pub open spec fn rate(self) -> InfoView {
        InfoView { rate: true, ..self }
    }

    pub open spec fn internal(self) -> InfoView {
        InfoView { internal: true, ..self }
    }

    pub open spec fn watched_high(self, prominent: bool) -> InfoView {
        InfoView { watched: true, direction: Direction::High, prominent, ..self }
    }

    pub open spec fn normalize(self, by: Seq<char>) -> InfoView {
        InfoView { normalize_by: Some(by), ..self }
    }
}

pub open spec fn info_view(f: FieldInfo) -> InfoView {
    InfoView {
        field: f.field@,
        description: f.description@,
        unit: f.unit,
        short_name: opt_str(f.short_name),
        primary_key: f.primary_key,
        rate: f.rate,
        internal: f.internal,
        watched: f.watched,
        direction: f.direction,
        prominent: f.prominent,
        normalize_by: opt_str(f.normalize_by),
    }
}

pub open spec fn infos_view(v: Seq<FieldInfo>) -> Seq<InfoView> {
    v.map_values(|f: FieldInfo| info_view(f))
}

impl FieldInfo {
    pub fn new(field: &'static str, description: &'static str, unit: Unit) -> (f: Self)
        ensures
            info_view(f) == InfoView::plain(field@, description@, unit),
    {
        FieldInfo {
            field,
            description,
            unit,
            short_name: None,
            primary_key: false,
            rate: false,
            internal: false,
            watched: false,
            direction: Direction::High,
            prominent: false,
            normalize_by: None,
        }
    }

    pub fn short(self, s: &'static str) -> (f: Self)
        ensures
            info_view(f) == info_view(self).short(s@),
    {
        let mut f = self;
        f.short_name = Some(s);
        f
    }

    pub fn pk(self) -> (f: Self)
        ensures
            info_view(f) == info_view(self).pk(),
    {
        let mut f = self;
        f.primary_key = true;
        f
    }

    pub fn rate(self) -> (f: Self)
        ensures
            info_view(f) == info_view(self).rate(),
    {
        let mut f = self;
        f.rate = true;
        f
    }

    pub fn internal(self) -> (f: Self)
        ensures
            info_view(f) == info_view(self).internal(),
    {
        let mut f = self;
        f.internal = true;
        f
    }

    /// Alertable, `High` direction, with the given prominence.
    pub fn watched_high(self, prominent: bool) -> (f: Self)
        ensures
            info_view(f) == info_view(self).watched_high(prominent),
    {
        let mut f = self;
        f.watched = true;
        f.direction = Direction::High;
        f.prominent = prominent;
        f
    }

    pub fn normalize(self, by: &'static str) -> (f: Self)
        ensures
            info_view(f) == info_view(self).normalize(by@),
    {
        let mut f = self;
        f.normalize_by = Some(by);
        f
    }
}
pub open spec fn mem_table() -> Seq<InfoView> {
    seq![
        InfoView::plain("total"@, "Total physical memory available."@, Unit::Bytes),
        InfoView::plain("available"@, "Actual amount of available memory that can be given instantly to processes that request more memory; calculated by summing different memory values depending on the platform (e.g. free + buffers + cached on Linux). Suitable for monitoring actual memory usage in a cross-platform fashion."@, Unit::Bytes).short("avail"@),
        InfoView::plain("percent"@, "Percentage usage calculated as (total - available) / total * 100."@, Unit::Percent).watched_high(true),
        InfoView::plain("used"@, "Memory used, calculated differently depending on the platform and designed for informational purposes only."@, Unit::Bytes),
        InfoView::plain("free"@, "Memory not being used at all (zeroed) that is readily available; note that this does not reflect the actual memory available — use `available` instead."@, Unit::Bytes),
        InfoView::plain("active"@, "(UNIX) Memory currently in use or very recently used, resident in RAM."@, Unit::Bytes),
        InfoView::plain("inactive"@, "(UNIX) Memory that is marked as not used."@, Unit::Bytes).short("inacti"@),
        InfoView::plain("buffers"@, "(Linux, BSD) Cache for items like filesystem metadata."@, Unit::Bytes).short("buffer"@),
        InfoView::plain("cached"@, "(Linux, BSD) Cache for various things (including ZFS cache)."@, Unit::Bytes),
    ]
}

pub open spec fn cpu_table() -> Seq<InfoView> {
    seq![
        InfoView::plain("total"@, "Sum of all CPU percentages (except idle)."@, Unit::Percent).watched_high(true),
        InfoView::plain("system"@, "Percent time spent in kernel space. System CPU time is the time spent running code in the operating system kernel."@, Unit::Percent).watched_high(false),
        InfoView::plain("user"@, "Percent time spent in user space. User CPU time is the time spent on the processor running the program's code (or code in libraries)."@, Unit::Percent).watched_high(false),
        InfoView::plain("iowait"@, "(Linux) Percent time spent by the CPU waiting for I/O operations to complete."@, Unit::Percent).watched_high(true),
        InfoView::plain("idle"@, "Percent of CPU not used by any program. Every program or task that runs occupies a certain amount of processing time on the CPU; when the CPU has completed all tasks it is idle."@, Unit::Percent),
        InfoView::plain("irq"@, "(Linux and BSD) Percent time spent servicing hardware and software interrupts."@, Unit::Percent),
        InfoView::plain("nice"@, "(UNIX) Percent time occupied by user-level processes with a positive nice value (processes that have been niced down)."@, Unit::Percent),
        InfoView::plain("steal"@, "(Linux) Percentage of time a virtual CPU waits for a real CPU while the hypervisor is servicing another virtual processor."@, Unit::Percent).watched_high(false),
        InfoView::plain("guest"@, "(Linux) Time spent running a virtual CPU for guest operating systems under the control of the Linux kernel."@, Unit::Percent),
        InfoView::plain("ctx_switches"@, "Number of context switches (voluntary + involuntary) per second. A context switch is the procedure a CPU follows to change from one task to another while ensuring the tasks do not conflict."@, Unit::Number).rate().watched_high(false).normalize("cpucore"@).short("ctx_sw"@),
        InfoView::plain("interrupts"@, "Number of interrupts per second."@, Unit::Number).rate().short("inter"@),
        InfoView::plain("soft_interrupts"@, "Number of software interrupts per second. Always 0 on Windows and SunOS."@, Unit::Number).rate().short("sw_int"@),
        InfoView::plain("syscalls"@, "Number of system calls per second. Always 0 on Linux."@, Unit::Number).rate(),
        InfoView::plain("cpucore"@, "Total number of logical CPU cores."@, Unit::Number).internal(),
    ]
}

pub open spec fn load_table() -> Seq<InfoView> {
    seq![
        InfoView::plain("min1"@, "Average number of processes waiting in the run-queue plus those currently executing, over 1 minute."@, Unit::Float),
        InfoView::plain("min5"@, "Average number of processes waiting in the run-queue plus those currently executing, over 5 minutes."@, Unit::Float).watched_high(false).normalize("cpucore"@),
        InfoView::plain("min15"@, "Average number of processes waiting in the run-queue plus those currently executing, over 15 minutes."@, Unit::Float).watched_high(true).normalize("cpucore"@),
        InfoView::plain("cpucore"@, "Total number of logical CPU cores."@, Unit::Number).internal(),
    ]
}

pub open spec fn network_table() -> Seq<InfoView> {
    seq![
        InfoView::plain("interface_name"@, "Network interface name."@, Unit::StringT).pk(),
        InfoView::plain("bytes_recv"@, "Bytes received per second."@, Unit::BytesPerSec).rate().watched_high(false).normalize("bytes_speed_rate_per_sec"@),
        InfoView::plain("bytes_sent"@, "Bytes sent per second."@, Unit::BytesPerSec).rate().watched_high(false).normalize("bytes_speed_rate_per_sec"@),
        InfoView::plain("bytes_all"@, "Total bytes received and sent per second (bytes_recv + bytes_sent)."@, Unit::BytesPerSec).rate(),
        InfoView::plain("alias"@, "Operator-defined display alias for the interface; present only when configured."@, Unit::StringT),
        InfoView::plain("is_up"@, "Whether the interface is up."@, Unit::Bool),
        InfoView::plain("speed"@, "Maximum interface link speed in bits per second (0 when the OS does not report it)."@, Unit::BitPerSec),
        InfoView::plain("bytes_speed_rate_per_sec"@, "Estimated per-direction bandwidth capacity in bytes/s. Computed from the interface link speed (Mbit/s) under a full-duplex split assumption: speed_mbits * 1e6 / 8 / 2. Returns 0 when the OS does not report a link speed (loopback, virtual interfaces) — in which case threshold normalisation is skipped for bytes_recv / bytes_sent."@, Unit::BytesPerSec),
    ]
}

pub open spec fn system_table() -> Seq<InfoView> {
    seq![
        InfoView::plain("os_name"@, "Operating system name."@, Unit::StringT),
        InfoView::plain("hostname"@, "Hostname."@, Unit::StringT),
        InfoView::plain("platform"@, "Platform (32 or 64 bits)."@, Unit::StringT),
        InfoView::plain("linux_distro"@, "Linux distribution."@, Unit::StringT),
        InfoView::plain("os_version"@, "Operating system version."@, Unit::StringT),
        InfoView::plain("hr_name"@, "Human readable operating system name."@, Unit::StringT),
    ]
}

pub open spec fn uptime_table() -> Seq<InfoView> {
    seq![
        InfoView::plain("seconds"@, "Seconds elapsed since the system booted."@, Unit::Seconds),
    ]
}

pub open spec fn memswap_table() -> Seq<InfoView> {
    seq![
        InfoView::plain("total"@, "Total swap memory."@, Unit::Bytes),
        InfoView::plain("used"@, "Used swap memory."@, Unit::Bytes),
        InfoView::plain("free"@, "Free swap memory."@, Unit::Bytes),
        InfoView::plain("percent"@, "Used swap memory as a percentage of total."@, Unit::Percent).watched_high(true),
        InfoView::plain("sin"@, "Bytes the system has swapped in from disk (per second — v4 reports the cumulative counter; v5 converts it to a rate)."@, Unit::BytesPerSec).rate().watched_high(false),
        InfoView::plain("sout"@, "Bytes the system has swapped out to disk (per second — v4 reports the cumulative counter; v5 converts it to a rate)."@, Unit::BytesPerSec).rate().watched_high(false),
    ]
}

pub open spec fn fs_table() -> Seq<InfoView> {
    seq![
        InfoView::plain("mnt_point"@, "Mount point."@, Unit::StringT).pk(),
        InfoView::plain("device_name"@, "Device name backing the filesystem (e.g. /dev/sda1)."@, Unit::StringT),
        InfoView::plain("fs_type"@, "File system type (e.g. ext4, xfs, btrfs)."@, Unit::StringT).internal(),
        InfoView::plain("size"@, "Total size of the filesystem in bytes."@, Unit::Bytes),
        InfoView::plain("used"@, "Used size in bytes."@, Unit::Bytes),
        InfoView::plain("free"@, "Free size in bytes."@, Unit::Bytes),
        InfoView::plain("percent"@, "Filesystem usage as a percentage of total size."@, Unit::Percent).watched_high(false),
        InfoView::plain("alias"@, "Operator-defined display alias for the mount point; present only when configured."@, Unit::StringT),
    ]
}

pub open spec fn diskio_table() -> Seq<InfoView> {
    seq![
        InfoView::plain("disk_name"@, "Disk name (e.g. sda, nvme0n1)."@, Unit::StringT).pk(),
        InfoView::plain("read_count"@, "Read operations per second (rate of psutil read_count counter)."@, Unit::Number).rate().internal(),
        InfoView::plain("write_count"@, "Write operations per second (rate of psutil write_count counter)."@, Unit::Number).rate().internal(),
        InfoView::plain("read_bytes"@, "Bytes read per second (rate of psutil read_bytes counter)."@, Unit::BytesPerSec).rate().watched_high(false),
        InfoView::plain("write_bytes"@, "Bytes written per second (rate of psutil write_bytes counter)."@, Unit::BytesPerSec).rate().watched_high(false),
        InfoView::plain("alias"@, "Operator-defined display alias for the disk; present only when configured."@, Unit::StringT),
    ]
}

fn mem_fields() -> (v: Vec<FieldInfo>)
    ensures
        infos_view(v@) == mem_table(),
{
    let mut v: Vec<FieldInfo> = Vec::new();
    v.push(FieldInfo::new("total", "Total physical memory available.", Unit::Bytes));
    v.push(FieldInfo::new("available", "Actual amount of available memory that can be given instantly to processes that request more memory; calculated by summing different memory values depending on the platform (e.g. free + buffers + cached on Linux). Suitable for monitoring actual memory usage in a cross-platform fashion.", Unit::Bytes).short("avail"));
    v.push(FieldInfo::new("percent", "Percentage usage calculated as (total - available) / total * 100.", Unit::Percent).watched_high(true));
    v.push(FieldInfo::new("used", "Memory used, calculated differently depending on the platform and designed for informational purposes only.", Unit::Bytes));
    v.push(FieldInfo::new("free", "Memory not being used at all (zeroed) that is readily available; note that this does not reflect the actual memory available — use `available` instead.", Unit::Bytes));
    v.push(FieldInfo::new("active", "(UNIX) Memory currently in use or very recently used, resident in RAM.", Unit::Bytes));
    v.push(FieldInfo::new("inactive", "(UNIX) Memory that is marked as not used.", Unit::Bytes).short("inacti"));
    v.push(FieldInfo::new("buffers", "(Linux, BSD) Cache for items like filesystem metadata.", Unit::Bytes).short("buffer"));
    v.push(FieldInfo::new("cached", "(Linux, BSD) Cache for various things (including ZFS cache).", Unit::Bytes));
    assert(infos_view(v@) =~= mem_table());
    v
}

fn cpu_fields() -> (v: Vec<FieldInfo>)
    ensures
        infos_view(v@) == cpu_table(),
{
    let mut v: Vec<FieldInfo> = Vec::new();
    v.push(FieldInfo::new("total", "Sum of all CPU percentages (except idle).", Unit::Percent).watched_high(true));
    v.push(FieldInfo::new("system", "Percent time spent in kernel space. System CPU time is the time spent running code in the operating system kernel.", Unit::Percent).watched_high(false));
    v.push(FieldInfo::new("user", "Percent time spent in user space. User CPU time is the time spent on the processor running the program's code (or code in libraries).", Unit::Percent).watched_high(false));
    v.push(FieldInfo::new("iowait", "(Linux) Percent time spent by the CPU waiting for I/O operations to complete.", Unit::Percent).watched_high(true));
    v.push(FieldInfo::new("idle", "Percent of CPU not used by any program. Every program or task that runs occupies a certain amount of processing time on the CPU; when the CPU has completed all tasks it is idle.", Unit::Percent));
    v.push(FieldInfo::new("irq", "(Linux and BSD) Percent time spent servicing hardware and software interrupts.", Unit::Percent));
    v.push(FieldInfo::new("nice", "(UNIX) Percent time occupied by user-level processes with a positive nice value (processes that have been niced down).", Unit::Percent));
    v.push(FieldInfo::new("steal", "(Linux) Percentage of time a virtual CPU waits for a real CPU while the hypervisor is servicing another virtual processor.", Unit::Percent).watched_high(false));
    v.push(FieldInfo::new("guest", "(Linux) Time spent running a virtual CPU for guest operating systems under the control of the Linux kernel.", Unit::Percent));
    v.push(FieldInfo::new("ctx_switches", "Number of context switches (voluntary + involuntary) per second. A context switch is the procedure a CPU follows to change from one task to another while ensuring the tasks do not conflict.", Unit::Number).rate().watched_high(false).normalize("cpucore").short("ctx_sw"));
    v.push(FieldInfo::new("interrupts", "Number of interrupts per second.", Unit::Number).rate().short("inter"));
    v.push(FieldInfo::new("soft_interrupts", "Number of software interrupts per second. Always 0 on Windows and SunOS.", Unit::Number).rate().short("sw_int"));
    v.push(FieldInfo::new("syscalls", "Number of system calls per second. Always 0 on Linux.", Unit::Number).rate());
    v.push(FieldInfo::new("cpucore", "Total number of logical CPU cores.", Unit::Number).internal());
    assert(infos_view(v@) =~= cpu_table());
    v
}

fn load_fields() -> (v: Vec<FieldInfo>)
    ensures
        infos_view(v@) == load_table(),
{
    let mut v: Vec<FieldInfo> = Vec::new();
    v.push(FieldInfo::new("min1", "Average number of processes waiting in the run-queue plus those currently executing, over 1 minute.", Unit::Float));
    v.push(FieldInfo::new("min5", "Average number of processes waiting in the run-queue plus those currently executing, over 5 minutes.", Unit::Float).watched_high(false).normalize("cpucore"));
    v.push(FieldInfo::new("min15", "Average number of processes waiting in the run-queue plus those currently executing, over 15 minutes.", Unit::Float).watched_high(true).normalize("cpucore"));
    v.push(FieldInfo::new("cpucore", "Total number of logical CPU cores.", Unit::Number).internal());
    assert(infos_view(v@) =~= load_table());
    v
}

fn network_fields() -> (v: Vec<FieldInfo>)
    ensures
        infos_view(v@) == network_table(),
{
    let mut v: Vec<FieldInfo> = Vec::new();
    v.push(FieldInfo::new("interface_name", "Network interface name.", Unit::StringT).pk());
    v.push(FieldInfo::new("bytes_recv", "Bytes received per second.", Unit::BytesPerSec).rate().watched_high(false).normalize("bytes_speed_rate_per_sec"));
    v.push(FieldInfo::new("bytes_sent", "Bytes sent per second.", Unit::BytesPerSec).rate().watched_high(false).normalize("bytes_speed_rate_per_sec"));
    v.push(FieldInfo::new("bytes_all", "Total bytes received and sent per second (bytes_recv + bytes_sent).", Unit::BytesPerSec).rate());
    v.push(FieldInfo::new("alias", "Operator-defined display alias for the interface; present only when configured.", Unit::StringT));
    v.push(FieldInfo::new("is_up", "Whether the interface is up.", Unit::Bool));
    v.push(FieldInfo::new("speed", "Maximum interface link speed in bits per second (0 when the OS does not report it).", Unit::BitPerSec));
    v.push(FieldInfo::new("bytes_speed_rate_per_sec", "Estimated per-direction bandwidth capacity in bytes/s. Computed from the interface link speed (Mbit/s) under a full-duplex split assumption: speed_mbits * 1e6 / 8 / 2. Returns 0 when the OS does not report a link speed (loopback, virtual interfaces) — in which case threshold normalisation is skipped for bytes_recv / bytes_sent.", Unit::BytesPerSec));
    assert(infos_view(v@) =~= network_table());
    v
}

fn system_fields() -> (v: Vec<FieldInfo>)
    ensures
        infos_view(v@) == system_table(),
{
    let mut v: Vec<FieldInfo> = Vec::new();
    v.push(FieldInfo::new("os_name", "Operating system name.", Unit::StringT));
    v.push(FieldInfo::new("hostname", "Hostname.", Unit::StringT));
    v.push(FieldInfo::new("platform", "Platform (32 or 64 bits).", Unit::StringT));
    v.push(FieldInfo::new("linux_distro", "Linux distribution.", Unit::StringT));
    v.push(FieldInfo::new("os_version", "Operating system version.", Unit::StringT));
    v.push(FieldInfo::new("hr_name", "Human readable operating system name.", Unit::StringT));
    assert(infos_view(v@) =~= system_table());
    v
}

fn uptime_fields() -> (v: Vec<FieldInfo>)
    ensures
        infos_view(v@) == uptime_table(),
{
    let mut v: Vec<FieldInfo> = Vec::new();
    v.push(FieldInfo::new("seconds", "Seconds elapsed since the system booted.", Unit::Seconds));
    assert(infos_view(v@) =~= uptime_table());
    v
}

fn memswap_fields() -> (v: Vec<FieldInfo>)
    ensures
        infos_view(v@) == memswap_table(),
{
    let mut v: Vec<FieldInfo> = Vec::new();
    v.push(FieldInfo::new("total", "Total swap memory.", Unit::Bytes));
    v.push(FieldInfo::new("used", "Used swap memory.", Unit::Bytes));
    v.push(FieldInfo::new("free", "Free swap memory.", Unit::Bytes));
    v.push(FieldInfo::new("percent", "Used swap memory as a percentage of total.", Unit::Percent).watched_high(true));
    v.push(FieldInfo::new("sin", "Bytes the system has swapped in from disk (per second — v4 reports the cumulative counter; v5 converts it to a rate).", Unit::BytesPerSec).rate().watched_high(false));
    v.push(FieldInfo::new("sout", "Bytes the system has swapped out to disk (per second — v4 reports the cumulative counter; v5 converts it to a rate).", Unit::BytesPerSec).rate().watched_high(false));
    assert(infos_view(v@) =~= memswap_table());
    v
}

fn fs_fields() -> (v: Vec<FieldInfo>)
    ensures
        infos_view(v@) == fs_table(),
{
    let mut v: Vec<FieldInfo> = Vec::new();
    v.push(FieldInfo::new("mnt_point", "Mount point.", Unit::StringT).pk());
    v.push(FieldInfo::new("device_name", "Device name backing the filesystem (e.g. /dev/sda1).", Unit::StringT));
    v.push(FieldInfo::new("fs_type", "File system type (e.g. ext4, xfs, btrfs).", Unit::StringT).internal());
    v.push(FieldInfo::new("size", "Total size of the filesystem in bytes.", Unit::Bytes));
    v.push(FieldInfo::new("used", "Used size in bytes.", Unit::Bytes));
    v.push(FieldInfo::new("free", "Free size in bytes.", Unit::Bytes));
    v.push(FieldInfo::new("percent", "Filesystem usage as a percentage of total size.", Unit::Percent).watched_high(false));
    v.push(FieldInfo::new("alias", "Operator-defined display alias for the mount point; present only when configured.", Unit::StringT));
    assert(infos_view(v@) =~= fs_table());
    v
}

fn diskio_fields() -> (v: Vec<FieldInfo>)
    ensures
        infos_view(v@) == diskio_table(),
{
    let mut v: Vec<FieldInfo> = Vec::new();
    v.push(FieldInfo::new("disk_name", "Disk name (e.g. sda, nvme0n1).", Unit::StringT).pk());
    v.push(FieldInfo::new("read_count", "Read operations per second (rate of psutil read_count counter).", Unit::Number).rate().internal());
    v.push(FieldInfo::new("write_count", "Write operations per second (rate of psutil write_count counter).", Unit::Number).rate().internal());
    v.push(FieldInfo::new("read_bytes", "Bytes read per second (rate of psutil read_bytes counter).", Unit::BytesPerSec).rate().watched_high(false));
    v.push(FieldInfo::new("write_bytes", "Bytes written per second (rate of psutil write_bytes counter).", Unit::BytesPerSec).rate().watched_high(false));
    v.push(FieldInfo::new("alias", "Operator-defined display alias for the disk; present only when configured.", Unit::StringT));
    assert(infos_view(v@) =~= diskio_table());
    v
}

/// Every field of each plugin, in stable schema order.
pub open spec fn field_table(id: PluginId) -> Seq<InfoView> {
    match id {
        PluginId::Mem => mem_table(),
        PluginId::Cpu => cpu_table(),
        PluginId::Load => load_table(),
        PluginId::Network => network_table(),
        PluginId::System => system_table(),
        PluginId::Uptime => uptime_table(),
        PluginId::MemSwap => memswap_table(),
        PluginId::Fs => fs_table(),
        PluginId::Diskio => diskio_table(),
    }
}

/// Every field a plugin emits, in stable schema order.
pub fn fields(id: PluginId) -> (r: Vec<FieldInfo>)
    ensures
        infos_view(r@) == field_table(id),
{
    match id {
        PluginId::Mem => mem_fields(),
        PluginId::Cpu => cpu_fields(),
        PluginId::Load => load_fields(),
        PluginId::Network => network_fields(),
        PluginId::System => system_fields(),
        PluginId::Uptime => uptime_fields(),
        PluginId::MemSwap => memswap_fields(),
        PluginId::Fs => fs_fields(),
        PluginId::Diskio => diskio_fields(),
    }
}

/// The entries of `t` with `watched` set, in order.
pub open spec fn watched_of(t: Seq<InfoView>) -> Seq<InfoView>
    decreases t.len(),
{
    if t.len() == 0 {
        t
    } else {
        let w = watched_of(t.drop_last());
        if t.last().watched {
            w.push(t.last())
        } else {
            w
        }
    }
}

/// The alertable subset: the fields with `watched` set, in schema order.
/// Only these carry `_levels`, and only once a threshold is configured.
pub fn alert_fields(id: PluginId) -> (r: Vec<FieldInfo>)
    ensures
        infos_view(r@) == watched_of(field_table(id)),
{
    let all = fields(id);
    let ghost t = field_table(id);
    let mut r: Vec<FieldInfo> = Vec::new();
    let mut i: usize = 0;
    assert(t.take(0) =~= Seq::<InfoView>::empty());
    while i < all.len()
        invariant
            0 <= i <= all@.len(),
            infos_view(all@) == t,
            infos_view(r@) == watched_of(t.take(i as int)),
        decreases all@.len() - i,
    {
        let f = all[i];
        assert(t.take(i + 1).drop_last() =~= t.take(i as int));
        assert(t.take(i + 1).last() == info_view(f));
        assert(watched_of(t.take(i + 1)) == if f.watched {
            watched_of(t.take(i as int)).push(info_view(f))
        } else {
            watched_of(t.take(i as int))
        });
        if f.watched {
            r.push(f);
            assert(infos_view(r@) =~= watched_of(t.take(i as int)).push(info_view(f)));
        }
        i = i + 1;
    }
    assert(t.take(all@.len() as int) =~= t);
    r
}

/// A field's entry as the alert engine's table writes it.
pub open spec fn as_alert_entry(i: InfoView) -> (Seq<char>, bool, alerts::Direction, Option<Seq<char>>) {
    (i.field, i.prominent, match i.direction {
        Direction::High => alerts::Direction::High,
        Direction::Low => alerts::Direction::Low,
    }, i.normalize_by)
}

/// The names of the entries of `t` marked as primary key, in order.
pub open spec fn primary_keys(t: Seq<InfoView>) -> Seq<Seq<char>>
    decreases t.len(),
{
    if t.len() == 0 {
        seq![]
    } else {
        let w = primary_keys(t.drop_last());
        if t.last().primary_key {
            w.push(t.last().field)
        } else {
            w
        }
    }
}

proof fn lemma_watched_push(t: Seq<InfoView>, x: InfoView)
    ensures
        watched_of(t.push(x)) == if x.watched {
            watched_of(t).push(x)
        } else {
            watched_of(t)
        },
{
    assert(t.push(x).drop_last() =~= t);
}

proof fn lemma_keys_push(t: Seq<InfoView>, x: InfoView)
    ensures
        primary_keys(t.push(x)) == if x.primary_key {
            primary_keys(t).push(x.field)
        } else {
            primary_keys(t)
        },
{
    assert(t.push(x).drop_last() =~= t);
}

proof fn lemma_mem_watched()
    ensures
        watched_of(mem_table()).map_values(|i: InfoView| as_alert_entry(i)) == alerts::alert_table(PluginId::Mem),
{
    let t = mem_table();
    assert(t.take(0) =~= Seq::<InfoView>::empty());
    assert(t.take(1) =~= t.take(0).push(t[0]));
    lemma_watched_push(t.take(0), t[0]);
    assert(t.take(2) =~= t.take(1).push(t[1]));
    lemma_watched_push(t.take(1), t[1]);
    assert(t.take(3) =~= t.take(2).push(t[2]));
    lemma_watched_push(t.take(2), t[2]);
    assert(t.take(4) =~= t.take(3).push(t[3]));
    lemma_watched_push(t.take(3), t[3]);
    assert(t.take(5) =~= t.take(4).push(t[4]));
    lemma_watched_push(t.take(4), t[4]);
    assert(t.take(6) =~= t.take(5).push(t[5]));
    lemma_watched_push(t.take(5), t[5]);
    assert(t.take(7) =~= t.take(6).push(t[6]));
    lemma_watched_push(t.take(6), t[6]);
    assert(t.take(8) =~= t.take(7).push(t[7]));
    lemma_watched_push(t.take(7), t[7]);
    assert(t.take(9) =~= t.take(8).push(t[8]));
    lemma_watched_push(t.take(8), t[8]);
    assert(t.take(9) =~= t);
    assert(watched_of(t).map_values(|i: InfoView| as_alert_entry(i)) =~= alerts::alert_table(PluginId::Mem));
}


proof fn lemma_mem_keys()
    ensures
        primary_keys(mem_table()) == match key_field_name(PluginId::Mem) {
            Some(k) => seq![k],
            None => Seq::<Seq<char>>::empty(),
        },
{
    let t = mem_table();
    assert(t.take(0) =~= Seq::<InfoView>::empty());
    assert(t.take(1) =~= t.take(0).push(t[0]));
    lemma_keys_push(t.take(0), t[0]);
    assert(t.take(2) =~= t.take(1).push(t[1]));
    lemma_keys_push(t.take(1), t[1]);
    assert(t.take(3) =~= t.take(2).push(t[2]));
    lemma_keys_push(t.take(2), t[2]);
    assert(t.take(4) =~= t.take(3).push(t[3]));
    lemma_keys_push(t.take(3), t[3]);
    assert(t.take(5) =~= t.take(4).push(t[4]));
    lemma_keys_push(t.take(4), t[4]);
    assert(t.take(6) =~= t.take(5).push(t[5]));
    lemma_keys_push(t.take(5), t[5]);
    assert(t.take(7) =~= t.take(6).push(t[6]));
    lemma_keys_push(t.take(6), t[6]);
    assert(t.take(8) =~= t.take(7).push(t[7]));
    lemma_keys_push(t.take(7), t[7]);
    assert(t.take(9) =~= t.take(8).push(t[8]));
    lemma_keys_push(t.take(8), t[8]);
    assert(t.take(9) =~= t);
    assert(primary_keys(t) =~= match key_field_name(PluginId::Mem) {
        Some(k) => seq![k],
        None => Seq::<Seq<char>>::empty(),
    });
}


proof fn lemma_cpu_watched()
    ensures
        watched_of(cpu_table()).map_values(|i: InfoView| as_alert_entry(i)) == alerts::alert_table(PluginId::Cpu),
{
    let t = cpu_table();
    assert(t.take(0) =~= Seq::<InfoView>::empty());
    assert(t.take(1) =~= t.take(0).push(t[0]));
    lemma_watched_push(t.take(0), t[0]);
    assert(t.take(2) =~= t.take(1).push(t[1]));
    lemma_watched_push(t.take(1), t[1]);
    assert(t.take(3) =~= t.take(2).push(t[2]));
    lemma_watched_push(t.take(2), t[2]);
    assert(t.take(4) =~= t.take(3).push(t[3]));
    lemma_watched_push(t.take(3), t[3]);
    assert(t.take(5) =~= t.take(4).push(t[4]));
    lemma_watched_push(t.take(4), t[4]);
    assert(t.take(6) =~= t.take(5).push(t[5]));
    lemma_watched_push(t.take(5), t[5]);
    assert(t.take(7) =~= t.take(6).push(t[6]));
    lemma_watched_push(t.take(6), t[6]);
    assert(t.take(8) =~= t.take(7).push(t[7]));
    lemma_watched_push(t.take(7), t[7]);
    assert(t.take(9) =~= t.take(8).push(t[8]));
    lemma_watched_push(t.take(8), t[8]);
    assert(t.take(10) =~= t.take(9).push(t[9]));
    lemma_watched_push(t.take(9), t[9]);
    assert(t.take(11) =~= t.take(10).push(t[10]));
    lemma_watched_push(t.take(10), t[10]);
    assert(t.take(12) =~= t.take(11).push(t[11]));
    lemma_watched_push(t.take(11), t[11]);
    assert(t.take(13) =~= t.take(12).push(t[12]));
    lemma_watched_push(t.take(12), t[12]);
    assert(t.take(14) =~= t.take(13).push(t[13]));
    lemma_watched_push(t.take(13), t[13]);
    assert(t.take(14) =~= t);
    assert(watched_of(t).map_values(|i: InfoView| as_alert_entry(i)) =~= alerts::alert_table(PluginId::Cpu));
}


proof fn lemma_cpu_keys()
    ensures
        primary_keys(cpu_table()) == match key_field_name(PluginId::Cpu) {
            Some(k) => seq![k],
            None => Seq::<Seq<char>>::empty(),
        },
{
    let t = cpu_table();
    assert(t.take(0) =~= Seq::<InfoView>::empty());
    assert(t.take(1) =~= t.take(0).push(t[0]));
    lemma_keys_push(t.take(0), t[0]);
    assert(t.take(2) =~= t.take(1).push(t[1]));
    lemma_keys_push(t.take(1), t[1]);
    assert(t.take(3) =~= t.take(2).push(t[2]));
    lemma_keys_push(t.take(2), t[2]);
    assert(t.take(4) =~= t.take(3).push(t[3]));
    lemma_keys_push(t.take(3), t[3]);
    assert(t.take(5) =~= t.take(4).push(t[4]));
    lemma_keys_push(t.take(4), t[4]);
    assert(t.take(6) =~= t.take(5).push(t[5]));
    lemma_keys_push(t.take(5), t[5]);
    assert(t.take(7) =~= t.take(6).push(t[6]));
    lemma_keys_push(t.take(6), t[6]);
    assert(t.take(8) =~= t.take(7).push(t[7]));
    lemma_keys_push(t.take(7), t[7]);
    assert(t.take(9) =~= t.take(8).push(t[8]));
    lemma_keys_push(t.take(8), t[8]);
    assert(t.take(10) =~= t.take(9).push(t[9]));
    lemma_keys_push(t.take(9), t[9]);
    assert(t.take(11) =~= t.take(10).push(t[10]));
    lemma_keys_push(t.take(10), t[10]);
    assert(t.take(12) =~= t.take(11).push(t[11]));
    lemma_keys_push(t.take(11), t[11]);
    assert(t.take(13) =~= t.take(12).push(t[12]));
    lemma_keys_push(t.take(12), t[12]);
    assert(t.take(14) =~= t.take(13).push(t[13]));
    lemma_keys_push(t.take(13), t[13]);
    assert(t.take(14) =~= t);
    assert(primary_keys(t) =~= match key_field_name(PluginId::Cpu) {
        Some(k) => seq![k],
        None => Seq::<Seq<char>>::empty(),
    });
}


proof fn lemma_load_watched()
    ensures
        watched_of(load_table()).map_values(|i: InfoView| as_alert_entry(i)) == alerts::alert_table(PluginId::Load),
{
    let t = load_table();
    assert(t.take(0) =~= Seq::<InfoView>::empty());
    assert(t.take(1) =~= t.take(0).push(t[0]));
    lemma_watched_push(t.take(0), t[0]);
    assert(t.take(2) =~= t.take(1).push(t[1]));
    lemma_watched_push(t.take(1), t[1]);
    assert(t.take(3) =~= t.take(2).push(t[2]));
    lemma_watched_push(t.take(2), t[2]);
    assert(t.take(4) =~= t.take(3).push(t[3]));
    lemma_watched_push(t.take(3), t[3]);
    assert(t.take(4) =~= t);
    assert(watched_of(t).map_values(|i: InfoView| as_alert_entry(i)) =~= alerts::alert_table(PluginId::Load));
}


proof fn lemma_load_keys()
    ensures
        primary_keys(load_table()) == match key_field_name(PluginId::Load) {
            Some(k) => seq![k],
            None => Seq::<Seq<char>>::empty(),
        },
{
    let t = load_table();
    assert(t.take(0) =~= Seq::<InfoView>::empty());
    assert(t.take(1) =~= t.take(0).push(t[0]));
    lemma_keys_push(t.take(0), t[0]);
    assert(t.take(2) =~= t.take(1).push(t[1]));
    lemma_keys_push(t.take(1), t[1]);
    assert(t.take(3) =~= t.take(2).push(t[2]));
    lemma_keys_push(t.take(2), t[2]);
    assert(t.take(4) =~= t.take(3).push(t[3]));
    lemma_keys_push(t.take(3), t[3]);
    assert(t.take(4) =~= t);
    assert(primary_keys(t) =~= match key_field_name(PluginId::Load) {
        Some(k) => seq![k],
        None => Seq::<Seq<char>>::empty(),
    });
}


proof fn lemma_network_watched()
    ensures
        watched_of(network_table()).map_values(|i: InfoView| as_alert_entry(i)) == alerts::alert_table(PluginId::Network),
{
    let t = network_table();
    assert(t.take(0) =~= Seq::<InfoView>::empty());
    assert(t.take(1) =~= t.take(0).push(t[0]));
    lemma_watched_push(t.take(0), t[0]);
    assert(t.take(2) =~= t.take(1).push(t[1]));
    lemma_watched_push(t.take(1), t[1]);
    assert(t.take(3) =~= t.take(2).push(t[2]));
    lemma_watched_push(t.take(2), t[2]);
    assert(t.take(4) =~= t.take(3).push(t[3]));
    lemma_watched_push(t.take(3), t[3]);
    assert(t.take(5) =~= t.take(4).push(t[4]));
    lemma_watched_push(t.take(4), t[4]);
    assert(t.take(6) =~= t.take(5).push(t[5]));
    lemma_watched_push(t.take(5), t[5]);
    assert(t.take(7) =~= t.take(6).push(t[6]));
    lemma_watched_push(t.take(6), t[6]);
    assert(t.take(8) =~= t.take(7).push(t[7]));
    lemma_watched_push(t.take(7), t[7]);
    assert(t.take(8) =~= t);
    assert(watched_of(t).map_values(|i: InfoView| as_alert_entry(i)) =~= alerts::alert_table(PluginId::Network));
}


proof fn lemma_network_keys()
    ensures
        primary_keys(network_table()) == match key_field_name(PluginId::Network) {
            Some(k) => seq![k],
            None => Seq::<Seq<char>>::empty(),
        },
{
    let t = network_table();
    assert(t.take(0) =~= Seq::<InfoView>::empty());
    assert(t.take(1) =~= t.take(0).push(t[0]));
    lemma_keys_push(t.take(0), t[0]);
    assert(t.take(2) =~= t.take(1).push(t[1]));
    lemma_keys_push(t.take(1), t[1]);
    assert(t.take(3) =~= t.take(2).push(t[2]));
    lemma_keys_push(t.take(2), t[2]);
    assert(t.take(4) =~= t.take(3).push(t[3]));
    lemma_keys_push(t.take(3), t[3]);
    assert(t.take(5) =~= t.take(4).push(t[4]));
    lemma_keys_push(t.take(4), t[4]);
    assert(t.take(6) =~= t.take(5).push(t[5]));
    lemma_keys_push(t.take(5), t[5]);
    assert(t.take(7) =~= t.take(6).push(t[6]));
    lemma_keys_push(t.take(6), t[6]);
    assert(t.take(8) =~= t.take(7).push(t[7]));
    lemma_keys_push(t.take(7), t[7]);
    assert(t.take(8) =~= t);
    assert(primary_keys(t) =~= match key_field_name(PluginId::Network) {
        Some(k) => seq![k],
        None => Seq::<Seq<char>>::empty(),
    });
}


proof fn lemma_system_watched()
    ensures
        watched_of(system_table()).map_values(|i: InfoView| as_alert_entry(i)) == alerts::alert_table(PluginId::System),
{
    let t = system_table();
    assert(t.take(0) =~= Seq::<InfoView>::empty());
    assert(t.take(1) =~= t.take(0).push(t[0]));
    lemma_watched_push(t.take(0), t[0]);
    assert(t.take(2) =~= t.take(1).push(t[1]));
    lemma_watched_push(t.take(1), t[1]);
    assert(t.take(3) =~= t.take(2).push(t[2]));
    lemma_watched_push(t.take(2), t[2]);
    assert(t.take(4) =~= t.take(3).push(t[3]));
    lemma_watched_push(t.take(3), t[3]);
    assert(t.take(5) =~= t.take(4).push(t[4]));
    lemma_watched_push(t.take(4), t[4]);
    assert(t.take(6) =~= t.take(5).push(t[5]));
    lemma_watched_push(t.take(5), t[5]);
    assert(t.take(6) =~= t);
    assert(watched_of(t).map_values(|i: InfoView| as_alert_entry(i)) =~= alerts::alert_table(PluginId::System));
}


proof fn lemma_system_keys()
    ensures
        primary_keys(system_table()) == match key_field_name(PluginId::System) {
            Some(k) => seq![k],
            None => Seq::<Seq<char>>::empty(),
        },
{
    let t = system_table();
    assert(t.take(0) =~= Seq::<InfoView>::empty());
    assert(t.take(1) =~= t.take(0).push(t[0]));
    lemma_keys_push(t.take(0), t[0]);
    assert(t.take(2) =~= t.take(1).push(t[1]));
    lemma_keys_push(t.take(1), t[1]);
    assert(t.take(3) =~= t.take(2).push(t[2]));
    lemma_keys_push(t.take(2), t[2]);
    assert(t.take(4) =~= t.take(3).push(t[3]));
    lemma_keys_push(t.take(3), t[3]);
    assert(t.take(5) =~= t.take(4).push(t[4]));
    lemma_keys_push(t.take(4), t[4]);
    assert(t.take(6) =~= t.take(5).push(t[5]));
    lemma_keys_push(t.take(5), t[5]);
    assert(t.take(6) =~= t);
    assert(primary_keys(t) =~= match key_field_name(PluginId::System) {
        Some(k) => seq![k],
        None => Seq::<Seq<char>>::empty(),
    });
}


proof fn lemma_uptime_watched()
    ensures
        watched_of(uptime_table()).map_values(|i: InfoView| as_alert_entry(i)) == alerts::alert_table(PluginId::Uptime),
{
    let t = uptime_table();
    assert(t.take(0) =~= Seq::<InfoView>::empty());
    assert(t.take(1) =~= t.take(0).push(t[0]));
    lemma_watched_push(t.take(0), t[0]);
    assert(t.take(1) =~= t);
    assert(watched_of(t).map_values(|i: InfoView| as_alert_entry(i)) =~= alerts::alert_table(PluginId::Uptime));
}


proof fn lemma_uptime_keys()
    ensures
        primary_keys(uptime_table()) == match key_field_name(PluginId::Uptime) {
            Some(k) => seq![k],
            None => Seq::<Seq<char>>::empty(),
        },
{
    let t = uptime_table();
    assert(t.take(0) =~= Seq::<InfoView>::empty());
    assert(t.take(1) =~= t.take(0).push(t[0]));
    lemma_keys_push(t.take(0), t[0]);
    assert(t.take(1) =~= t);
    assert(primary_keys(t) =~= match key_field_name(PluginId::Uptime) {
        Some(k) => seq![k],
        None => Seq::<Seq<char>>::empty(),
    });
}


proof fn lemma_memswap_watched()
    ensures
        watched_of(memswap_table()).map_values(|i: InfoView| as_alert_entry(i)) == alerts::alert_table(PluginId::MemSwap),
{
    let t = memswap_table();
    assert(t.take(0) =~= Seq::<InfoView>::empty());
    assert(t.take(1) =~= t.take(0).push(t[0]));
    lemma_watched_push(t.take(0), t[0]);
    assert(t.take(2) =~= t.take(1).push(t[1]));
    lemma_watched_push(t.take(1), t[1]);
    assert(t.take(3) =~= t.take(2).push(t[2]));
    lemma_watched_push(t.take(2), t[2]);
    assert(t.take(4) =~= t.take(3).push(t[3]));
    lemma_watched_push(t.take(3), t[3]);
    assert(t.take(5) =~= t.take(4).push(t[4]));
    lemma_watched_push(t.take(4), t[4]);
    assert(t.take(6) =~= t.take(5).push(t[5]));
    lemma_watched_push(t.take(5), t[5]);
    assert(t.take(6) =~= t);
    assert(watched_of(t).map_values(|i: InfoView| as_alert_entry(i)) =~= alerts::alert_table(PluginId::MemSwap));
}


proof fn lemma_memswap_keys()
    ensures
        primary_keys(memswap_table()) == match key_field_name(PluginId::MemSwap) {
            Some(k) => seq![k],
            None => Seq::<Seq<char>>::empty(),
        },
{
    let t = memswap_table();
    assert(t.take(0) =~= Seq::<InfoView>::empty());
    assert(t.take(1) =~= t.take(0).push(t[0]));
    lemma_keys_push(t.take(0), t[0]);
    assert(t.take(2) =~= t.take(1).push(t[1]));
    lemma_keys_push(t.take(1), t[1]);
    assert(t.take(3) =~= t.take(2).push(t[2]));
    lemma_keys_push(t.take(2), t[2]);
    assert(t.take(4) =~= t.take(3).push(t[3]));
    lemma_keys_push(t.take(3), t[3]);
    assert(t.take(5) =~= t.take(4).push(t[4]));
    lemma_keys_push(t.take(4), t[4]);
    assert(t.take(6) =~= t.take(5).push(t[5]));
    lemma_keys_push(t.take(5), t[5]);
    assert(t.take(6) =~= t);
    assert(primary_keys(t) =~= match key_field_name(PluginId::MemSwap) {
        Some(k) => seq![k],
        None => Seq::<Seq<char>>::empty(),
    });
}


proof fn lemma_fs_watched()
    ensures
        watched_of(fs_table()).map_values(|i: InfoView| as_alert_entry(i)) == alerts::alert_table(PluginId::Fs),
{
    let t = fs_table();
    assert(t.take(0) =~= Seq::<InfoView>::empty());
    assert(t.take(1) =~= t.take(0).push(t[0]));
    lemma_watched_push(t.take(0), t[0]);
    assert(t.take(2) =~= t.take(1).push(t[1]));
    lemma_watched_push(t.take(1), t[1]);
    assert(t.take(3) =~= t.take(2).push(t[2]));
    lemma_watched_push(t.take(2), t[2]);
    assert(t.take(4) =~= t.take(3).push(t[3]));
    lemma_watched_push(t.take(3), t[3]);
    assert(t.take(5) =~= t.take(4).push(t[4]));
    lemma_watched_push(t.take(4), t[4]);
    assert(t.take(6) =~= t.take(5).push(t[5]));
    lemma_watched_push(t.take(5), t[5]);
    assert(t.take(7) =~= t.take(6).push(t[6]));
    lemma_watched_push(t.take(6), t[6]);
    assert(t.take(8) =~= t.take(7).push(t[7]));
    lemma_watched_push(t.take(7), t[7]);
    assert(t.take(8) =~= t);
    assert(watched_of(t).map_values(|i: InfoView| as_alert_entry(i)) =~= alerts::alert_table(PluginId::Fs));
}


proof fn lemma_fs_keys()
    ensures
        primary_keys(fs_table()) == match key_field_name(PluginId::Fs) {
            Some(k) => seq![k],
            None => Seq::<Seq<char>>::empty(),
        },
{
    let t = fs_table();
    assert(t.take(0) =~= Seq::<InfoView>::empty());
    assert(t.take(1) =~= t.take(0).push(t[0]));
    lemma_keys_push(t.take(0), t[0]);
    assert(t.take(2) =~= t.take(1).push(t[1]));
    lemma_keys_push(t.take(1), t[1]);
    assert(t.take(3) =~= t.take(2).push(t[2]));
    lemma_keys_push(t.take(2), t[2]);
    assert(t.take(4) =~= t.take(3).push(t[3]));
    lemma_keys_push(t.take(3), t[3]);
    assert(t.take(5) =~= t.take(4).push(t[4]));
    lemma_keys_push(t.take(4), t[4]);
    assert(t.take(6) =~= t.take(5).push(t[5]));
    lemma_keys_push(t.take(5), t[5]);
    assert(t.take(7) =~= t.take(6).push(t[6]));
    lemma_keys_push(t.take(6), t[6]);
    assert(t.take(8) =~= t.take(7).push(t[7]));
    lemma_keys_push(t.take(7), t[7]);
    assert(t.take(8) =~= t);
    assert(primary_keys(t) =~= match key_field_name(PluginId::Fs) {
        Some(k) => seq![k],
        None => Seq::<Seq<char>>::empty(),
    });
}


proof fn lemma_diskio_watched()
    ensures
        watched_of(diskio_table()).map_values(|i: InfoView| as_alert_entry(i)) == alerts::alert_table(PluginId::Diskio),
{
    let t = diskio_table();
    assert(t.take(0) =~= Seq::<InfoView>::empty());
    assert(t.take(1) =~= t.take(0).push(t[0]));
    lemma_watched_push(t.take(0), t[0]);
    assert(t.take(2) =~= t.take(1).push(t[1]));
    lemma_watched_push(t.take(1), t[1]);
    assert(t.take(3) =~= t.take(2).push(t[2]));
    lemma_watched_push(t.take(2), t[2]);
    assert(t.take(4) =~= t.take(3).push(t[3]));
    lemma_watched_push(t.take(3), t[3]);
    assert(t.take(5) =~= t.take(4).push(t[4]));
    lemma_watched_push(t.take(4), t[4]);
    assert(t.take(6) =~= t.take(5).push(t[5]));
    lemma_watched_push(t.take(5), t[5]);
    assert(t.take(6) =~= t);
    assert(watched_of(t).map_values(|i: InfoView| as_alert_entry(i)) =~= alerts::alert_table(PluginId::Diskio));
}


proof fn lemma_diskio_keys()
    ensures
        primary_keys(diskio_table()) == match key_field_name(PluginId::Diskio) {
            Some(k) => seq![k],
            None => Seq::<Seq<char>>::empty(),
        },
{
    let t = diskio_table();
    assert(t.take(0) =~= Seq::<InfoView>::empty());
    assert(t.take(1) =~= t.take(0).push(t[0]));
    lemma_keys_push(t.take(0), t[0]);
    assert(t.take(2) =~= t.take(1).push(t[1]));
    lemma_keys_push(t.take(1), t[1]);
    assert(t.take(3) =~= t.take(2).push(t[2]));
    lemma_keys_push(t.take(2), t[2]);
    assert(t.take(4) =~= t.take(3).push(t[3]));
    lemma_keys_push(t.take(3), t[3]);
    assert(t.take(5) =~= t.take(4).push(t[4]));
    lemma_keys_push(t.take(4), t[4]);
    assert(t.take(6) =~= t.take(5).push(t[5]));
    lemma_keys_push(t.take(5), t[5]);
    assert(t.take(6) =~= t);
    assert(primary_keys(t) =~= match key_field_name(PluginId::Diskio) {
        Some(k) => seq![k],
        None => Seq::<Seq<char>>::empty(),
    });
}

/// The watched subset of every plugin's schema is, field for field
/// (name, prominence, direction, divisor), the alert engine's table.
pub proof fn watched_fields_are_the_alert_table(id: PluginId)
    ensures
        watched_of(field_table(id)).map_values(|i: InfoView| as_alert_entry(i)) == alerts::alert_table(id),
{
    match id {
        PluginId::Mem => lemma_mem_watched(),
        PluginId::Cpu => lemma_cpu_watched(),
        PluginId::Load => lemma_load_watched(),
        PluginId::Network => lemma_network_watched(),
        PluginId::System => lemma_system_watched(),
        PluginId::Uptime => lemma_uptime_watched(),
        PluginId::MemSwap => lemma_memswap_watched(),
        PluginId::Fs => lemma_fs_watched(),
        PluginId::Diskio => lemma_diskio_watched(),
    }
}

/// A plugin's schema marks as primary key exactly its key field: one field
/// for a collection plugin, none for the others.
pub proof fn primary_key_is_key_field(id: PluginId)
    ensures
        primary_keys(field_table(id)) == match key_field_name(id) {
            Some(k) => seq![k],
            None => Seq::<Seq<char>>::empty(),
        },
{
    match id {
        PluginId::Mem => lemma_mem_keys(),
        PluginId::Cpu => lemma_cpu_keys(),
        PluginId::Load => lemma_load_keys(),
        PluginId::Network => lemma_network_keys(),
        PluginId::System => lemma_system_keys(),
        PluginId::Uptime => lemma_uptime_keys(),
        PluginId::MemSwap => lemma_memswap_keys(),
        PluginId::Fs => lemma_fs_keys(),
        PluginId::Diskio => lemma_diskio_keys(),
    }
}

/// Every plugin emits at least one field.
pub proof fn every_plugin_has_fields(id: PluginId)
    ensures
        field_table(id).len() > 0,
{
}

} // verus!
