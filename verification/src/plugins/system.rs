//! `system` plugin: host and operating system identity.
use vstd::prelude::*;
use crate::config::Config;
use crate::num::Num;
use crate::text::{push_str, str_eq};

verus! {

/// The `system` plugin: its collection period.
pub struct SystemPlugin {
    pub refresh: Num,
}

impl SystemPlugin {
    pub fn new(config: &Config) -> (p: Self)
        ensures
            p.refresh == config.refresh_seconds("system"@),
    {
        SystemPlugin { refresh: config.refresh_for("system") }
    }
}

/// The Glances name of an operating system from Rust's name for it
/// (`std::env::consts::OS`); other names pass through.
pub open spec fn os_display(os: Seq<char>) -> Seq<char> {
    if os == "linux"@ {
        "Linux"@
    } else if os == "macos"@ {
        "Darwin"@
    } else if os == "windows"@ {
        "Windows"@
    } else if os == "freebsd"@ {
        "FreeBSD"@
    } else if os == "openbsd"@ {
        "OpenBSD"@
    } else if os == "netbsd"@ {
        "NetBSD"@
    } else {
        os
    }
}

pub fn os_name(os: &str) -> (r: String)
    ensures
        r@ == os_display(os@),
{
    if str_eq(os, "linux") {
        "Linux".to_owned()
    } else if str_eq(os, "macos") {
        "Darwin".to_owned()
    } else if str_eq(os, "windows") {
        "Windows".to_owned()
    } else if str_eq(os, "freebsd") {
        "FreeBSD".to_owned()
    } else if str_eq(os, "openbsd") {
        "OpenBSD".to_owned()
    } else if str_eq(os, "netbsd") {
        "NetBSD".to_owned()
    } else {
        os.to_owned()
    }
}

/// The platform word for a pointer width.
pub open spec fn platform_name(bits: u32) -> Seq<char> {
    if bits == 64 {
        "64bit"@
    } else if bits == 32 {
        "32bit"@
    } else {
        "unknown"@
    }
}

/// `64bit` or `32bit`, by the width of a pointer on this machine.
pub fn platform_bits() -> (r: &'static str)
    ensures
        r@ == platform_name(usize::BITS),
{
    if usize::BITS == 64 {
        "64bit"
    } else if usize::BITS == 32 {
        "32bit"
    } else {
        "unknown"
    }
}

/// `"{distro} {platform} / {os_name} {os_version}"`, the human-readable
/// system name on Linux.
pub fn hr_name(distro: &str, platform: &str, os_name: &str, os_version: &str) -> (r: String)
    ensures
        r@ == distro@ + " "@ + platform@ + " / "@ + os_name@ + " "@ + os_version@,
{
    let mut r = String::new();
    push_str(&mut r, distro);
    push_str(&mut r, " ");
    push_str(&mut r, platform);
    push_str(&mut r, " / ");
    push_str(&mut r, os_name);
    push_str(&mut r, " ");
    push_str(&mut r, os_version);
    r
}

} // verus!
