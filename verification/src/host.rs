//! The operating systems that games are detected on.

use vstd::prelude::*;

verus! {

/// The operating system the program runs on.
#[derive(Debug, Clone, Copy, PartialEq, Eq, Structural)]
pub enum HostOs {
    Windows,
    Linux,
    MacOs,
    Other,
}

impl HostOs {
    /// The name that the local catalog uses for the system.
    pub open spec fn catalog_label(self) -> Seq<char> {
        match self {
            HostOs::Windows => "windows"@,
            HostOs::Linux => "linux"@,
            HostOs::MacOs => "other"@,
            HostOs::Other => "other"@,
        }
    }

    /// The name that the Discord catalog uses for the system.
    pub open spec fn discord_label(self) -> Seq<char> {
        match self {
            HostOs::Windows => "win32"@,
            HostOs::Linux => "linux"@,
            HostOs::MacOs => "darwin"@,
            HostOs::Other => "other"@,
        }
    }
}

/// The name that the local catalog uses for `host`.
pub fn current_os_label(host: HostOs) -> (r: &'static str)
    ensures
        r@ == host.catalog_label(),
{
    match host {
        HostOs::Windows => "windows",
        HostOs::Linux => "linux",
        HostOs::MacOs => "other",
        HostOs::Other => "other",
    }
}

/// The name that the Discord catalog uses for `host`.
pub fn current_discord_os(host: HostOs) -> (r: &'static str)
    ensures
        r@ == host.discord_label(),
{
    match host {
        HostOs::Windows => "win32",
        HostOs::Linux => "linux",
        HostOs::MacOs => "darwin",
        HostOs::Other => "other",
    }
}

} // verus!
