//! Basic facts about the machine: host name, operating system and kernel.
use vstd::prelude::*;
use sysinfo::System;
use crate::text::{push_str, text_or_empty};

verus! {

/// `sysinfo::System::host_name`: asks the operating system for the host
/// name. What comes back depends on the machine, so nothing is stated of it; a failure comes back as `None`.
#[verifier::external_body]
fn read_host_name() -> (r: Option<String>) {
    System::host_name().ok()
}

/// `sysinfo::System::name`: asks the operating system for its name. What
/// comes back depends on the machine, so nothing is stated of it; a failure comes back as `None`.
#[verifier::external_body]
fn read_os_name() -> (r: Option<String>) {
    System::name().ok()
}

/// `sysinfo::System::long_os_version`: asks the operating system for its
/// long version text. What comes back depends on the machine, so nothing is
/// stated of it; a failure comes back as `None`.
#[verifier::external_body]
fn read_long_os_version() -> (r: Option<String>) {
    System::long_os_version().ok()
}

/// `sysinfo::System::kernel_version`: asks the operating system for the
/// kernel version. What comes back depends on the machine, so nothing is
/// stated of it; a failure comes back as `None`.
#[verifier::external_body]
fn read_kernel_version() -> (r: Option<String>) {
    System::kernel_version().ok()
}

/// The text of `r`, or the empty text where the query failed.
pub fn or_default(r: Option<String>) -> (s: String)
    ensures
        s@ == text_or_empty(r),
{
    match r {
        Some(s) => s,
        None => String::new(),
    }
}

/// The basic system info.
#[derive(Debug, Clone)]
pub struct SystemInfo {
    pub hostname: String,
    pub os_name: String,
    pub os_version: String,
    pub kernel_version: String,
}

/// The report that `SystemInfo::display_text` gives for the four texts.
pub open spec fn system_info_text(
    hostname: Seq<char>,
    os_name: Seq<char>,
    os_version: Seq<char>,
    kernel_version: Seq<char>,
) -> Seq<char> {
    "=== SYSTEM INFORMATION ===\n"@ + "Hostname      : "@ + hostname + "\n"@ + "OS            : "@
        + os_name + "\n"@ + "Version       : "@ + os_version + "\n"@ + "Kernel        : "@
        + kernel_version + "\n"@
}

impl SystemInfo {
    /// Creates a new system info instance from the operating system's
    /// answers; a query that fails leaves its field empty.
    pub fn new() -> (r: SystemInfo) {
        Self::from_results(
            read_host_name(),
            read_os_name(),
            read_long_os_version(),
            read_kernel_version(),
        )
    }

    /// The system info for the answers of the four queries: each field is
    /// the text of its answer, or empty where the query failed.
    pub fn from_results(
        hostname: Option<String>,
        os_name: Option<String>,
        os_version: Option<String>,
        kernel_version: Option<String>,
    ) -> (r: SystemInfo)
        ensures
            r.hostname@ == text_or_empty(hostname),
            r.os_name@ == text_or_empty(os_name),
            r.os_version@ == text_or_empty(os_version),
            r.kernel_version@ == text_or_empty(kernel_version),
    {
        SystemInfo {
            hostname: or_default(hostname),
            os_name: or_default(os_name),
            os_version: or_default(os_version),
            kernel_version: or_default(kernel_version),
        }
    }

    /// The host name, or the empty text where it cannot be read.
    pub fn hostname() -> (r: String) {
        or_default(read_host_name())
    }

    /// The operating system's name, or the empty text where it cannot be read.
    pub fn os_name() -> (r: String) {
        or_default(read_os_name())
    }

    /// The operating system's long version, or the empty text where it
    /// cannot be read.
    pub fn os_version() -> (r: String) {
        or_default(read_long_os_version())
    }

    /// The kernel version, or the empty text where it cannot be read.
    pub fn kernel_version() -> (r: String) {
        or_default(read_kernel_version())
    }

    /// The report shown for the system info, one labelled line per field.
    pub fn display_text(&self) -> (r: String)
        ensures
            r@ == system_info_text(
                self.hostname@,
                self.os_name@,
                self.os_version@,
                self.kernel_version@,
            ),
    {
        let mut s = String::new();
        push_str(&mut s, "=== SYSTEM INFORMATION ===\n");
        push_str(&mut s, "Hostname      : ");
        push_str(&mut s, self.hostname.as_str());
        push_str(&mut s, "\n");
        push_str(&mut s, "OS            : ");
        push_str(&mut s, self.os_name.as_str());
        push_str(&mut s, "\n");
        push_str(&mut s, "Version       : ");
        push_str(&mut s, self.os_version.as_str());
        push_str(&mut s, "\n");
        push_str(&mut s, "Kernel        : ");
        push_str(&mut s, self.kernel_version.as_str());
        push_str(&mut s, "\n");
        proof {
            assert(s@ =~= system_info_text(
                self.hostname@,
                self.os_name@,
                self.os_version@,
                self.kernel_version@,
            ));
        }
        s
    }
}

} // verus!
