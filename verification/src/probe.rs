//! Probe: identity info captured at spawn time.
//!
//! Captured once when the container is created, so adapter matching survives
//! post-mortem (after the root PID has exited). Platform probe modules fill
//! in the optional fields; all of them may be `None`.

use vstd::prelude::*;

use std::time::{Duration, SystemTimeError};

verus! {

#[verifier::external_type_specification]
#[verifier::external_body]
pub struct ExSystemTimeError(SystemTimeError);

#[derive(Clone, Copy, Debug, PartialEq, Eq, Hash, Structural)]
pub enum SupportedPlatform {
    Linux,
    Darwin,
    Windows,
}

impl SupportedPlatform {
    /// The platform that the target OS name (`std::env::consts::OS`)
    /// denotes, or `None` for a platform this crate doesn't support.
    pub open spec fn of_os(os: Seq<char>) -> Option<SupportedPlatform> {
        if os == "linux"@ {
            Some(SupportedPlatform::Linux)
        } else if os == "macos"@ {
            Some(SupportedPlatform::Darwin)
        } else if os == "windows"@ {
            Some(SupportedPlatform::Windows)
        } else {
            None
        }
    }

    pub fn current(os: &str) -> (r: Option<SupportedPlatform>)
        ensures
            r == SupportedPlatform::of_os(os@),
    {
        let cs = crate::text::chars_of(os);
        let linux = crate::text::chars_of("linux");
        let macos = crate::text::chars_of("macos");
        let windows = crate::text::chars_of("windows");
        if crate::text::chars_eq(cs.as_slice(), linux.as_slice()) {
            Some(SupportedPlatform::Linux)
        } else if crate::text::chars_eq(cs.as_slice(), macos.as_slice()) {
            Some(SupportedPlatform::Darwin)
        } else if crate::text::chars_eq(cs.as_slice(), windows.as_slice()) {
            Some(SupportedPlatform::Windows)
        } else {
            None
        }
    }

    /// Lower-case platform name used on the wire (`"linux"`, `"darwin"`,
    /// `"win32"`).
    pub open spec fn wire_name(self) -> Seq<char> {
        match self {
            SupportedPlatform::Linux => "linux"@,
            SupportedPlatform::Darwin => "darwin"@,
            SupportedPlatform::Windows => "win32"@,
        }
    }

    pub fn as_str(&self) -> (r: &'static str)
        ensures
            r@ == self.wire_name(),
    {
        match self {
            SupportedPlatform::Linux => "linux",
            SupportedPlatform::Darwin => "darwin",
            SupportedPlatform::Windows => "win32",
        }
    }
}

#[derive(Clone, Debug)]
pub struct Probe {
    pub pid: u32,
    pub bundle_id: Option<String>,
    pub executable_path: Option<String>,
    pub platform: SupportedPlatform,
    /// Unix timestamp (milliseconds) at capture.
    pub captured_at_ms: u64,
}

/// `UNIX_EPOCH.elapsed()`: time since the Unix epoch by the system clock.
/// Nothing is promised of the value: it is read from the clock.
#[verifier::external_body]
fn elapsed_since_epoch() -> Result<Duration, SystemTimeError> {
    std::time::UNIX_EPOCH.elapsed()
}

/// `Duration::as_millis`. Nothing is stated of the value: the duration is
/// opaque here and the only caller records it as a timestamp.
#[verifier::external_body]
fn duration_millis(d: &Duration) -> u128 {
    d.as_millis()
}

impl Probe {
    /// A probe for `pid` on `platform` with no bundle id or executable path,
    /// stamped with the current time (0 when the clock is before the epoch).
    pub fn new(pid: u32, platform: SupportedPlatform) -> (p: Probe)
        ensures
            p.pid == pid,
            p.platform == platform,
            p.bundle_id is None,
            p.executable_path is None,
    {
        let captured_at_ms: u64 = match elapsed_since_epoch() {
            Ok(d) => {
                let ms = duration_millis(&d);
                ms as u64
            },
            Err(_) => 0,
        };
        Probe { pid, bundle_id: None, executable_path: None, platform, captured_at_ms }
    }
}

} // verus!
