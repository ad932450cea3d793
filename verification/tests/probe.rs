use uncontainerizable::probe::{Probe, SupportedPlatform};

#[test]
fn supported_platform_current_is_some_on_supported_targets() {
    // The target OS name (`std::env::consts::OS`) of a supported target.
    let current = SupportedPlatform::current("linux");
    assert!(current.is_some());
    assert_eq!(SupportedPlatform::current("amiga"), None);
}

#[test]
fn probe_new_captures_pid_and_platform() {
    let platform = SupportedPlatform::current("linux").unwrap_or(SupportedPlatform::Linux);
    let probe = Probe::new(42, platform);
    assert_eq!(probe.pid, 42);
    assert_eq!(probe.platform, platform);
    assert!(probe.bundle_id.is_none());
    assert!(probe.executable_path.is_none());
}

#[test]
fn probe_new_stamps_the_clock() {
    let probe = Probe::new(1, SupportedPlatform::Linux);
    // Any run of this test happens after 2020-01-01.
    assert!(probe.captured_at_ms > 1_577_836_800_000);
}

#[test]
fn platform_names() {
    assert_eq!(SupportedPlatform::current("linux"), Some(SupportedPlatform::Linux));
    assert_eq!(SupportedPlatform::current("macos"), Some(SupportedPlatform::Darwin));
    assert_eq!(SupportedPlatform::current("windows"), Some(SupportedPlatform::Windows));
    assert_eq!(SupportedPlatform::Linux.as_str(), "linux");
    assert_eq!(SupportedPlatform::Darwin.as_str(), "darwin");
    assert_eq!(SupportedPlatform::Windows.as_str(), "win32");
}
