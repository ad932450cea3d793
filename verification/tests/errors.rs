use uncontainerizable::error::{
    AdapterError, BundleError, CgroupError, Error, JobObjectError, PlatformError, ProbeError,
    StageError,
};

#[test]
fn unsupported_platform_renders_message() {
    let e = Error::UnsupportedPlatform("amiga".into());
    assert_eq!(e.message(), "platform amiga is not supported");
}

#[test]
fn invalid_identity_renders_message() {
    let e = Error::InvalidIdentity("empty".into());
    assert_eq!(e.message(), "invalid identity: empty");
}

#[test]
fn already_destroyed_renders_message() {
    let e = Error::AlreadyDestroyed;
    assert_eq!(e.message(), "container has already been destroyed");
}

#[test]
fn probe_error_converts_into_error() {
    let inner = ProbeError::Subprocess {
        command: "ps".into(),
        message: "boom".into(),
    };
    let wrapped: Error = inner.into();
    assert!(matches!(wrapped, Error::Probe(_)));
}

#[test]
fn transparent_errors_render_their_source() {
    let e = Error::Probe(ProbeError::Subprocess {
        command: "ps".into(),
        message: "boom".into(),
    });
    assert_eq!(e.message(), "subprocess ps failed: boom");
    let e = Error::Stage(StageError::Timeout {
        stage: "sigterm_tree".into(),
        timeout_ms: 2000,
    });
    assert_eq!(e.message(), "stage sigterm_tree timed out after 2000ms");
    let e = Error::Platform(PlatformError::Cgroup(CgroupError::FreezeTimeout {
        path: "/sys/fs/cgroup/x".into(),
        target: true,
        timeout_ms: 1000,
    }));
    assert_eq!(
        e.message(),
        "cgroup /sys/fs/cgroup/x did not reach frozen=true within 1000ms"
    );
    let e = Error::Platform(PlatformError::Other("gone".into()));
    assert_eq!(e.message(), "platform subsystem error: gone");
    let e = Error::Stage(StageError::Signal("EPERM: Operation not permitted".into()));
    assert_eq!(e.message(), "signal delivery failed: EPERM: Operation not permitted");
    let e = Error::Stage(StageError::MissingProbe("cgroup path".into()));
    assert_eq!(e.message(), "missing probe field: cgroup path");
}

#[test]
fn quoted_names_use_debug_formatting() {
    let e = Error::Preempt {
        identity: "com.example:run".into(),
        source: "busy".into(),
    };
    assert_eq!(
        e.message(),
        "failed to preempt prior instance of identity \"com.example:run\""
    );
    let e = CgroupError::InvalidName("..".into());
    assert_eq!(e.message(), "invalid cgroup name: \"..\"");
    let e = JobObjectError::OpenOrCreate {
        name: "a\"b".into(),
        source: "denied".into(),
    };
    assert_eq!(e.message(), "failed to open or create job object \"a\\\"b\"");
}

#[test]
fn adapter_and_bundle_errors_render() {
    assert_eq!(
        AdapterError::Callback("nope".into()).message(),
        "adapter callback failed: nope"
    );
    assert_eq!(AdapterError::Io("disk".into()).message(), "disk");
    let e = BundleError::PidResolveTimeout {
        bundle_id: "com.example.App".into(),
        executable_path: "/A.app/Contents/MacOS/A".into(),
        waited_ms: 3001,
    };
    assert_eq!(
        e.message(),
        "could not resolve the pid of com.example.App within 3001ms"
    );
}

#[test]
fn codes_and_argument_classification() {
    let cases: Vec<(Error, &str, bool)> = vec![
        (Error::UnsupportedPlatform("x".into()), "UNSUPPORTED_PLATFORM", false),
        (
            Error::Spawn {
                command: "x".into(),
                source: "y".into(),
            },
            "SPAWN_FAILED",
            true,
        ),
        (
            Error::Preempt {
                identity: "x".into(),
                source: "y".into(),
            },
            "PREEMPT_FAILED",
            false,
        ),
        (Error::InvalidIdentity("x".into()), "INVALID_IDENTITY", true),
        (Error::Probe(ProbeError::Io("x".into())), "PROBE_FAILED", false),
        (Error::AlreadyDestroyed, "ALREADY_DESTROYED", true),
        (Error::Platform(PlatformError::Io("x".into())), "PLATFORM_ERROR", false),
        (Error::Stage(StageError::Io("x".into())), "STAGE_ERROR", false),
    ];
    for (e, code, invalid) in cases {
        assert_eq!(e.code(), code);
        assert_eq!(e.is_invalid_arg(), invalid);
    }
    assert_eq!(
        Error::AlreadyDestroyed.napi_reason(),
        "ALREADY_DESTROYED: container has already been destroyed"
    );
}
