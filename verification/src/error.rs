//! Error types.
//!
//! Layered:
//! - `Error` is the crate's public error; every fallible operation surfaces this.
//! - `ProbeError`, `PlatformError`, `StageError`, `AdapterError` are leaf
//!   kinds that convert into `Error`.
//! - `CgroupError`, `JobObjectError` and `BundleError` belong to one
//!   platform each.
//!
//! Errors that come from the operating system are carried as the message
//! they displayed. Each type renders its message with `message()`, whose
//! contract states the text exactly.

use vstd::prelude::*;

use crate::text::{dec_chars, decimal_string};

verus! {

/// `format!("{:?}", s)`: the string in double quotes, escaped as `Debug`
/// escapes it.
pub uninterp spec fn debug_str(s: Seq<char>) -> Seq<char>;

/// Renders `s` with `str`'s `Debug` formatting. Trusted: the result is
/// whatever `format!("{:?}", s)` produces, named by `debug_str`.
#[verifier::external_body]
pub(crate) fn debug_quoted(s: &str) -> (r: String)
    ensures
        r@ == debug_str(s@),
{
    format!("{:?}", s)
}

/// `Display` of a `bool`.
pub open spec fn bool_chars(b: bool) -> Seq<char> {
    if b {
        "true"@
    } else {
        "false"@
    }
}

fn bool_string(b: bool) -> (r: String)
    ensures
        r@ == bool_chars(b),
{
    if b {
        String::from_str("true")
    } else {
        String::from_str("false")
    }
}

fn cat2(a: &str, b: &str) -> (r: String)
    ensures
        r@ == a@ + b@,
{
    let mut s = String::from_str(a);
    s.append(b);
    s
}

fn cat3(a: &str, b: &str, c: &str) -> (r: String)
    ensures
        r@ == a@ + b@ + c@,
{
    let mut s = String::from_str(a);
    s.append(b);
    s.append(c);
    s
}

fn cat4(a: &str, b: &str, c: &str, d: &str) -> (r: String)
    ensures
        r@ == a@ + b@ + c@ + d@,
{
    let mut s = String::from_str(a);
    s.append(b);
    s.append(c);
    s.append(d);
    s
}

#[derive(Debug)]
pub enum Error {
    UnsupportedPlatform(String),
    Spawn { command: String, source: String },
    Preempt { identity: String, source: String },
    InvalidIdentity(String),
    Probe(ProbeError),
    AlreadyDestroyed,
    Platform(PlatformError),
    Stage(StageError),
    Bundle(BundleError),
}

#[derive(Debug)]
pub enum ProbeError {
    Io(String),
    Subprocess { command: String, message: String },
}

#[derive(Debug)]
pub enum PlatformError {
    Cgroup(CgroupError),
    JobObject(JobObjectError),
    Io(String),
    Other(String),
}

#[derive(Debug)]
pub enum CgroupError {
    NotV2,
    NotDelegated { path: String },
    InvalidName(String),
    FreezeTimeout { path: String, target: bool, timeout_ms: u64 },
    Io(String),
    Upstream(String),
    Other(String),
}

#[derive(Debug)]
pub enum JobObjectError {
    OpenOrCreate { name: String, source: String },
    TerminatePredecessor { source: String },
    AssignProcess { source: String },
    Query { source: String },
    ResumeProcess { pid: u32, source: String },
    MissingMainThread { pid: u32 },
}

#[derive(Debug)]
pub enum StageError {
    MissingProbe(String),
    KillTree(String),
    Cgroup(CgroupError),
    JobObject(JobObjectError),
    Io(String),
    Signal(String),
    Timeout { stage: String, timeout_ms: u64 },
}

#[derive(Debug)]
pub enum AdapterError {
    Io(String),
    Serde(String),
    Callback(String),
}

#[derive(Debug)]
pub enum BundleError {
    NotADirectory { path: String },
    PlistMissing { path: String },
    PlistField { field: String, plist: String, source: String },
    OpenFailed { bundle_path: String, exit_code: Option<i32> },
    PidResolveTimeout { bundle_id: String, executable_path: String, waited_ms: u64 },
}

impl CgroupError {
    pub open spec fn text(&self) -> Seq<char> {
        match self {
            CgroupError::NotV2 => "cgroup v2 not mounted at /sys/fs/cgroup"@,
            CgroupError::NotDelegated { path } => "no write access to "@ + path@
                + ": session likely missing Delegate=yes"@,
            CgroupError::InvalidName(n) => "invalid cgroup name: "@ + debug_str(n@),
            CgroupError::FreezeTimeout { path, target, timeout_ms } => "cgroup "@ + path@
                + " did not reach frozen="@ + bool_chars(*target) + " within "@ + dec_chars(
                *timeout_ms as nat,
            ) + "ms"@,
            CgroupError::Io(m) => m@,
            CgroupError::Upstream(m) => "cgroups-rs error: "@ + m@,
            CgroupError::Other(m) => m@,
        }
    }

    pub fn message(&self) -> (r: String)
        ensures
            r@ == self.text(),
    {
        match self {
            CgroupError::NotV2 => String::from_str("cgroup v2 not mounted at /sys/fs/cgroup"),
            CgroupError::NotDelegated { path } => cat3(
                "no write access to ",
                path.as_str(),
                ": session likely missing Delegate=yes",
            ),
            CgroupError::InvalidName(n) => {
                let q = debug_quoted(n.as_str());
                cat2("invalid cgroup name: ", q.as_str())
            },
            CgroupError::FreezeTimeout { path, target, timeout_ms } => {
                let t = bool_string(*target);
                let ms = decimal_string(*timeout_ms as u128);
                let mut s = cat4("cgroup ", path.as_str(), " did not reach frozen=", t.as_str());
                s.append(" within ");
                s.append(ms.as_str());
                s.append("ms");
                s
            },
            CgroupError::Io(m) => m.clone(),
            CgroupError::Upstream(m) => cat2("cgroups-rs error: ", m.as_str()),
            CgroupError::Other(m) => m.clone(),
        }
    }
}

impl JobObjectError {
    pub open spec fn text(&self) -> Seq<char> {
        match self {
            JobObjectError::OpenOrCreate { name, .. } => "failed to open or create job object "@
                + debug_str(name@),
            JobObjectError::TerminatePredecessor { .. } => "failed to terminate predecessor job"@,
            JobObjectError::AssignProcess { .. } => "failed to assign process to job"@,
            JobObjectError::Query { .. } => "failed to query job information"@,
            JobObjectError::ResumeProcess { pid, .. } => "failed to resume process "@ + dec_chars(
                *pid as nat,
            ),
            JobObjectError::MissingMainThread { pid } => "no main thread found for process "@
                + dec_chars(*pid as nat),
        }
    }

    pub fn message(&self) -> (r: String)
        ensures
            r@ == self.text(),
    {
        match self {
            JobObjectError::OpenOrCreate { name, .. } => {
                let q = debug_quoted(name.as_str());
                cat2("failed to open or create job object ", q.as_str())
            },
            JobObjectError::TerminatePredecessor { .. } => String::from_str(
                "failed to terminate predecessor job",
            ),
            JobObjectError::AssignProcess { .. } => String::from_str(
                "failed to assign process to job",
            ),
            JobObjectError::Query { .. } => String::from_str("failed to query job information"),
            JobObjectError::ResumeProcess { pid, .. } => {
                let p = decimal_string(*pid as u128);
                cat2("failed to resume process ", p.as_str())
            },
            JobObjectError::MissingMainThread { pid } => {
                let p = decimal_string(*pid as u128);
                cat2("no main thread found for process ", p.as_str())
            },
        }
    }
}

impl ProbeError {
    pub open spec fn text(&self) -> Seq<char> {
        match self {
            ProbeError::Io(m) => m@,
            ProbeError::Subprocess { command, message } => "subprocess "@ + command@
                + " failed: "@ + message@,
        }
    }

    pub fn message(&self) -> (r: String)
        ensures
            r@ == self.text(),
    {
        match self {
            ProbeError::Io(m) => m.clone(),
            ProbeError::Subprocess { command, message } => cat4(
                "subprocess ",
                command.as_str(),
                " failed: ",
                message.as_str(),
            ),
        }
    }
}

impl PlatformError {
    pub open spec fn text(&self) -> Seq<char> {
        match self {
            PlatformError::Cgroup(e) => e.text(),
            PlatformError::JobObject(e) => e.text(),
            PlatformError::Io(m) => m@,
            PlatformError::Other(m) => "platform subsystem error: "@ + m@,
        }
    }

    pub fn message(&self) -> (r: String)
        ensures
            r@ == self.text(),
    {
        match self {
            PlatformError::Cgroup(e) => e.message(),
            PlatformError::JobObject(e) => e.message(),
            PlatformError::Io(m) => m.clone(),
            PlatformError::Other(m) => cat2("platform subsystem error: ", m.as_str()),
        }
    }
}

impl StageError {
    pub open spec fn text(&self) -> Seq<char> {
        match self {
            StageError::MissingProbe(f) => "missing probe field: "@ + f@,
            StageError::KillTree(m) => m@,
            StageError::Cgroup(e) => e.text(),
            StageError::JobObject(e) => e.text(),
            StageError::Io(m) => m@,
            StageError::Signal(m) => "signal delivery failed: "@ + m@,
            StageError::Timeout { stage, timeout_ms } => "stage "@ + stage@ + " timed out after "@
                + dec_chars(*timeout_ms as nat) + "ms"@,
        }
    }

    pub fn message(&self) -> (r: String)
        ensures
            r@ == self.text(),
    {
        match self {
            StageError::MissingProbe(f) => cat2("missing probe field: ", f.as_str()),
            StageError::KillTree(m) => m.clone(),
            StageError::Cgroup(e) => e.message(),
            StageError::JobObject(e) => e.message(),
            StageError::Io(m) => m.clone(),
            StageError::Signal(m) => cat2("signal delivery failed: ", m.as_str()),
            StageError::Timeout { stage, timeout_ms } => {
                let ms = decimal_string(*timeout_ms as u128);
                let mut s = cat4("stage ", stage.as_str(), " timed out after ", ms.as_str());
                s.append("ms");
                s
            },
        }
    }
}

impl AdapterError {
    pub open spec fn text(&self) -> Seq<char> {
        match self {
            AdapterError::Io(m) => m@,
            AdapterError::Serde(m) => m@,
            AdapterError::Callback(m) => "adapter callback failed: "@ + m@,
        }
    }

    pub fn message(&self) -> (r: String)
        ensures
            r@ == self.text(),
    {
        match self {
            AdapterError::Io(m) => m.clone(),
            AdapterError::Serde(m) => m.clone(),
            AdapterError::Callback(m) => cat2("adapter callback failed: ", m.as_str()),
        }
    }
}

impl BundleError {
    pub open spec fn text(&self) -> Seq<char> {
        match self {
            BundleError::NotADirectory { path } => "bundle path "@ + path@
                + " is not a directory"@,
            BundleError::PlistMissing { path } => "missing Info.plist at "@ + path@,
            BundleError::PlistField { field, plist, .. } => "failed to read "@ + field@
                + " from "@ + plist@,
            BundleError::OpenFailed { bundle_path, .. } => "open failed for "@ + bundle_path@,
            BundleError::PidResolveTimeout { bundle_id, waited_ms, .. } =>
                "could not resolve the pid of "@ + bundle_id@ + " within "@ + dec_chars(
                *waited_ms as nat,
            ) + "ms"@,
        }
    }

    pub fn message(&self) -> (r: String)
        ensures
            r@ == self.text(),
    {
        match self {
            BundleError::NotADirectory { path } => cat3(
                "bundle path ",
                path.as_str(),
                " is not a directory",
            ),
            BundleError::PlistMissing { path } => cat2("missing Info.plist at ", path.as_str()),
            BundleError::PlistField { field, plist, .. } => cat4(
                "failed to read ",
                field.as_str(),
                " from ",
                plist.as_str(),
            ),
            BundleError::OpenFailed { bundle_path, .. } => cat2(
                "open failed for ",
                bundle_path.as_str(),
            ),
            BundleError::PidResolveTimeout { bundle_id, waited_ms, .. } => {
                let ms = decimal_string(*waited_ms as u128);
                let mut s = cat4(
                    "could not resolve the pid of ",
                    bundle_id.as_str(),
                    " within ",
                    ms.as_str(),
                );
                s.append("ms");
                s
            },
        }
    }
}

impl Error {
    pub open spec fn text(&self) -> Seq<char> {
        match self {
            Error::UnsupportedPlatform(p) => "platform "@ + p@ + " is not supported"@,
            Error::Spawn { command, .. } => "failed to spawn "@ + command@,
            Error::Preempt { identity, .. } => "failed to preempt prior instance of identity "@
                + debug_str(identity@),
            Error::InvalidIdentity(m) => "invalid identity: "@ + m@,
            Error::Probe(e) => e.text(),
            Error::AlreadyDestroyed => "container has already been destroyed"@,
            Error::Platform(e) => e.text(),
            Error::Stage(e) => e.text(),
            Error::Bundle(e) => e.text(),
        }
    }

    /// The error's message, as its `Display` would render it.
    pub fn message(&self) -> (r: String)
        ensures
            r@ == self.text(),
    {
        match self {
            Error::UnsupportedPlatform(p) => cat3("platform ", p.as_str(), " is not supported"),
            Error::Spawn { command, .. } => cat2("failed to spawn ", command.as_str()),
            Error::Preempt { identity, .. } => {
                let q = debug_quoted(identity.as_str());
                cat2("failed to preempt prior instance of identity ", q.as_str())
            },
            Error::InvalidIdentity(m) => cat2("invalid identity: ", m.as_str()),
            Error::Probe(e) => e.message(),
            Error::AlreadyDestroyed => String::from_str("container has already been destroyed"),
            Error::Platform(e) => e.message(),
            Error::Stage(e) => e.message(),
            Error::Bundle(e) => e.message(),
        }
    }

    /// Stable code that the Node bindings attach to a thrown error.
    pub open spec fn code_text(&self) -> Seq<char> {
        match self {
            Error::UnsupportedPlatform(_) => "UNSUPPORTED_PLATFORM"@,
            Error::Spawn { .. } => "SPAWN_FAILED"@,
            Error::Preempt { .. } => "PREEMPT_FAILED"@,
            Error::InvalidIdentity(_) => "INVALID_IDENTITY"@,
            Error::Probe(_) => "PROBE_FAILED"@,
            Error::AlreadyDestroyed => "ALREADY_DESTROYED"@,
            Error::Platform(_) => "PLATFORM_ERROR"@,
            Error::Stage(_) => "STAGE_ERROR"@,
            Error::Bundle(_) => "BUNDLE_ERROR"@,
        }
    }

    pub fn code(&self) -> (r: &'static str)
        ensures
            r@ == self.code_text(),
    {
        match self {
            Error::UnsupportedPlatform(_) => "UNSUPPORTED_PLATFORM",
            Error::Spawn { .. } => "SPAWN_FAILED",
            Error::Preempt { .. } => "PREEMPT_FAILED",
            Error::InvalidIdentity(_) => "INVALID_IDENTITY",
            Error::Probe(_) => "PROBE_FAILED",
            Error::AlreadyDestroyed => "ALREADY_DESTROYED",
            Error::Platform(_) => "PLATFORM_ERROR",
            Error::Stage(_) => "STAGE_ERROR",
            Error::Bundle(_) => "BUNDLE_ERROR",
        }
    }

    /// Whether the Node bindings report this error as an invalid argument
    /// (the other errors are generic failures).
    pub open spec fn spec_is_invalid_arg(&self) -> bool {
        match self {
            Error::Spawn { .. } | Error::InvalidIdentity(_) | Error::AlreadyDestroyed
            | Error::Bundle(_) => true,
            _ => false,
        }
    }

    pub fn is_invalid_arg(&self) -> (r: bool)
        ensures
            r == self.spec_is_invalid_arg(),
    {
        match self {
            Error::Spawn { .. } | Error::InvalidIdentity(_) | Error::AlreadyDestroyed
            | Error::Bundle(_) => true,
            _ => false,
        }
    }

    /// `"<code>: <message>"`, the reason a thrown Node error carries.
    pub fn napi_reason(&self) -> (r: String)
        ensures
            r@ == self.code_text() + ": "@ + self.text(),
    {
        let m = self.message();
        cat3(self.code(), ": ", m.as_str())
    }
}

impl From<ProbeError> for Error {
    fn from(e: ProbeError) -> (r: Error)
        ensures
            r == Error::Probe(e),
    {
        Error::Probe(e)
    }
}

impl vstd::std_specs::convert::FromSpecImpl<ProbeError> for Error {
    open spec fn obeys_from_spec() -> bool {
        true
    }

    open spec fn from_spec(e: ProbeError) -> Error {
        Error::Probe(e)
    }
}

impl From<PlatformError> for Error {
    fn from(e: PlatformError) -> (r: Error)
        ensures
            r == Error::Platform(e),
    {
        Error::Platform(e)
    }
}

impl vstd::std_specs::convert::FromSpecImpl<PlatformError> for Error {
    open spec fn obeys_from_spec() -> bool {
        true
    }

    open spec fn from_spec(e: PlatformError) -> Error {
        Error::Platform(e)
    }
}

impl From<StageError> for Error {
    fn from(e: StageError) -> (r: Error)
        ensures
            r == Error::Stage(e),
    {
        Error::Stage(e)
    }
}

impl vstd::std_specs::convert::FromSpecImpl<StageError> for Error {
    open spec fn obeys_from_spec() -> bool {
        true
    }

    open spec fn from_spec(e: StageError) -> Error {
        Error::Stage(e)
    }
}

impl From<CgroupError> for PlatformError {
    fn from(e: CgroupError) -> (r: PlatformError)
        ensures
            r == PlatformError::Cgroup(e),
    {
        PlatformError::Cgroup(e)
    }
}

impl vstd::std_specs::convert::FromSpecImpl<CgroupError> for PlatformError {
    open spec fn obeys_from_spec() -> bool {
        true
    }

    open spec fn from_spec(e: CgroupError) -> PlatformError {
        PlatformError::Cgroup(e)
    }
}

impl From<CgroupError> for StageError {
    fn from(e: CgroupError) -> (r: StageError)
        ensures
            r == StageError::Cgroup(e),
    {
        StageError::Cgroup(e)
    }
}

impl vstd::std_specs::convert::FromSpecImpl<CgroupError> for StageError {
    open spec fn obeys_from_spec() -> bool {
        true
    }

    open spec fn from_spec(e: CgroupError) -> StageError {
        StageError::Cgroup(e)
    }
}

} // verus!
