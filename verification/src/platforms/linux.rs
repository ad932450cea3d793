//! Linux: cgroup v2 naming and control-file parsing, and the quit ladder.
//!
//! Identity preemption is cgroup v2: the cgroup directory itself is the
//! kernel-backed source of truth. The quit ladder is two stages (SIGTERM
//! then SIGKILL), both delivered race-free through freeze / signal / thaw.

use vstd::prelude::*;

use crate::container::StageSpec;
use crate::error::CgroupError;
use crate::text::{
    chars_eq, chars_of, dec_chars, dec_digits, decimal_string, filter_map, find_prefixed,
    find_prefixed_line, join_path, lemma_filter_map_push, lines, lines_of, parse_u32,
    parse_u32_chars, path_join, some_line_equals, some_line_is, string_from_chars, strip_leading,
    strip_leading_chars, trim, trimmed, views,
};

verus! {

pub const UNIFIED_ROOT: &'static str = "/sys/fs/cgroup";
pub const SUBGROUP_SEGMENT: &'static str = "uncontainerizable";
pub const FREEZE_TIMEOUT_MS: u64 = 1000;
pub const REAP_TIMEOUT_MS: u64 = 500;

// ---------------------------------------------------------------------
// Naming
// ---------------------------------------------------------------------

/// An identity with every `':'` turned into `'.'`.
pub open spec fn colons_to_dots(s: Seq<char>) -> Seq<char> {
    s.map_values(|c: char| if c == ':' { '.' } else { c })
}

/// Only `:` is rewritten (to `.`): every other character, `_` among them,
/// stays as it is, and the length is kept.
pub proof fn law_colons_to_dots(s: Seq<char>, i: int)
    requires
        0 <= i < s.len(),
    ensures
        colons_to_dots(s).len() == s.len(),
        colons_to_dots(s)[i] == (if s[i] == ':' {
            '.'
        } else {
            s[i]
        }),
{
}

/// Two identities share a cgroup directory only when they differ at most
/// by `:` against `.`: a difference anywhere else (`web_worker` against
/// `web.worker`, say) gives different directories.
pub proof fn law_cgroup_names_keep_identities_apart(a: Seq<char>, b: Seq<char>, i: int)
    requires
        a.len() == b.len(),
        0 <= i < a.len(),
        a[i] != b[i],
        !(a[i] == ':' && b[i] == '.') && !(a[i] == '.' && b[i] == ':'),
    ensures
        colons_to_dots(a) != colons_to_dots(b),
{
    law_colons_to_dots(a, i);
    law_colons_to_dots(b, i);
}

pub open spec fn reserved_dir_name(s: Seq<char>) -> bool {
    s.len() == 0 || s == seq!['.'] || s == seq!['.', '.']
}

/// The directory name of an identity's cgroup: the identity with `':'`
/// turned into `'.'`; refused with `InvalidName` when that is empty, `.`
/// or `..`.
pub fn sanitize_for_cgroup(identity: &str) -> (r: Result<String, CgroupError>)
    ensures
        match r {
            Ok(s) => s@ == colons_to_dots(identity@) && !reserved_dir_name(s@),
            Err(CgroupError::InvalidName(n)) => n@ == identity@ && reserved_dir_name(
                colons_to_dots(identity@),
            ),
            Err(_) => false,
        },
{
    let cs = chars_of(identity);
    let mut out: Vec<char> = Vec::new();
    let mut i: usize = 0;
    while i < cs.len()
        invariant
            i <= cs@.len(),
            cs@ == identity@,
            out@ == colons_to_dots(cs@.take(i as int)),
        decreases cs.len() - i,
    {
        let c = cs[i];
        out.push(if c == ':' {
            '.'
        } else {
            c
        });
        i += 1;
        assert(out@ =~= colons_to_dots(cs@.take(i as int)));
    }
    assert(cs@.take(cs@.len() as int) =~= cs@);
    let is_dot = out.len() == 1 && out[0] == '.';
    let is_dotdot = out.len() == 2 && out[0] == '.' && out[1] == '.';
    assert(reserved_dir_name(out@) == (out.len() == 0 || is_dot || is_dotdot)) by {
        if out@ == seq!['.'] {
            assert(out@[0] == '.');
        }
        if is_dot {
            assert(out@ =~= seq!['.']);
        }
        if out@ == seq!['.', '.'] {
            assert(out@[0] == '.' && out@[1] == '.');
        }
        if is_dotdot {
            assert(out@ =~= seq!['.', '.']);
        }
    }
    if out.len() == 0 || is_dot || is_dotdot {
        return Err(CgroupError::InvalidName(String::from_str(identity)));
    }
    Ok(string_from_chars(out.as_slice()))
}

/// The cgroup directory of the calling process, from the text of
/// `/proc/<pid>/cgroup`: the unified hierarchy's `0::<path>` entry, placed
/// under `/sys/fs/cgroup`. `None` when there is no such entry (no cgroup v2).
pub open spec fn cgroup_dir_from_proc(raw: Seq<char>) -> Option<Seq<char>> {
    match find_prefixed(lines(raw), "0::"@) {
        Some(rel) => Some(path_join(UNIFIED_ROOT@, strip_leading(rel, '/'))),
        None => None,
    }
}

pub fn cgroup_path_from_proc(raw: &str) -> (r: Option<String>)
    ensures
        match r {
            Some(p) => cgroup_dir_from_proc(raw@) == Some(p@),
            None => cgroup_dir_from_proc(raw@) is None,
        },
{
    let ls = lines_of(raw);
    let marker = chars_of("0::");
    match find_prefixed_line(&ls, marker.as_slice()) {
        Some(rel) => {
            let rel = strip_leading_chars(rel.as_slice(), '/');
            let root = chars_of(UNIFIED_ROOT);
            Some(join_path(root.as_slice(), rel.as_slice()))
        },
        None => None,
    }
}

/// The cgroup directory for `identity` under the cgroup at `base`.
pub open spec fn identity_cgroup_dir(base: Seq<char>, identity: Seq<char>) -> Seq<char> {
    path_join(path_join(base, SUBGROUP_SEGMENT@), colons_to_dots(identity))
}

/// Where `open_or_replace` puts the cgroup of `identity`; refused like
/// `sanitize_for_cgroup`.
pub fn identity_cgroup_path(base: &str, identity: &str) -> (r: Result<String, CgroupError>)
    ensures
        match r {
            Ok(p) => p@ == identity_cgroup_dir(base@, identity@) && !reserved_dir_name(
                colons_to_dots(identity@),
            ),
            Err(CgroupError::InvalidName(n)) => n@ == identity@ && reserved_dir_name(
                colons_to_dots(identity@),
            ),
            Err(_) => false,
        },
{
    let name = sanitize_for_cgroup(identity)?;
    let b = chars_of(base);
    let seg = chars_of(SUBGROUP_SEGMENT);
    let parent = join_path(b.as_slice(), seg.as_slice());
    let pc = chars_of(parent.as_str());
    let nc = chars_of(name.as_str());
    Ok(join_path(pc.as_slice(), nc.as_slice()))
}

/// Where `open_or_replace` puts the cgroup of `identity`, given the text of
/// `/proc/self/cgroup`: under the session's own cgroup v2 directory, in
/// `uncontainerizable/<identity with ':' as '.'>`. Refused with
/// `InvalidName` as `sanitize_for_cgroup` refuses, otherwise with `NotV2`
/// when the text has no cgroup v2 entry.
pub fn identity_cgroup_path_for(proc_self_cgroup: &str, identity: &str) -> (r: Result<
    String,
    CgroupError,
>)
    ensures
        match r {
            Ok(p) => !reserved_dir_name(colons_to_dots(identity@)) && (cgroup_dir_from_proc(
                proc_self_cgroup@,
            ) matches Some(base) && p@ == identity_cgroup_dir(base, identity@)),
            Err(CgroupError::InvalidName(n)) => n@ == identity@ && reserved_dir_name(
                colons_to_dots(identity@),
            ),
            Err(CgroupError::NotV2) => !reserved_dir_name(colons_to_dots(identity@))
                && cgroup_dir_from_proc(proc_self_cgroup@) is None,
            Err(_) => false,
        },
{
    let _ = sanitize_for_cgroup(identity)?;
    match cgroup_path_from_proc(proc_self_cgroup) {
        Some(base) => identity_cgroup_path(base.as_str(), identity),
        None => Err(CgroupError::NotV2),
    }
}

/// Name of an anonymous cgroup: `anon-<pid>-<nanos>`.
pub open spec fn anonymous_name(pid: u32, nanos: u128) -> Seq<char> {
    "anon-"@ + dec_chars(pid as nat) + "-"@ + dec_chars(nanos as nat)
}

/// Where `create_anonymous` puts a scratch cgroup.
pub fn anonymous_cgroup_path(base: &str, pid: u32, nanos: u128) -> (r: String)
    ensures
        r@ == path_join(path_join(base@, SUBGROUP_SEGMENT@), anonymous_name(pid, nanos)),
{
    let mut name = String::from_str("anon-");
    let p = decimal_string(pid as u128);
    name.append(p.as_str());
    name.append("-");
    let n = decimal_string(nanos);
    name.append(n.as_str());
    let b = chars_of(base);
    let seg = chars_of(SUBGROUP_SEGMENT);
    let parent = join_path(b.as_slice(), seg.as_slice());
    let pc = chars_of(parent.as_str());
    let nc = chars_of(name.as_str());
    join_path(pc.as_slice(), nc.as_slice())
}

// ---------------------------------------------------------------------
// A cgroup directory
// ---------------------------------------------------------------------

/// A cgroup v2 directory owned by this supervisor.
#[derive(Debug)]
pub struct Cgroup {
    path: String,
}

impl View for Cgroup {
    type V = Seq<char>;

    closed spec fn view(&self) -> Seq<char> {
        self.path@
    }
}

impl Cgroup {
    pub fn at(path: String) -> (c: Cgroup)
        ensures
            c@ == path@,
    {
        Cgroup { path }
    }

    pub fn path(&self) -> (r: &str)
        ensures
            r@ == self@,
    {
        self.path.as_str()
    }

    /// Path of one of the cgroup's control files.
    pub fn control_file(&self, file: &str) -> (r: String)
        ensures
            r@ == path_join(self@, file@),
    {
        let b = chars_of(self.path.as_str());
        let f = chars_of(file);
        join_path(b.as_slice(), f.as_slice())
    }

    /// Path of `cgroup.procs` for a process about to exec into the group;
    /// `None` when it holds a NUL character and cannot be passed to the
    /// kernel.
    pub fn procs_file_for_exec(&self) -> (r: Option<String>)
        ensures
            match r {
                Some(p) => p@ == path_join(self@, "cgroup.procs"@) && !p@.contains('\0'),
                None => path_join(self@, "cgroup.procs"@).contains('\0'),
            },
    {
        let p = self.control_file("cgroup.procs");
        let cs = chars_of(p.as_str());
        let mut i: usize = 0;
        while i < cs.len()
            invariant
                i <= cs@.len(),
                cs@ == p@,
                p@ == path_join(self@, "cgroup.procs"@),
                forall|j: int| 0 <= j < i ==> cs@[j] != '\0',
            decreases cs.len() - i,
        {
            if cs[i] == '\0' {
                assert(p@[i as int] == '\0');
                assert(p@.contains('\0'));
                return None;
            }
            i += 1;
        }
        Some(p)
    }

    pub fn freeze_timeout_error(&self, target: bool) -> (e: CgroupError)
        ensures
            e matches CgroupError::FreezeTimeout { path, target: t, timeout_ms } && path@ == self@
                && t == target && timeout_ms == FREEZE_TIMEOUT_MS,
    {
        CgroupError::FreezeTimeout {
            path: self.path.clone(),
            target,
            timeout_ms: FREEZE_TIMEOUT_MS,
        }
    }
}

// ---------------------------------------------------------------------
// Control files
// ---------------------------------------------------------------------

/// The PIDs listed one per line in `cgroup.procs`; lines that are not a
/// PID (after trimming) are passed over.
pub open spec fn pid_list(raw: Seq<char>) -> Seq<u32> {
    filter_map(lines(raw), |l: Seq<char>| parse_u32(trim(l)))
}

pub fn parse_pid_list(raw: &str) -> (r: Vec<u32>)
    ensures
        r@ == pid_list(raw@),
{
    let ls = lines_of(raw);
    let ghost all = views(ls@);
    let mut out: Vec<u32> = Vec::new();
    let mut i: usize = 0;
    assert(all.take(0) =~= Seq::<Seq<char>>::empty());
    while i < ls.len()
        invariant
            i <= ls@.len(),
            all == views(ls@),
            all == lines(raw@),
            out@ == filter_map(all.take(i as int), |l: Seq<char>| parse_u32(trim(l))),
        decreases ls.len() - i,
    {
        let t = trimmed(ls[i].as_slice());
        let p = parse_u32_chars(t.as_slice());
        proof {
            lemma_filter_map_push(all.take(i as int), all[i as int], |l: Seq<char>| parse_u32(trim(l)));
            assert(all.take(i + 1) =~= all.take(i as int).push(all[i as int]));
        }
        match p {
            Some(v) => out.push(v),
            None => {},
        }
        i += 1;
        assert(out@ =~= filter_map(all.take(i as int), |l: Seq<char>| parse_u32(trim(l))));
    }
    assert(all.take(i as int) =~= all);
    out
}

/// `cgroup.events` reports an empty group (a `populated 0` line).
pub open spec fn events_unpopulated(raw: Seq<char>) -> bool {
    some_line_is(lines(raw), "populated 0"@)
}

pub fn reports_unpopulated(raw: &str) -> (r: bool)
    ensures
        r == events_unpopulated(raw@),
{
    let ls = lines_of(raw);
    let t = chars_of("populated 0");
    some_line_equals(&ls, t.as_slice())
}

/// What reading a cgroup's `cgroup.events` gave.
#[derive(Debug)]
pub enum EventsRead {
    Text(String),
    /// The file (and so the cgroup) is gone.
    NotFound,
    /// Any other read error, by its message.
    Failed(String),
}

/// The next move of the wait for a killed cgroup to drain.
#[derive(Debug)]
pub enum DrainMove {
    Drained,
    PollAgain,
    Fail(CgroupError),
}

/// One poll of the wait for a killed cgroup to drain: it has drained when
/// `cgroup.events` reports it unpopulated or is gone; a failed read ends
/// the wait with that error; otherwise poll again (while the wait lasts).
pub fn drain_move(read: EventsRead) -> (r: DrainMove)
    ensures
        match read {
            EventsRead::Text(raw) => if events_unpopulated(raw@) {
                r is Drained
            } else {
                r is PollAgain
            },
            EventsRead::NotFound => r is Drained,
            EventsRead::Failed(m) => r matches DrainMove::Fail(CgroupError::Io(x)) && x == m,
        },
{
    match read {
        EventsRead::Text(raw) => if reports_unpopulated(raw.as_str()) {
            DrainMove::Drained
        } else {
            DrainMove::PollAgain
        },
        EventsRead::NotFound => DrainMove::Drained,
        EventsRead::Failed(m) => DrainMove::Fail(CgroupError::Io(m)),
    }
}

/// The error when a killed cgroup at `path` has not drained within
/// `REAP_TIMEOUT_MS`: `"cgroup <path> did not drain within 500ms"`.
pub fn drain_timeout_error(path: &str) -> (e: CgroupError)
    ensures
        e matches CgroupError::Other(m) && m@ == "cgroup "@ + path@ + " did not drain within "@
            + dec_chars(REAP_TIMEOUT_MS as nat) + "ms"@,
{
    let mut m = String::from_str("cgroup ");
    m.append(path);
    m.append(" did not drain within ");
    let ms = decimal_string(REAP_TIMEOUT_MS as u128);
    m.append(ms.as_str());
    m.append("ms");
    CgroupError::Other(m)
}

/// `cgroup.events` reports the group frozen: its first `frozen ` line says
/// `1`. No such line reads as thawed.
pub open spec fn events_frozen(raw: Seq<char>) -> bool {
    find_prefixed(lines(raw), "frozen "@) == Some("1"@)
}

pub fn reports_frozen(raw: &str) -> (r: bool)
    ensures
        r == events_frozen(raw@),
{
    let ls = lines_of(raw);
    let p = chars_of("frozen ");
    let one = chars_of("1");
    match find_prefixed_line(&ls, p.as_slice()) {
        Some(v) => chars_eq(v.as_slice(), one.as_slice()),
        None => false,
    }
}

// ---------------------------------------------------------------------
// PID rendering for the pre-exec hook (no allocation after fork)
// ---------------------------------------------------------------------

pub open spec fn pow10(k: nat) -> nat
    decreases k,
{
    if k == 0 {
        1
    } else {
        10 * pow10((k - 1) as nat)
    }
}

proof fn lemma_dec_digits_len(n: nat, k: nat)
    requires
        1 <= k,
        n < pow10(k),
    ensures
        dec_digits(n).len() <= k,
    decreases k,
{
    if n >= 10 {
        assert(k >= 2) by {
            if k == 1 {
                assert(pow10(1) == 10 * pow10(0));
            }
        }
        assert(pow10(k) == 10 * pow10((k - 1) as nat));
        assert(n / 10 < pow10((k - 1) as nat)) by (nonlinear_arith)
            requires
                n < 10 * pow10((k - 1) as nat),
        ;
        lemma_dec_digits_len(n / 10, (k - 1) as nat);
    }
}

proof fn lemma_pow10_ten()
    ensures
        pow10(10) == 10000000000,
{
    reveal_with_fuel(pow10, 11);
}

/// The ASCII decimal digits of `pid`, in `out[..len]`; the rest of `out`
/// is zero.
pub fn pid_decimal_bytes(pid: u32) -> (r: ([u8; 20], usize))
    ensures
        r.1 == dec_digits(pid as nat).len(),
        1 <= r.1 <= 10,
        forall|i: int| 0 <= i < r.1 ==> r.0[i] == 48 + dec_digits(pid as nat)[i],
        forall|i: int| r.1 <= i < 20 ==> r.0[i] == 0,
{
    let mut scratch = [0u8;20];
    let mut cursor: usize = 20;
    let mut m = pid;
    proof {
        lemma_pow10_ten();
        lemma_dec_digits_len(pid as nat, 10);
    }
    loop
        invariant_except_break
            1 <= cursor <= 20,
            dec_digits(m as nat).len() <= cursor,
            dec_digits(pid as nat) == dec_digits(m as nat) + Seq::new(
                (20 - cursor) as nat,
                |j: int| (scratch[cursor + j] - 48) as nat,
            ),
            forall|j: int| cursor <= j < 20 ==> 48 <= #[trigger] scratch[j] <= 57,
        ensures
            0 <= cursor < 20,
            dec_digits(pid as nat) == Seq::new(
                (20 - cursor) as nat,
                |j: int| (scratch[cursor + j] - 48) as nat,
            ),
            forall|j: int| cursor <= j < 20 ==> 48 <= #[trigger] scratch[j] <= 57,
        decreases m,
    {
        cursor -= 1;
        let d = (m % 10) as u8;
        scratch[cursor] = 48 + d;
        if m < 10 {
            assert(dec_digits(m as nat) == seq![m as nat]);
            assert(dec_digits(pid as nat) =~= Seq::new(
                (20 - cursor) as nat,
                |j: int| (scratch[cursor + j] - 48) as nat,
            ));
            break ;
        }
        assert(dec_digits(m as nat) == dec_digits((m / 10) as nat).push((m % 10) as nat));
        m = m / 10;
        assert(dec_digits(pid as nat) =~= dec_digits(m as nat) + Seq::new(
            (20 - cursor) as nat,
            |j: int| (scratch[cursor + j] - 48) as nat,
        ));
    }
    let len = 20 - cursor;
    let mut output = [0u8;20];
    let mut i: usize = 0;
    while i < len
        invariant
            len == 20 - cursor,
            i <= len,
            cursor < 20,
            forall|j: int| 0 <= j < i ==> output[j] == scratch[cursor + j],
            forall|j: int| i <= j < 20 ==> output[j] == 0,
        decreases len - i,
    {
        output[i] = scratch[cursor + i];
        i += 1;
    }
    proof {
        assert forall|j: int| 0 <= j < len implies output[j] == 48 + dec_digits(pid as nat)[j] by {
            assert(dec_digits(pid as nat)[j] == (scratch[cursor + j] - 48) as nat);
        }
        lemma_dec_digits_len(pid as nat, 10);
        lemma_pow10_ten();
    }
    (output, len)
}

// ---------------------------------------------------------------------
// Quit ladder
// ---------------------------------------------------------------------

/// SIGTERM everything in the cgroup, delivered while it is frozen.
pub struct SigTermFrozen;

/// SIGKILL everything in the cgroup (`cgroup.kill` where the kernel has
/// it). Terminal.
pub struct SigKillFrozen;

impl SigTermFrozen {
    pub fn name(&self) -> (r: &'static str)
        ensures
            r@ == "sigterm_frozen"@,
    {
        "sigterm_frozen"
    }

    pub fn is_terminal(&self) -> (r: bool)
        ensures
            !r,
    {
        false
    }

    pub fn max_wait_ms(&self) -> (r: u64)
        ensures
            r == 2000,
    {
        2000
    }

    pub fn spec(&self) -> (s: StageSpec)
        ensures
            s.name@ == "sigterm_frozen"@,
            !s.is_terminal,
            s.max_wait_ms == 2000,
    {
        StageSpec { name: String::from_str(self.name()), is_terminal: false, max_wait_ms: 2000 }
    }
}

impl SigKillFrozen {
    pub fn name(&self) -> (r: &'static str)
        ensures
            r@ == "sigkill_frozen"@,
    {
        "sigkill_frozen"
    }

    pub fn is_terminal(&self) -> (r: bool)
        ensures
            r,
    {
        true
    }

    pub fn max_wait_ms(&self) -> (r: u64)
        ensures
            r == 500,
    {
        500
    }

    pub fn spec(&self) -> (s: StageSpec)
        ensures
            s.name@ == "sigkill_frozen"@,
            s.is_terminal,
            s.max_wait_ms == 500,
    {
        StageSpec { name: String::from_str(self.name()), is_terminal: true, max_wait_ms: 500 }
    }
}

/// The Linux ladder: `sigterm_frozen`, then the terminal `sigkill_frozen`.
pub fn linux_stages() -> (v: Vec<StageSpec>)
    ensures
        v@.len() == 2,
        v@[0].name@ == "sigterm_frozen"@ && !v@[0].is_terminal && v@[0].max_wait_ms == 2000,
        v@[1].name@ == "sigkill_frozen"@ && v@[1].is_terminal && v@[1].max_wait_ms == 500,
{
    let mut v = Vec::new();
    v.push(SigTermFrozen.spec());
    v.push(SigKillFrozen.spec());
    v
}

} // verus!
