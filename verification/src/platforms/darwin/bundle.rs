//! Launch Services spawn support for `.app` bundles.
//!
//! A command that names a `.app` directory launches through
//! `open -n -F -a <bundle>`, so the app is registered with
//! `launchservicesd`. Identity preemption on that route is bundle-scoped:
//! every running instance of the bundle's main executable (matched by
//! `ps comm=`) is a predecessor. The new PID is the one that matches the
//! executable and was not there before the launch. A per-identity PID file
//! under `~/Library/Caches/uncontainerizable/` records the last launch.

use vstd::prelude::*;

use crate::error::BundleError;
use crate::text::{
    chars_eq, chars_of, dedup, extension, filter_map, first_line, first_line_of, join_path,
    lemma_dedup_props, lemma_dedup_push, lemma_filter_map_push, lines, lines_of, parse_u32,
    parse_u32_chars, path_extension, path_join, split_once_whitespace, split_once_ws,
    string_from_chars, trim, trim_start, trimmed, trimmed_start, views, dec_chars, decimal_string,
    lemma_parse_decimal,
};

verus! {

/// Directory under the user's home that holds per-identity PID files.
pub const PIDFILE_DIR: &'static str = "Library/Caches/uncontainerizable";

/// Plist fields a bundle launch needs.
#[derive(Debug)]
pub struct BundleInfo {
    /// `CFBundleIdentifier` from the app's `Info.plist`.
    pub bundle_id: String,
    /// `<bundle>/Contents/MacOS/<CFBundleExecutable>`.
    pub executable_path: String,
}

/// Whether `command` names a path with the `.app` extension (the part of
/// `is_app_bundle` that does not look at the file system).
pub fn has_app_extension(command: &str) -> (r: bool)
    ensures
        r == (extension(command@) == Some("app"@)),
{
    let cs = chars_of(command);
    let app = chars_of("app");
    match path_extension(cs.as_slice()) {
        Some(e) => chars_eq(e.as_slice(), app.as_slice()),
        None => false,
    }
}

pub open spec fn flat_char(c: char) -> char {
    if c == '/' || c == ':' || c == '\\' || c == '\0' {
        '.'
    } else {
        c
    }
}

/// A combined identity with `/`, `:`, `\` and NUL replaced by `.`.
pub open spec fn flattened(s: Seq<char>) -> Seq<char> {
    s.map_values(|c: char| flat_char(c))
}

pub fn sanitize_identity(combined: &str) -> (r: String)
    ensures
        r@ == flattened(combined@),
{
    let cs = chars_of(combined);
    let mut out: Vec<char> = Vec::new();
    let mut i: usize = 0;
    while i < cs.len()
        invariant
            i <= cs@.len(),
            cs@ == combined@,
            out@ == flattened(cs@.take(i as int)),
        decreases cs.len() - i,
    {
        let c = cs[i];
        out.push(if c == '/' || c == ':' || c == '\\' || c == '\0' {
            '.'
        } else {
            c
        });
        i += 1;
        assert(out@ =~= flattened(cs@.take(i as int)));
    }
    assert(cs@.take(cs@.len() as int) =~= cs@);
    string_from_chars(out.as_slice())
}

/// `<home>/Library/Caches/uncontainerizable/<flattened identity>.pid`.
pub open spec fn pidfile_path(home: Seq<char>, combined: Seq<char>) -> Seq<char> {
    path_join(path_join(home, PIDFILE_DIR@), flattened(combined) + ".pid"@)
}

/// The PID file of an identity under the home directory `home`.
pub fn identity_pidfile(home: &str, combined_identity: &str) -> (r: String)
    ensures
        r@ == pidfile_path(home@, combined_identity@),
{
    let h = chars_of(home);
    let d = chars_of(PIDFILE_DIR);
    let dir = join_path(h.as_slice(), d.as_slice());
    let mut name = sanitize_identity(combined_identity);
    name.append(".pid");
    let dc = chars_of(dir.as_str());
    let nc = chars_of(name.as_str());
    join_path(dc.as_slice(), nc.as_slice())
}

/// The PID a PID file records (its text, trimmed, as a number).
pub fn pidfile_pid(raw: &str) -> (r: Option<u32>)
    ensures
        r == parse_u32(trim(raw@)),
{
    let cs = chars_of(raw);
    let t = trimmed(cs.as_slice());
    parse_u32_chars(t.as_slice())
}

/// The text a PID file holds for `pid`: its decimal rendering.
pub fn pidfile_text(pid: u32) -> (r: String)
    ensures
        r@ == dec_chars(pid as nat),
{
    decimal_string(pid as u128)
}

/// A PID file round-trips: what `pidfile_text` writes for a PID,
/// `pidfile_pid` reads back as that PID.
pub proof fn law_pidfile_round_trip(pid: u32)
    ensures
        parse_u32(trim(dec_chars(pid as nat))) == Some(pid),
{
    lemma_parse_decimal(pid);
}

/// `ps -p <pid> -o comm=` names `expected`: its first line, trimmed, is
/// exactly that path.
pub open spec fn comm_is(stdout: Seq<char>, expected: Seq<char>) -> bool {
    lines(stdout).len() > 0 && trim(first_line(stdout)) == expected
}

pub fn comm_matches(stdout: &str, expected: &str) -> (r: bool)
    ensures
        r == comm_is(stdout@, expected@),
{
    let ls = lines_of(stdout);
    if ls.len() == 0 {
        return false;
    }
    let l = first_line_of(stdout);
    let t = trimmed(l.as_slice());
    let e = chars_of(expected);
    chars_eq(t.as_slice(), e.as_slice())
}

/// PID of a `ps -ax -o pid=,comm=` line whose executable is `target`.
pub open spec fn comm_line_pid(line: Seq<char>, target: Seq<char>) -> Option<u32> {
    match split_once_ws(trim_start(line)) {
        Some((pid_str, comm)) => if trim(comm) == target {
            parse_u32(trim(pid_str))
        } else {
            None
        },
        None => None,
    }
}

/// Running instances of the executable `target`, from `ps -ax -o pid=,comm=`
/// output: each PID once, in the order first listed.
pub open spec fn instances(ps: Seq<char>, target: Seq<char>) -> Seq<u32> {
    dedup(filter_map(lines(ps), |l: Seq<char>| comm_line_pid(l, target)))
}

pub fn matching_pids(ps_output: &str, exec_path: &str) -> (r: Vec<u32>)
    ensures
        r@ == instances(ps_output@, exec_path@),
        r@.no_duplicates(),
{
    let target = chars_of(exec_path);
    let ls = lines_of(ps_output);
    let ghost all = views(ls@);
    let ghost f = |l: Seq<char>| comm_line_pid(l, exec_path@);
    let mut out: Vec<u32> = Vec::new();
    let mut i: usize = 0;
    assert(all.take(0) =~= Seq::<Seq<char>>::empty());
    while i < ls.len()
        invariant
            i <= ls@.len(),
            all == views(ls@),
            all == lines(ps_output@),
            target@ == exec_path@,
            f == (|l: Seq<char>| comm_line_pid(l, exec_path@)),
            out@ == dedup(filter_map(all.take(i as int), f)),
        decreases ls.len() - i,
    {
        let line = trimmed_start(ls[i].as_slice());
        let found = match split_once_whitespace(line.as_slice()) {
            Some((pid_str, comm)) => {
                let c = trimmed(comm.as_slice());
                if chars_eq(c.as_slice(), target.as_slice()) {
                    let p = trimmed(pid_str.as_slice());
                    parse_u32_chars(p.as_slice())
                } else {
                    None
                }
            },
            None => None,
        };
        proof {
            lemma_filter_map_push(all.take(i as int), all[i as int], f);
            assert(all.take(i + 1) =~= all.take(i as int).push(all[i as int]));
            assert(found == f(all[i as int]));
        }
        match found {
            Some(v) => {
                let ghost before = filter_map(all.take(i as int), f);
                proof {
                    lemma_dedup_push(before, v);
                    assert(filter_map(all.take(i + 1), f) =~= before.push(v));
                }
                if !contains_pid(&out, v) {
                    out.push(v);
                }
            },
            None => {
                assert(filter_map(all.take(i + 1), f) =~= filter_map(all.take(i as int), f));
            },
        }
        i += 1;
    }
    assert(all.take(i as int) =~= all);
    proof {
        lemma_dedup_props(filter_map(all, f));
    }
    out
}

fn contains_pid(v: &Vec<u32>, p: u32) -> (r: bool)
    ensures
        r == v@.contains(p),
{
    let mut i: usize = 0;
    while i < v.len()
        invariant
            i <= v@.len(),
            forall|j: int| 0 <= j < i ==> v@[j] != p,
        decreases v.len() - i,
    {
        if v[i] == p {
            assert(v@[i as int] == p);
            return true;
        }
        i += 1;
    }
    false
}

/// `p` is the first PID listed in `current` that `baseline` lacks.
pub open spec fn first_new_pid(current: Seq<u32>, baseline: Seq<u32>, p: u32) -> bool {
    &&& current.contains(p)
    &&& !baseline.contains(p)
    &&& exists|k: int|
        0 <= k < current.len() && current[k] == p && forall|j: int|
            0 <= j < k ==> baseline.contains(#[trigger] current[j])
}

/// A PID of `current` that is not in `baseline`: the first one listed.
pub fn pick_new_pid(current: &Vec<u32>, baseline: &Vec<u32>) -> (r: Option<u32>)
    ensures
        match r {
            Some(p) => first_new_pid(current@, baseline@, p),
            None => forall|k: int| 0 <= k < current@.len() ==> baseline@.contains(#[trigger] current@[k]),
        },
{
    let mut i: usize = 0;
    while i < current.len()
        invariant
            i <= current@.len(),
            forall|j: int| 0 <= j < i ==> baseline@.contains(#[trigger] current@[j]),
        decreases current.len() - i,
    {
        let p = current[i];
        if !contains_pid(baseline, p) {
            assert(current@[i as int] == p);
            return Some(p);
        }
        i += 1;
    }
    None
}

/// One poll of the PID resolution after a launch: the first PID `current`
/// lists that `baseline` lacks, if any; otherwise the timeout error once
/// the deadline has passed; otherwise `None` (poll again).
pub fn resolve_poll(
    current: &Vec<u32>,
    baseline: &Vec<u32>,
    deadline_passed: bool,
    bundle_id: &str,
    executable_path: &str,
    waited_ms: u64,
) -> (r: Option<Result<u32, BundleError>>)
    ensures
        match r {
            Some(Ok(p)) => first_new_pid(current@, baseline@, p),
            Some(Err(BundleError::PidResolveTimeout { bundle_id: b, executable_path: x, waited_ms: w })) =>
                deadline_passed && b@ == bundle_id@ && x@ == executable_path@ && w == waited_ms
                && forall|k: int| 0 <= k < current@.len() ==> baseline@.contains(#[trigger] current@[k]),
            Some(Err(_)) => false,
            None => !deadline_passed && forall|k: int|
                0 <= k < current@.len() ==> baseline@.contains(#[trigger] current@[k]),
        },
{
    match pick_new_pid(current, baseline) {
        Some(p) => Some(Ok(p)),
        None => if deadline_passed {
            Some(
                Err(
                    BundleError::PidResolveTimeout {
                        bundle_id: String::from_str(bundle_id),
                        executable_path: String::from_str(executable_path),
                        waited_ms,
                    },
                ),
            )
        } else {
            None
        },
    }
}

/// A plist field as PlistBuddy printed it: the output trimmed; `None` when
/// that is empty.
pub fn plist_value(stdout: &str) -> (r: Option<String>)
    ensures
        match r {
            Some(v) => trim(stdout@).len() > 0 && v@ == trim(stdout@),
            None => trim(stdout@).len() == 0,
        },
{
    let cs = chars_of(stdout);
    let t = trimmed(cs.as_slice());
    if t.len() > 0 {
        Some(string_from_chars(t.as_slice()))
    } else {
        None
    }
}

/// `<bundle>/Contents/<file>`.
pub open spec fn contents_path(bundle: Seq<char>, file: Seq<char>) -> Seq<char> {
    path_join(path_join(bundle, "Contents"@), file)
}

pub fn info_plist_path(bundle_path: &str) -> (r: String)
    ensures
        r@ == contents_path(bundle_path@, "Info.plist"@),
{
    let b = chars_of(bundle_path);
    let c = chars_of("Contents");
    let contents = join_path(b.as_slice(), c.as_slice());
    let cc = chars_of(contents.as_str());
    let f = chars_of("Info.plist");
    join_path(cc.as_slice(), f.as_slice())
}

/// `<bundle>/Contents/MacOS/<executable>`.
pub fn bundle_executable_path(bundle_path: &str, exec_name: &str) -> (r: String)
    ensures
        r@ == path_join(contents_path(bundle_path@, "MacOS"@), exec_name@),
{
    let b = chars_of(bundle_path);
    let c = chars_of("Contents");
    let contents = join_path(b.as_slice(), c.as_slice());
    let cc = chars_of(contents.as_str());
    let m = chars_of("MacOS");
    let macos = join_path(cc.as_slice(), m.as_slice());
    let mc = chars_of(macos.as_str());
    let e = chars_of(exec_name);
    join_path(mc.as_slice(), e.as_slice())
}

/// Arguments of the `open` call that launches a bundle:
/// `-n -F -a <bundle>`, then `--args` and the program's arguments when it
/// has any.
pub fn open_command_args(bundle_path: &str, args: &Vec<String>) -> (r: Vec<String>)
    ensures
        r@.len() == 4 + (if args@.len() > 0 {
            1 + args@.len()
        } else {
            0
        }),
        r@[0]@ == "-n"@,
        r@[1]@ == "-F"@,
        r@[2]@ == "-a"@,
        r@[3]@ == bundle_path@,
        args@.len() > 0 ==> r@[4]@ == "--args"@,
        forall|k: int| 0 <= k < args@.len() ==> #[trigger] r@[5 + k] == args@[k],
{
    let mut r: Vec<String> = Vec::new();
    r.push(String::from_str("-n"));
    r.push(String::from_str("-F"));
    r.push(String::from_str("-a"));
    r.push(String::from_str(bundle_path));
    if args.len() > 0 {
        r.push(String::from_str("--args"));
        let mut i: usize = 0;
        while i < args.len()
            invariant
                i <= args@.len(),
                args@.len() > 0,
                r@.len() == 5 + i,
                r@[0]@ == "-n"@,
                r@[1]@ == "-F"@,
                r@[2]@ == "-a"@,
                r@[3]@ == bundle_path@,
                r@[4]@ == "--args"@,
                forall|k: int| 0 <= k < i ==> #[trigger] r@[5 + k] == args@[k],
            decreases args.len() - i,
        {
            r.push(args[i].clone());
            i += 1;
        }
    }
    r
}

} // verus!
