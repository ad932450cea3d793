//! macOS: argv[0] tagging, Launch Services bundle support, `ps` parsing,
//! and the quit ladder.
//!
//! Two launch routes, chosen by the shape of the command path: a `.app`
//! directory launches through Launch Services (`open -n -F -a`), anything
//! else is exec'd directly in a process group of its own, tagged through
//! argv[0] for identity preemption.

use vstd::prelude::*;

use crate::text::{
    chars_of, filter_map, first_line, first_line_of, first_word, lemma_filter_map_push, lines,
    lines_of, next_word, parse_u32, parse_u32_chars, string_from_chars, trim, trimmed, views,
};

pub mod argv_tag;
pub mod bundle;
pub mod stages;

verus! {

/// PID of a `ps -axo pid=,pgid=` line when its process group is `group`.
pub open spec fn group_line_pid(line: Seq<char>, group: u32) -> Option<u32> {
    let (a, rest) = next_word(line);
    let (b, _) = next_word(rest);
    match (parse_u32(a), parse_u32(b)) {
        (Some(pid), Some(pgid)) => if pgid == group {
            Some(pid)
        } else {
            None
        },
        _ => None,
    }
}

/// Members of the process group `group`, from `ps -axo pid=,pgid=` output.
pub open spec fn group_members(ps: Seq<char>, group: u32) -> Seq<u32> {
    filter_map(lines(ps), |l: Seq<char>| group_line_pid(l, group))
}

pub fn process_group_members(ps_output: &str, group: u32) -> (r: Vec<u32>)
    ensures
        r@ == group_members(ps_output@, group),
{
    let ls = lines_of(ps_output);
    let ghost all = views(ls@);
    let ghost f = |l: Seq<char>| group_line_pid(l, group);
    let mut out: Vec<u32> = Vec::new();
    let mut i: usize = 0;
    assert(all.take(0) =~= Seq::<Seq<char>>::empty());
    while i < ls.len()
        invariant
            i <= ls@.len(),
            all == views(ls@),
            all == lines(ps_output@),
            f == (|l: Seq<char>| group_line_pid(l, group)),
            out@ == filter_map(all.take(i as int), f),
        decreases ls.len() - i,
    {
        let (a, rest) = first_word(ls[i].as_slice());
        let (b, _) = first_word(rest.as_slice());
        let found = match (parse_u32_chars(a.as_slice()), parse_u32_chars(b.as_slice())) {
            (Some(pid), Some(pgid)) => if pgid == group {
                Some(pid)
            } else {
                None
            },
            _ => None,
        };
        proof {
            lemma_filter_map_push(all.take(i as int), all[i as int], f);
            assert(all.take(i + 1) =~= all.take(i as int).push(all[i as int]));
            assert(found == f(all[i as int]));
        }
        match found {
            Some(v) => out.push(v),
            None => {},
        }
        i += 1;
        assert(out@ =~= filter_map(all.take(i as int), f));
    }
    assert(all.take(i as int) =~= all);
    out
}

/// Executable path as `ps -o comm=` prints it: the first line, trimmed;
/// `None` when that is empty.
pub open spec fn comm_path(stdout: Seq<char>) -> Option<Seq<char>> {
    let l = trim(first_line(stdout));
    if l.len() > 0 {
        Some(l)
    } else {
        None
    }
}

pub fn ps_first_line(stdout: &str) -> (r: Option<String>)
    ensures
        match r {
            Some(p) => comm_path(stdout@) == Some(p@),
            None => comm_path(stdout@) is None,
        },
{
    let l = first_line_of(stdout);
    let t = trimmed(l.as_slice());
    if t.len() > 0 {
        Some(string_from_chars(t.as_slice()))
    } else {
        None
    }
}

/// argv[0] of a direct exec: the identity tag when there is an identity
/// and tagging is on, otherwise the command's own.
pub fn direct_exec_argv0(scoped_identity: Option<&str>, command: &str, tag_argv0: bool) -> (r:
    Option<String>)
    ensures
        match scoped_identity {
            Some(i) => if tag_argv0 {
                r matches Some(t) && t@ == argv_tag::tag(i@, command@)
            } else {
                r is None
            },
            None => r is None,
        },
{
    match scoped_identity {
        Some(i) => if tag_argv0 {
            Some(argv_tag::format(i, command))
        } else {
            None
        },
        None => None,
    }
}

} // verus!
