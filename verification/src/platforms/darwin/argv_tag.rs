//! argv[0] tagging for identity-based preemption on macOS.
//!
//! macOS has no kernel primitive analogous to cgroup v2 or Windows Job
//! Objects. It is approximated by rewriting argv[0] at spawn time to a tag
//! like `uncontainerizable:<identity>/<executable-name>`, then finding and
//! killing any running processes whose argv[0] begins with that tag before
//! the new one starts.

use vstd::prelude::*;

use crate::text::{
    chars_of, file_name, filter_map, has_prefix, lemma_filter_map_push, lines, lines_of,
    parse_u32, parse_u32_chars, path_file_name, split_once_whitespace, split_once_ws,
    starts_with, string_from_chars, trim, trim_start, trimmed, trimmed_start, views,
};

verus! {

pub const TAG_PREFIX: &'static str = "uncontainerizable";

/// The command's file name, or the command itself when it has none.
pub open spec fn base_name(command: Seq<char>) -> Seq<char> {
    match file_name(command) {
        Some(n) => n,
        None => command,
    }
}

/// `uncontainerizable:<identity>/<base name of command>`.
pub open spec fn tag(identity: Seq<char>, command: Seq<char>) -> Seq<char> {
    TAG_PREFIX@ + ":"@ + identity + "/"@ + base_name(command)
}

/// What every argv[0] tagged for `identity` starts with.
pub open spec fn tag_needle(identity: Seq<char>) -> Seq<char> {
    TAG_PREFIX@ + ":"@ + identity + "/"@
}

/// Builds the argv[0] tag for an identity and command. The base filename
/// is preserved so ps / Activity Monitor still show something
/// recognizable.
pub fn format(identity: &str, command: &str) -> (r: String)
    ensures
        r@ == tag(identity@, command@),
{
    let cs = chars_of(command);
    let base = match path_file_name(cs.as_slice()) {
        Some(n) => string_from_chars(n.as_slice()),
        None => String::from_str(command),
    };
    let mut s = String::from_str(TAG_PREFIX);
    s.append(":");
    s.append(identity);
    s.append("/");
    s.append(base.as_str());
    s
}

/// PID of a `ps -A -o pid=,command=` line whose command starts with
/// `needle`.
pub open spec fn tagged_line_pid(line: Seq<char>, needle: Seq<char>) -> Option<u32> {
    match split_once_ws(trim_start(line)) {
        Some((pid_str, rest)) => if has_prefix(trim_start(rest), needle) {
            parse_u32(trim(pid_str))
        } else {
            None
        },
        None => None,
    }
}

/// Processes whose argv[0] carries the tag of `identity`, from
/// `ps -A -o pid=,command=` output, in the order listed.
pub open spec fn tagged_pids(ps: Seq<char>, identity: Seq<char>) -> Seq<u32> {
    filter_map(lines(ps), |l: Seq<char>| tagged_line_pid(l, tag_needle(identity)))
}

pub fn find_tagged_pids(ps_output: &str, identity: &str) -> (r: Vec<u32>)
    ensures
        r@ == tagged_pids(ps_output@, identity@),
{
    let mut needle_s = String::from_str(TAG_PREFIX);
    needle_s.append(":");
    needle_s.append(identity);
    needle_s.append("/");
    let needle = chars_of(needle_s.as_str());
    let ls = lines_of(ps_output);
    let ghost all = views(ls@);
    let ghost f = |l: Seq<char>| tagged_line_pid(l, tag_needle(identity@));
    let mut out: Vec<u32> = Vec::new();
    let mut i: usize = 0;
    assert(all.take(0) =~= Seq::<Seq<char>>::empty());
    while i < ls.len()
        invariant
            i <= ls@.len(),
            all == views(ls@),
            all == lines(ps_output@),
            needle@ == tag_needle(identity@),
            f == (|l: Seq<char>| tagged_line_pid(l, tag_needle(identity@))),
            out@ == filter_map(all.take(i as int), f),
        decreases ls.len() - i,
    {
        let line = trimmed_start(ls[i].as_slice());
        let found = match split_once_whitespace(line.as_slice()) {
            Some((pid_str, rest)) => {
                let rest = trimmed_start(rest.as_slice());
                if starts_with(rest.as_slice(), needle.as_slice()) {
                    let p = trimmed(pid_str.as_slice());
                    parse_u32_chars(p.as_slice())
                } else {
                    None
                }
            },
            None => None,
        };
        proof {
            lemma_filter_map_push(all.take(i as int), all[i as int], f);
            assert(all.take(i + 1) =~= all.take(i as int).push(all[i as int]));
            assert(found == f(all[i as int]));
        }
        match found {
            Some(v) => out.push(v),
            None => {},
        }
        i += 1;
        assert(out@ =~= filter_map(all.take(i as int), f));
    }
    assert(all.take(i as int) =~= all);
    out
}

} // verus!
