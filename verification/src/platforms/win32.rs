//! Windows: Job Object naming, process-list query sizing, and the quit
//! ladder.
//!
//! Identity preemption uses the named-object namespace: a job named
//! `Local\uncontainerizable-<identity>` holds every process of an identity.
//! The quit ladder posts `WM_CLOSE` to the root's windows, then terminates
//! the job.

use vstd::prelude::*;

use crate::container::StageSpec;
use crate::text::chars_of;

verus! {

pub const OBJECT_NAMESPACE: &'static str = "Local\\uncontainerizable-";

/// Process-list capacity of the first job query.
pub const INITIAL_QUERY_CAPACITY: usize = 64;

/// UTF-16 code units of one character.
pub open spec fn utf16_units(c: char) -> Seq<u16> {
    let u = c as u32;
    if u < 0x10000 {
        seq![u as u16]
    } else {
        let v = (u - 0x10000) as u32;
        seq![(0xD800 + v / 1024) as u16, (0xDC00 + v % 1024) as u16]
    }
}

/// UTF-16 encoding (`str::encode_utf16`).
pub open spec fn utf16(s: Seq<char>) -> Seq<u16>
    decreases s.len(),
{
    if s.len() == 0 {
        Seq::empty()
    } else {
        utf16(s.drop_last()) + utf16_units(s.last())
    }
}

/// The NUL-terminated UTF-16 name of the job of `identity`.
pub open spec fn job_name(identity: Seq<char>) -> Seq<u16> {
    utf16(OBJECT_NAMESPACE@ + identity).push(0)
}

pub fn encode_name(identity: &str) -> (r: Vec<u16>)
    ensures
        r@ == job_name(identity@),
{
    let mut name = String::from_str(OBJECT_NAMESPACE);
    name.append(identity);
    let cs = chars_of(name.as_str());
    let mut out: Vec<u16> = Vec::new();
    let mut i: usize = 0;
    assert(cs@.take(0) =~= Seq::<char>::empty());
    while i < cs.len()
        invariant
            i <= cs@.len(),
            cs@ == OBJECT_NAMESPACE@ + identity@,
            out@ == utf16(cs@.take(i as int)),
        decreases cs.len() - i,
    {
        let u = cs[i] as u32;
        if u < 0x10000 {
            out.push(u as u16);
        } else {
            let v = u - 0x10000;
            out.push((0xD800 + v / 1024) as u16);
            out.push((0xDC00 + v % 1024) as u16);
        }
        assert(cs@.take(i + 1).drop_last() =~= cs@.take(i as int));
        i += 1;
        assert(out@ =~= utf16(cs@.take(i as int)));
    }
    assert(cs@.take(cs@.len() as int) =~= cs@);
    out.push(0);
    out
}

/// Capacity for the next process-list query: the buffer doubles for as
/// long as the query reports it too small; `None` when the query needs no
/// retry, or when doubling no longer fits in `usize` (the query's error
/// stands).
pub fn next_query_capacity(capacity: usize, more_data: bool) -> (r: Option<usize>)
    ensures
        r == (if more_data && capacity * 2 <= usize::MAX {
            Some((capacity * 2) as usize)
        } else {
            None
        }),
{
    if more_data {
        capacity.checked_mul(2)
    } else {
        None
    }
}

/// A job is empty when its process list is empty, or cannot be read.
pub fn job_reports_empty(members: &Option<Vec<u32>>) -> (r: bool)
    ensures
        r == match members {
            Some(v) => v@.len() == 0,
            None => true,
        },
{
    match members {
        Some(v) => v.len() == 0,
        None => true,
    }
}

/// Post `WM_CLOSE` to every visible top-level window of the root process.
pub struct WmCloseRoot;

/// Terminate every process of the job. Terminal.
pub struct TerminateJob;

impl WmCloseRoot {
    pub fn name(&self) -> (r: &'static str)
        ensures
            r@ == "wm_close_root"@,
    {
        "wm_close_root"
    }

    pub fn is_terminal(&self) -> (r: bool)
        ensures
            !r,
    {
        false
    }

    pub fn max_wait_ms(&self) -> (r: u64)
        ensures
            r == 3000,
    {
        3000
    }

    pub fn spec(&self) -> (s: StageSpec)
        ensures
            s.name@ == "wm_close_root"@,
            !s.is_terminal,
            s.max_wait_ms == 3000,
    {
        StageSpec { name: String::from_str(self.name()), is_terminal: false, max_wait_ms: 3000 }
    }
}

impl TerminateJob {
    pub fn name(&self) -> (r: &'static str)
        ensures
            r@ == "terminate_job"@,
    {
        "terminate_job"
    }

    pub fn is_terminal(&self) -> (r: bool)
        ensures
            r,
    {
        true
    }

    pub fn max_wait_ms(&self) -> (r: u64)
        ensures
            r == 500,
    {
        500
    }

    pub fn spec(&self) -> (s: StageSpec)
        ensures
            s.name@ == "terminate_job"@,
            s.is_terminal,
            s.max_wait_ms == 500,
    {
        StageSpec { name: String::from_str(self.name()), is_terminal: true, max_wait_ms: 500 }
    }
}

/// The Windows ladder: `wm_close_root`, then the terminal `terminate_job`.
pub fn win32_stages() -> (v: Vec<StageSpec>)
    ensures
        v@.len() == 2,
        v@[0].name@ == "wm_close_root"@ && !v@[0].is_terminal && v@[0].max_wait_ms == 3000,
        v@[1].name@ == "terminate_job"@ && v@[1].is_terminal && v@[1].max_wait_ms == 500,
{
    let mut v = Vec::new();
    v.push(WmCloseRoot.spec());
    v.push(TerminateJob.spec());
    v
}

} // verus!
