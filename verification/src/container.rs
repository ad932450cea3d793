//! Shared container data: quit/destroy options and results, the stage
//! descriptors of a quit ladder, and the teardown state every concrete
//! container holds.
//!
//! The quit ladder itself (which stage runs next, which hooks fire, when
//! the ladder stops) is the state machine in `ladder`; a runtime drives it
//! and performs the signals, waits and hook calls it asks for.

use vstd::prelude::*;

use crate::error::Error;
use crate::probe::Probe;

verus! {

/// Interval between emptiness polls after a stage has executed.
pub const POLL_INTERVAL_MS: u64 = 50;

/// Options for a quit.
#[derive(Debug)]
pub struct QuitOptions {
    /// Per-stage overrides of `max_wait`, in milliseconds, by stage name.
    /// A name's first entry wins; for entries with unique names (as in a
    /// map) that is the entry naming the stage.
    pub stage_timeouts: Vec<(String, u64)>,
    /// Stages to skip entirely (by name).
    pub skip_stages: Vec<String>,
}

/// The override that `timeouts` holds for the stage called `name`: the
/// first entry with that name.
pub open spec fn lookup_timeout(timeouts: Seq<(String, u64)>, name: Seq<char>) -> Option<u64>
    decreases timeouts.len(),
{
    if timeouts.len() == 0 {
        None
    } else if timeouts[0].0@ == name {
        Some(timeouts[0].1)
    } else {
        lookup_timeout(timeouts.drop_first(), name)
    }
}

/// No two overrides name the same stage, as in a map from stage name to
/// timeout (which is what the options stand for).
pub open spec fn names_unique(timeouts: Seq<(String, u64)>) -> bool {
    forall|i: int, j: int|
        0 <= i < j < timeouts.len() ==> (#[trigger] timeouts[i]).0@ != (#[trigger] timeouts[j]).0@
}

/// With unique names the first-entry rule is plain map lookup: a stage's
/// override is the value of the entry that names it, and a stage no entry
/// names has none.
pub proof fn law_unique_names_lookup_is_map_lookup(timeouts: Seq<(String, u64)>, name: Seq<char>)
    requires
        names_unique(timeouts),
    ensures
        forall|k: int|
            0 <= k < timeouts.len() && (#[trigger] timeouts[k]).0@ == name ==> lookup_timeout(
                timeouts,
                name,
            ) == Some(timeouts[k].1),
        (forall|k: int| 0 <= k < timeouts.len() ==> (#[trigger] timeouts[k]).0@ != name)
            ==> lookup_timeout(timeouts, name) is None,
    decreases timeouts.len(),
{
    if timeouts.len() > 0 {
        let rest = timeouts.drop_first();
        assert(names_unique(rest)) by {
            assert forall|i: int, j: int| 0 <= i < j < rest.len() implies (#[trigger] rest[i]).0@
                != (#[trigger] rest[j]).0@ by {
                assert(rest[i] == timeouts[i + 1]);
                assert(rest[j] == timeouts[j + 1]);
            }
        }
        law_unique_names_lookup_is_map_lookup(rest, name);
        assert forall|k: int|
            0 <= k < timeouts.len() && (#[trigger] timeouts[k]).0@ == name implies lookup_timeout(
                timeouts,
                name,
            ) == Some(timeouts[k].1) by {
            if k > 0 {
                assert(timeouts[0].0@ != timeouts[k].0@);
                assert(rest[k - 1] == timeouts[k]);
            }
        }
        if forall|k: int| 0 <= k < timeouts.len() ==> (#[trigger] timeouts[k]).0@ != name {
            assert(timeouts[0].0@ != name);
            assert forall|k: int| 0 <= k < rest.len() implies (#[trigger] rest[k]).0@ != name by {
                assert(rest[k] == timeouts[k + 1]);
            }
        }
    }
}

/// Whether `skip` names the stage called `name`.
pub open spec fn skip_listed(skip: Seq<String>, name: Seq<char>) -> bool {
    exists|i: int| 0 <= i < skip.len() && (#[trigger] skip[i])@ == name
}

impl Default for QuitOptions {
    fn default() -> (r: QuitOptions)
        ensures
            r.stage_timeouts@.len() == 0,
            r.skip_stages@.len() == 0,
    {
        QuitOptions { stage_timeouts: Vec::new(), skip_stages: Vec::new() }
    }
}

impl QuitOptions {
    /// The timeout override for the stage called `name`, if any.
    pub fn stage_timeout(&self, name: &String) -> (r: Option<u64>)
        ensures
            r == lookup_timeout(self.stage_timeouts@, name@),
    {
        let mut i: usize = 0;
        assert(self.stage_timeouts@.skip(0) =~= self.stage_timeouts@);
        while i < self.stage_timeouts.len()
            invariant
                i <= self.stage_timeouts@.len(),
                lookup_timeout(self.stage_timeouts@, name@) == lookup_timeout(
                    self.stage_timeouts@.skip(i as int),
                    name@,
                ),
            decreases self.stage_timeouts.len() - i,
        {
            let ghost rest = self.stage_timeouts@.skip(i as int);
            assert(rest[0] == self.stage_timeouts@[i as int]);
            assert(rest.drop_first() =~= self.stage_timeouts@.skip(i + 1));
            if self.stage_timeouts[i].0 == *name {
                return Some(self.stage_timeouts[i].1);
            }
            i += 1;
        }
        assert(self.stage_timeouts@.skip(i as int) =~= Seq::<(String, u64)>::empty());
        None
    }

    /// Whether the stage called `name` is to be skipped.
    pub fn skips(&self, name: &String) -> (r: bool)
        ensures
            r == skip_listed(self.skip_stages@, name@),
    {
        let mut i: usize = 0;
        while i < self.skip_stages.len()
            invariant
                i <= self.skip_stages@.len(),
                forall|j: int| 0 <= j < i ==> (#[trigger] self.skip_stages@[j])@ != name@,
            decreases self.skip_stages.len() - i,
        {
            if self.skip_stages[i] == *name {
                assert((self.skip_stages@[i as int])@ == name@);
                return true;
            }
            i += 1;
        }
        false
    }

    /// Sets the timeout override of the stage called `name`, replacing an
    /// earlier override of that stage.
    pub fn set_stage_timeout(&mut self, name: String, ms: u64)
        ensures
            lookup_timeout(final(self).stage_timeouts@, name@) == Some(ms),
            forall|other: Seq<char>|
                other != name@ ==> lookup_timeout(final(self).stage_timeouts@, other)
                    == lookup_timeout(old(self).stage_timeouts@, other),
            final(self).skip_stages@ == old(self).skip_stages@,
            names_unique(old(self).stage_timeouts@) ==> names_unique(final(self).stage_timeouts@),
    {
        let mut kept: Vec<(String, u64)> = Vec::new();
        let ghost name_v = name@;
        let name_c = name.clone();
        kept.push((name, ms));
        let ghost start = kept@;
        assert(lookup_timeout(kept@, name_v) == Some(ms));
        let mut i: usize = 0;
        while i < self.stage_timeouts.len()
            invariant
                i <= self.stage_timeouts@.len(),
                name_c@ == name_v,
                kept@.len() >= 1,
                kept@[0].0@ == name_v,
                kept@[0].1 == ms,
                forall|other: Seq<char>|
                    other != name_v ==> lookup_timeout(kept@.drop_first(), other)
                        == #[trigger] lookup_timeout(self.stage_timeouts@.take(i as int), other),
                forall|j: int|
                    1 <= j < kept@.len() ==> exists|idx: int|
                        0 <= idx < i && #[trigger] self.stage_timeouts@[idx].0@ == (
                        #[trigger] kept@[j]).0@,
                names_unique(self.stage_timeouts@) ==> names_unique(kept@),
            decreases self.stage_timeouts.len() - i,
        {
            let entry_name = self.stage_timeouts[i].0.clone();
            let entry_ms = self.stage_timeouts[i].1;
            let ghost before = kept@;
            let ghost e = self.stage_timeouts@[i as int];
            let ghost pre = self.stage_timeouts@.take(i as int);
            assert(self.stage_timeouts@.take(i + 1) =~= pre.push(e));
            if !(entry_name == name_c) {
                kept.push((entry_name, entry_ms));
                assert(kept@.drop_first() =~= before.drop_first().push(e));
                assert(kept@[kept@.len() - 1] == e);
                assert(e.0@ != name_v);
                assert forall|j: int| 1 <= j < kept@.len() implies exists|idx: int|
                    0 <= idx < i + 1 && #[trigger] self.stage_timeouts@[idx].0@ == (
                    #[trigger] kept@[j]).0@ by {
                    if j < kept@.len() - 1 {
                        assert(kept@[j] == before[j]);
                        let idx = choose|idx: int|
                            0 <= idx < i && #[trigger] self.stage_timeouts@[idx].0@ == (
                            #[trigger] before[j]).0@;
                        assert(self.stage_timeouts@[idx].0@ == kept@[j].0@);
                    } else {
                        assert(self.stage_timeouts@[i as int].0@ == kept@[j].0@);
                    }
                }
                proof {
                    if names_unique(self.stage_timeouts@) {
                        assert forall|a: int, b: int| 0 <= a < b < kept@.len() implies (
                        #[trigger] kept@[a]).0@ != (#[trigger] kept@[b]).0@ by {
                            if b < kept@.len() - 1 {
                                assert(kept@[a] == before[a] && kept@[b] == before[b]);
                            } else if a > 0 {
                                assert(kept@[a] == before[a]);
                                let idx = choose|idx: int|
                                    0 <= idx < i && #[trigger] self.stage_timeouts@[idx].0@ == (
                                    #[trigger] before[a]).0@;
                                assert(self.stage_timeouts@[idx].0@ != self.stage_timeouts@[i as int].0@);
                            } else {
                                assert(kept@[0].0@ == name_v);
                            }
                        }
                    }
                    assert forall|other: Seq<char>| other != name_v implies lookup_timeout(
                        kept@.drop_first(),
                        other,
                    ) == #[trigger] lookup_timeout(self.stage_timeouts@.take(i + 1), other) by {
                        lemma_lookup_push(pre, e, other);
                        lemma_lookup_push(before.drop_first(), e, other);
                    }
                }
            } else {
                proof {
                    assert forall|other: Seq<char>| other != name_v implies lookup_timeout(
                        kept@.drop_first(),
                        other,
                    ) == #[trigger] lookup_timeout(self.stage_timeouts@.take(i + 1), other) by {
                        lemma_lookup_push(pre, e, other);
                    }
                }
            }
            i += 1;
        }
        assert(self.stage_timeouts@.take(i as int) =~= self.stage_timeouts@);
        proof {
            assert forall|other: Seq<char>| other != name_v implies lookup_timeout(
                kept@,
                other,
            ) == lookup_timeout(kept@.drop_first(), other) by {}
        }
        self.stage_timeouts = kept;
    }
}

proof fn lemma_lookup_push(t: Seq<(String, u64)>, e: (String, u64), other: Seq<char>)
    ensures
        lookup_timeout(t.push(e), other) == (match lookup_timeout(t, other) {
            Some(v) => Some(v),
            None => if e.0@ == other {
                Some(e.1)
            } else {
                None
            },
        }),
    decreases t.len(),
{
    if t.len() > 0 {
        lemma_lookup_push(t.drop_first(), e, other);
        assert(t.push(e)[0] == t[0]);
        assert(t.push(e).drop_first() =~= t.drop_first().push(e));
    } else {
        assert(t.push(e)[0] == e);
        assert(t.push(e).drop_first() =~= Seq::<(String, u64)>::empty());
        assert(lookup_timeout(Seq::<(String, u64)>::empty(), other) is None);
    }
}

/// Options for a destroy.
#[derive(Debug)]
pub struct DestroyOptions {
    pub quit: QuitOptions,
}

impl Default for DestroyOptions {
    fn default() -> (r: DestroyOptions)
        ensures
            r.quit.stage_timeouts@.len() == 0,
            r.quit.skip_stages@.len() == 0,
    {
        DestroyOptions { quit: QuitOptions::default() }
    }
}

/// Outcome of a single stage execution.
#[derive(Debug)]
pub struct StageResult {
    pub stage_name: String,
    pub index: usize,
    /// `true` if the container was empty after this stage's execute + poll.
    pub exited: bool,
    pub is_terminal: bool,
}

/// Outcome of the full quit ladder.
#[derive(Debug)]
pub struct QuitResult {
    /// Name of the stage that emptied the container, or
    /// `Some("before:<stage_name>")` if the container was already empty
    /// before a stage ran.
    pub exited_at_stage: Option<String>,
    pub reached_terminal_stage: bool,
    pub stage_results: Vec<StageResult>,
    /// Adapter hook errors collected during the loop. Each entry is
    /// `"<adapter_name>: <message>"`.
    pub adapter_errors: Vec<String>,
}

impl QuitResult {
    /// The result recorded when no ladder ran.
    pub fn empty(reached_terminal_stage: bool) -> (r: QuitResult)
        ensures
            r.exited_at_stage is None,
            r.reached_terminal_stage == reached_terminal_stage,
            r.stage_results@.len() == 0,
            r.adapter_errors@.len() == 0,
    {
        QuitResult {
            exited_at_stage: None,
            reached_terminal_stage,
            stage_results: Vec::new(),
            adapter_errors: Vec::new(),
        }
    }
}

/// Outcome of a full teardown: the quit phase's result plus every error
/// surfaced while releasing platform resources.
#[derive(Debug)]
pub struct DestroyResult {
    pub quit: QuitResult,
    pub errors: Vec<Error>,
}

/// One step of a container's quit ladder, as the ladder sees it.
#[derive(Debug)]
pub struct StageSpec {
    pub name: String,
    /// `true` if reaching this stage counts as "fully torn down" regardless
    /// of whether the container actually emptied within `max_wait`.
    pub is_terminal: bool,
    /// Default time to wait for the container to drain after the stage.
    pub max_wait_ms: u64,
}

/// Shared teardown state every concrete container holds.
#[derive(Debug)]
pub struct ContainerCore {
    pub pid: u32,
    pub probe: Probe,
    pub stages: Vec<StageSpec>,
    pub reached_terminal: bool,
    pub destroyed: bool,
}

impl ContainerCore {
    pub fn new(pid: u32, probe: Probe, stages: Vec<StageSpec>) -> (c: ContainerCore)
        ensures
            c.pid == pid,
            c.probe == probe,
            c.stages == stages,
            !c.reached_terminal,
            !c.destroyed,
    {
        ContainerCore { pid, probe, stages, reached_terminal: false, destroyed: false }
    }
}

/// What a liveness probe (`kill(pid, 0)`, or opening the process) found.
#[derive(Clone, Copy, Debug, PartialEq, Eq, Structural)]
pub enum SignalProbe {
    /// The probe reached the process.
    Delivered,
    /// The process exists but belongs to someone else (`EPERM`).
    PermissionDenied,
    /// No such process, or the probe failed otherwise.
    Failed,
}

/// A process counts as alive when the probe reached it or was refused
/// permission: `EPERM` means the process exists.
pub open spec fn probe_says_alive(p: SignalProbe) -> bool {
    p == SignalProbe::Delivered || p == SignalProbe::PermissionDenied
}

pub fn alive_from_probe(p: SignalProbe) -> (r: bool)
    ensures
        r == probe_says_alive(p),
{
    match p {
        SignalProbe::Delivered => true,
        SignalProbe::PermissionDenied => true,
        SignalProbe::Failed => false,
    }
}

/// Members of a container tracked by its root PID alone: the root while it
/// is alive, nobody after.
pub fn members_if_alive(pid: u32, alive: bool) -> (r: Vec<u32>)
    ensures
        alive ==> r@ == seq![pid],
        !alive ==> r@.len() == 0,
{
    let mut v = Vec::new();
    if alive {
        v.push(pid);
        assert(v@ =~= seq![pid]);
    }
    v
}

} // verus!
