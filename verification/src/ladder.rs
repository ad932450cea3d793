//! The staged quit ladder as a state machine.
//!
//! A quit runs every matching adapter's `before_quit`, then walks the
//! container's stages in order: a stage named in the skip list is passed
//! over; before a stage runs the container is checked for emptiness (an
//! empty container ends the ladder, recorded as `before:<stage>`); then the
//! adapters' `before_stage` hooks fire, the stage executes, and the
//! container is polled until it drains or the stage's wait elapses; the
//! adapters' `after_stage` hooks see the stage's result. A stage that
//! drained the container, or a terminal stage, ends the ladder. After a
//! terminal stage the adapters' `clear_crash_state` hooks run; finally the
//! adapters' `after_quit` hooks see the result so far.
//!
//! Adapter hook failures are collected and never change what happens
//! next. A failed emptiness check or stage execution ends the quit with
//! that error at once.
//!
//! `QuitLadder` makes every one of these decisions; the runtime that owns
//! the container performs the step it is handed (`QuitStep`) and reports
//! what happened (`QuitEvent`).

use vstd::prelude::*;

use crate::container::{
    lookup_timeout, skip_listed, ContainerCore, DestroyResult, QuitOptions, QuitResult,
    StageResult, StageSpec, POLL_INTERVAL_MS,
};
use crate::error::{AdapterError, Error, StageError};

verus! {

/// What the ladder knows of one stage.
#[derive(Clone, Copy, Debug, PartialEq, Eq, Structural)]
pub struct StagePlan {
    pub is_terminal: bool,
    /// Wait after executing, with any override applied.
    pub max_wait_ms: u64,
    /// Named in the skip list.
    pub skipped: bool,
}

/// A stage that ran, by its position in the ladder.
#[derive(Clone, Copy, Debug, PartialEq, Eq, Structural)]
pub struct StageOutcome {
    pub index: usize,
    pub exited: bool,
}

/// Where the container was found empty.
#[derive(Clone, Copy, Debug, PartialEq, Eq, Structural)]
pub enum ExitPoint {
    NotYet,
    /// Already empty when the check before this stage ran.
    BeforeStage(usize),
    /// Drained while this stage's wait ran.
    AtStage(usize),
}

/// The next thing the runtime must do.
#[derive(Clone, Copy, Debug, PartialEq, Eq, Structural)]
pub enum QuitStep {
    /// Run `before_quit` of the matching adapter at this position.
    BeforeQuit { adapter: usize },
    /// Check whether the container is empty before the stage runs.
    CheckEmpty { stage: usize },
    BeforeStage { adapter: usize, stage: usize },
    ExecuteStage { stage: usize },
    /// Start measuring the stage's wait.
    StartClock { stage: usize },
    /// Report the milliseconds elapsed since the clock started.
    ReadClock { stage: usize },
    /// Check whether the container is empty during the stage's wait.
    PollEmpty { stage: usize },
    Sleep { stage: usize, ms: u64 },
    /// Run `after_stage` of an adapter with the stage's result.
    AfterStage { adapter: usize, stage: usize, exited: bool },
    ClearCrashState { adapter: usize },
    /// Run `after_quit` of an adapter with the result so far.
    AfterQuit { adapter: usize },
    Finished,
}

/// What the runtime reports after performing a step.
#[derive(Debug)]
pub enum QuitEvent {
    /// The clock was started, or the sleep is over.
    Proceed,
    /// An adapter hook returned.
    Hook(Result<(), AdapterError>),
    /// An emptiness check returned.
    Emptiness(Result<bool, StageError>),
    /// A stage's execution returned.
    Executed(Result<(), StageError>),
    /// Milliseconds since the clock started.
    Elapsed(u64),
}

/// Mathematical state of a ladder.
pub struct LadderModel {
    pub plan: Seq<StagePlan>,
    pub names: Seq<String>,
    /// Names of the matching adapters, in order.
    pub adapters: Seq<String>,
    pub step: QuitStep,
    pub outcomes: Seq<StageOutcome>,
    pub exit: ExitPoint,
    pub reached_terminal: bool,
    /// Hook failures so far: position of the adapter and its error.
    pub failures: Seq<(usize, AdapterError)>,
    /// How many of `failures` were recorded before the `after_quit` hooks
    /// began: the result those hooks see counts only these.
    pub settled_failures: nat,
    /// Set when the quit failed.
    pub error: Option<Error>,
}

// ---------------------------------------------------------------------
// Transition function
// ---------------------------------------------------------------------

pub open spec fn is_hook_step(step: QuitStep) -> bool {
    match step {
        QuitStep::BeforeQuit { .. } | QuitStep::BeforeStage { .. } | QuitStep::AfterStage { .. }
        | QuitStep::ClearCrashState { .. } | QuitStep::AfterQuit { .. } => true,
        _ => false,
    }
}

pub open spec fn hook_adapter(step: QuitStep) -> usize {
    match step {
        QuitStep::BeforeQuit { adapter } => adapter,
        QuitStep::BeforeStage { adapter, .. } => adapter,
        QuitStep::AfterStage { adapter, .. } => adapter,
        QuitStep::ClearCrashState { adapter } => adapter,
        QuitStep::AfterQuit { adapter } => adapter,
        _ => 0,
    }
}

/// Whether `e` answers `step`. Any other event leaves the ladder as it is.
pub open spec fn accepts(step: QuitStep, e: QuitEvent) -> bool {
    match step {
        QuitStep::CheckEmpty { .. } | QuitStep::PollEmpty { .. } => e is Emptiness,
        QuitStep::ExecuteStage { .. } => e is Executed,
        QuitStep::StartClock { .. } | QuitStep::Sleep { .. } => e is Proceed,
        QuitStep::ReadClock { .. } => e is Elapsed,
        QuitStep::Finished => false,
        _ => e is Hook,
    }
}

pub open spec fn with_step(m: LadderModel, step: QuitStep) -> LadderModel {
    LadderModel { step, ..m }
}

/// First stage at or after `s` that is not skipped (`plan.len()` if none).
pub open spec fn next_unskipped(plan: Seq<StagePlan>, s: int) -> int
    decreases plan.len() - s,
{
    if s >= plan.len() || s < 0 {
        plan.len() as int
    } else if !plan[s].skipped {
        s
    } else {
        next_unskipped(plan, s + 1)
    }
}

pub open spec fn run_after_quit(m: LadderModel) -> LadderModel {
    if m.adapters.len() > 0 {
        LadderModel {
            step: QuitStep::AfterQuit { adapter: 0 },
            settled_failures: m.failures.len(),
            ..m
        }
    } else {
        with_step(m, QuitStep::Finished)
    }
}

pub open spec fn leave_ladder(m: LadderModel) -> LadderModel {
    if m.reached_terminal && m.adapters.len() > 0 {
        with_step(m, QuitStep::ClearCrashState { adapter: 0 })
    } else {
        run_after_quit(m)
    }
}

pub open spec fn enter_stage(m: LadderModel, s: int) -> LadderModel {
    let t = next_unskipped(m.plan, s);
    if t < m.plan.len() {
        with_step(m, QuitStep::CheckEmpty { stage: t as usize })
    } else {
        leave_ladder(m)
    }
}

pub open spec fn run_stage(m: LadderModel, s: usize) -> LadderModel {
    if m.adapters.len() > 0 {
        with_step(m, QuitStep::BeforeStage { adapter: 0, stage: s })
    } else {
        with_step(m, QuitStep::ExecuteStage { stage: s })
    }
}

pub open spec fn close_stage(m: LadderModel, s: usize, exited: bool) -> LadderModel {
    let m1 = LadderModel {
        outcomes: m.outcomes.push(StageOutcome { index: s, exited }),
        exit: if exited && m.exit is NotYet {
            ExitPoint::AtStage(s)
        } else {
            m.exit
        },
        ..m
    };
    if m.plan[s as int].is_terminal {
        leave_ladder(LadderModel { reached_terminal: true, ..m1 })
    } else if exited {
        leave_ladder(m1)
    } else {
        enter_stage(m1, s + 1)
    }
}

pub open spec fn stage_done(m: LadderModel, s: usize, exited: bool) -> LadderModel {
    if m.adapters.len() > 0 {
        with_step(m, QuitStep::AfterStage { adapter: 0, stage: s, exited })
    } else {
        close_stage(m, s, exited)
    }
}

pub open spec fn record(m: LadderModel, e: QuitEvent, a: usize) -> LadderModel {
    match e {
        QuitEvent::Hook(Err(err)) => LadderModel { failures: m.failures.push((a, err)), ..m },
        _ => m,
    }
}

pub open spec fn abort(m: LadderModel, err: Error) -> LadderModel {
    LadderModel { step: QuitStep::Finished, error: Some(err), ..m }
}

/// The ladder after `e` answers its current step.
pub open spec fn next(m: LadderModel, e: QuitEvent) -> LadderModel {
    if !accepts(m.step, e) {
        m
    } else {
        let n = m.adapters.len();
        match m.step {
            QuitStep::BeforeQuit { adapter } => {
                let m1 = record(m, e, adapter);
                if adapter + 1 < n {
                    with_step(m1, QuitStep::BeforeQuit { adapter: (adapter + 1) as usize })
                } else {
                    enter_stage(m1, 0)
                }
            },
            QuitStep::CheckEmpty { stage } => match e {
                QuitEvent::Emptiness(Err(err)) => abort(m, Error::Stage(err)),
                QuitEvent::Emptiness(Ok(true)) => leave_ladder(
                    LadderModel {
                        exit: if m.exit is NotYet {
                            ExitPoint::BeforeStage(stage)
                        } else {
                            m.exit
                        },
                        ..m
                    },
                ),
                _ => run_stage(m, stage),
            },
            QuitStep::BeforeStage { adapter, stage } => {
                let m1 = record(m, e, adapter);
                if adapter + 1 < n {
                    with_step(m1, QuitStep::BeforeStage { adapter: (adapter + 1) as usize, stage })
                } else {
                    with_step(m1, QuitStep::ExecuteStage { stage })
                }
            },
            QuitStep::ExecuteStage { stage } => match e {
                QuitEvent::Executed(Err(err)) => abort(m, Error::Stage(err)),
                _ => with_step(m, QuitStep::StartClock { stage }),
            },
            QuitStep::StartClock { stage } => with_step(m, QuitStep::ReadClock { stage }),
            QuitStep::ReadClock { stage } => match e {
                QuitEvent::Elapsed(ms) => if ms < m.plan[stage as int].max_wait_ms {
                    with_step(m, QuitStep::PollEmpty { stage })
                } else {
                    stage_done(m, stage, false)
                },
                _ => m,
            },
            QuitStep::PollEmpty { stage } => match e {
                QuitEvent::Emptiness(Err(err)) => abort(m, Error::Stage(err)),
                QuitEvent::Emptiness(Ok(true)) => stage_done(m, stage, true),
                _ => with_step(m, QuitStep::Sleep { stage, ms: POLL_INTERVAL_MS }),
            },
            QuitStep::Sleep { stage, .. } => with_step(m, QuitStep::ReadClock { stage }),
            QuitStep::AfterStage { adapter, stage, exited } => {
                let m1 = record(m, e, adapter);
                if adapter + 1 < n {
                    with_step(
                        m1,
                        QuitStep::AfterStage { adapter: (adapter + 1) as usize, stage, exited },
                    )
                } else {
                    close_stage(m1, stage, exited)
                }
            },
            QuitStep::ClearCrashState { adapter } => {
                let m1 = record(m, e, adapter);
                if adapter + 1 < n {
                    with_step(m1, QuitStep::ClearCrashState { adapter: (adapter + 1) as usize })
                } else {
                    run_after_quit(m1)
                }
            },
            QuitStep::AfterQuit { adapter } => {
                let m1 = record(m, e, adapter);
                if adapter + 1 < n {
                    with_step(m1, QuitStep::AfterQuit { adapter: (adapter + 1) as usize })
                } else {
                    with_step(m1, QuitStep::Finished)
                }
            },
            QuitStep::Finished => m,
        }
    }
}

/// The stage plan a quit with `opts` makes of `stages`.
pub open spec fn plan_of(stages: Seq<StageSpec>, opts: QuitOptions) -> Seq<StagePlan> {
    Seq::new(
        stages.len(),
        |i: int|
            StagePlan {
                is_terminal: stages[i].is_terminal,
                max_wait_ms: match lookup_timeout(opts.stage_timeouts@, stages[i].name@) {
                    Some(ms) => ms,
                    None => stages[i].max_wait_ms,
                },
                skipped: skip_listed(opts.skip_stages@, stages[i].name@),
            },
    )
}

pub open spec fn names_of(stages: Seq<StageSpec>) -> Seq<String> {
    stages.map_values(|s: StageSpec| s.name)
}

/// A ladder before its first step. A destroyed container refuses to quit.
pub open spec fn initial(
    plan: Seq<StagePlan>,
    names: Seq<String>,
    adapters: Seq<String>,
    destroyed: bool,
) -> LadderModel {
    let m = LadderModel {
        plan,
        names,
        adapters,
        step: QuitStep::Finished,
        outcomes: Seq::empty(),
        exit: ExitPoint::NotYet,
        reached_terminal: false,
        failures: Seq::empty(),
        settled_failures: 0,
        error: None,
    };
    if destroyed {
        abort(m, Error::AlreadyDestroyed)
    } else if adapters.len() > 0 {
        with_step(m, QuitStep::BeforeQuit { adapter: 0 })
    } else {
        enter_stage(m, 0)
    }
}

// ---------------------------------------------------------------------
// Well-formedness
// ---------------------------------------------------------------------

pub open spec fn stage_ok(m: LadderModel, s: int) -> bool {
    0 <= s < m.plan.len() && !m.plan[s].skipped
}

pub open spec fn outcomes_before(m: LadderModel, s: int) -> bool {
    forall|k: int| 0 <= k < m.outcomes.len() ==> (#[trigger] m.outcomes[k]).index < s
}

/// No stage that ran so far drained the container or was terminal.
pub open spec fn all_open(m: LadderModel) -> bool {
    forall|k: int|
        0 <= k < m.outcomes.len() ==> !(#[trigger] m.outcomes[k]).exited
            && !m.plan[m.outcomes[k].index as int].is_terminal
}

/// In the middle of stage `s`.
pub open spec fn in_stage(m: LadderModel, s: int) -> bool {
    &&& stage_ok(m, s)
    &&& outcomes_before(m, s)
    &&& all_open(m)
    &&& !m.reached_terminal
    &&& m.exit is NotYet
    &&& m.error is None
}

/// The stage walk is over and its record is consistent.
pub open spec fn ladder_done(m: LadderModel) -> bool {
    &&& m.error is None
    &&& (m.reached_terminal ==> m.outcomes.len() > 0 && m.plan[m.outcomes.last().index as int].is_terminal)
    &&& match m.exit {
        ExitPoint::NotYet => true,
        ExitPoint::AtStage(s) => m.outcomes.len() > 0 && m.outcomes.last().index == s
            && m.outcomes.last().exited,
        ExitPoint::BeforeStage(s) => stage_ok(m, s as int) && outcomes_before(m, s as int)
            && all_open(m) && !m.reached_terminal,
    }
}

pub open spec fn is_post_ladder(step: QuitStep) -> bool {
    match step {
        QuitStep::ClearCrashState { .. } | QuitStep::AfterQuit { .. } | QuitStep::Finished => true,
        _ => false,
    }
}

/// Invariants of the record that hold at every step.
pub open spec fn record_ok(m: LadderModel) -> bool {
    &&& m.names.len() == m.plan.len()
    &&& m.plan.len() <= usize::MAX
    &&& m.adapters.len() <= usize::MAX
    &&& forall|i: int, j: int|
        0 <= i < j < m.outcomes.len() ==> (#[trigger] m.outcomes[i]).index
            < (#[trigger] m.outcomes[j]).index
    &&& forall|k: int| 0 <= k < m.outcomes.len() ==> stage_ok(m, (#[trigger] m.outcomes[k]).index as int)
    &&& forall|k: int|
        0 <= k < m.outcomes.len() - 1 ==> !(#[trigger] m.outcomes[k]).exited
            && !m.plan[m.outcomes[k].index as int].is_terminal
    &&& forall|k: int| 0 <= k < m.failures.len() ==> (#[trigger] m.failures[k]).0 < m.adapters.len()
    &&& m.settled_failures <= m.failures.len()
    &&& (m.reached_terminal <==> (m.outcomes.len() > 0
        && m.plan[m.outcomes.last().index as int].is_terminal))
    &&& match m.exit {
        ExitPoint::NotYet => true,
        ExitPoint::BeforeStage(s) => s < m.plan.len(),
        ExitPoint::AtStage(s) => s < m.plan.len(),
    }
}

/// Invariants of the current step.
pub open spec fn step_ok(m: LadderModel) -> bool {
    let n = m.adapters.len();
    match m.step {
        QuitStep::BeforeQuit { adapter } => adapter < n && m.outcomes.len() == 0 && m.exit is NotYet
            && !m.reached_terminal && m.error is None,
        QuitStep::CheckEmpty { stage } => in_stage(m, stage as int),
        QuitStep::BeforeStage { adapter, stage } => adapter < n && in_stage(m, stage as int),
        QuitStep::ExecuteStage { stage } => in_stage(m, stage as int),
        QuitStep::StartClock { stage } => in_stage(m, stage as int),
        QuitStep::ReadClock { stage } => in_stage(m, stage as int),
        QuitStep::PollEmpty { stage } => in_stage(m, stage as int),
        QuitStep::Sleep { stage, ms } => in_stage(m, stage as int) && ms == POLL_INTERVAL_MS,
        QuitStep::AfterStage { adapter, stage, .. } => adapter < n && in_stage(m, stage as int),
        QuitStep::ClearCrashState { adapter } => adapter < n && m.reached_terminal && ladder_done(m),
        QuitStep::AfterQuit { adapter } => adapter < n && ladder_done(m),
        QuitStep::Finished => m.error is Some || ladder_done(m),
    }
}

/// A stage that drained the container is the last one that ran, and the
/// exit is recorded at it.
pub open spec fn drained_ok(m: LadderModel) -> bool {
    m.outcomes.len() > 0 && m.outcomes.last().exited ==> m.exit == ExitPoint::AtStage(
        m.outcomes.last().index,
    ) && is_post_ladder(m.step) && m.error is None
}

/// Well-formed ladder: what every reachable state satisfies.
pub open spec fn wf(m: LadderModel) -> bool {
    record_ok(m) && step_ok(m) && drained_ok(m)
}

// ---------------------------------------------------------------------
// The invariant is inductive
// ---------------------------------------------------------------------

proof fn lemma_next_unskipped(plan: Seq<StagePlan>, s: int)
    requires
        0 <= s,
    ensures
        ({
            let t = next_unskipped(plan, s);
            &&& (s <= plan.len() ==> s <= t)
            &&& t <= plan.len()
            &&& (t < plan.len() ==> !plan[t].skipped)
        }),
    decreases plan.len() - s,
{
    if s < plan.len() && plan[s].skipped {
        lemma_next_unskipped(plan, s + 1);
    }
}

proof fn lemma_leave_ladder_wf(m: LadderModel)
    requires
        record_ok(m),
        ladder_done(m),
        m.outcomes.len() > 0 && m.outcomes.last().exited ==> m.exit == ExitPoint::AtStage(
            m.outcomes.last().index,
        ),
    ensures
        wf(leave_ladder(m)),
{
}

proof fn lemma_enter_stage_wf(m: LadderModel, s: int)
    requires
        record_ok(m),
        0 <= s,
        outcomes_before(m, s),
        all_open(m),
        !m.reached_terminal,
        m.exit is NotYet,
        m.error is None,
    ensures
        wf(enter_stage(m, s)),
{
    lemma_next_unskipped(m.plan, s);
    let t = next_unskipped(m.plan, s);
    if t < m.plan.len() {
        if s <= m.plan.len() {
            assert(s <= t);
        }
        assert(outcomes_before(m, t));
        let m2 = with_step(m, QuitStep::CheckEmpty { stage: t as usize });
        assert(m2 == enter_stage(m, s));
        assert(record_ok(m2));
        assert(in_stage(m2, t));
    } else {
        lemma_leave_ladder_wf(m);
    }
}

proof fn lemma_close_stage_wf(m: LadderModel, s: usize, exited: bool)
    requires
        record_ok(m),
        in_stage(m, s as int),
    ensures
        wf(close_stage(m, s, exited)),
{
    let o = StageOutcome { index: s, exited };
    let m1 = LadderModel {
        outcomes: m.outcomes.push(o),
        exit: if exited && m.exit is NotYet {
            ExitPoint::AtStage(s)
        } else {
            m.exit
        },
        reached_terminal: m.plan[s as int].is_terminal,
        ..m
    };
    assert(m1.outcomes.last() == o);
    assert forall|k: int| 0 <= k < m.outcomes.len() implies #[trigger] m1.outcomes[k] == m.outcomes[k] by {}
    assert(record_ok(m1)) by {
        assert forall|i: int, j: int| 0 <= i < j < m1.outcomes.len() implies (
        #[trigger] m1.outcomes[i]).index < (#[trigger] m1.outcomes[j]).index by {
            if j == m.outcomes.len() {
                assert(m.outcomes[i].index < s);
            }
        }
        assert forall|k: int| 0 <= k < m1.outcomes.len() implies stage_ok(
            m1,
            (#[trigger] m1.outcomes[k]).index as int,
        ) by {
            if k < m.outcomes.len() {
                assert(stage_ok(m, m.outcomes[k].index as int));
            }
        }
        assert forall|k: int| 0 <= k < m1.outcomes.len() - 1 implies !(
        #[trigger] m1.outcomes[k]).exited && !m1.plan[m1.outcomes[k].index as int].is_terminal by {
            assert(all_open(m));
            assert(!m.outcomes[k].exited);
        }
    }
    if m.plan[s as int].is_terminal {
        let m2 = LadderModel { reached_terminal: true, ..m1 };
        assert(record_ok(m2));
        assert(ladder_done(m2));
        lemma_leave_ladder_wf(m2);
    } else if exited {
        assert(ladder_done(m1));
        lemma_leave_ladder_wf(m1);
    } else {
        assert(all_open(m1)) by {
            assert forall|k: int| 0 <= k < m1.outcomes.len() implies !(
            #[trigger] m1.outcomes[k]).exited && !m1.plan[m1.outcomes[k].index as int].is_terminal by {
                if k < m.outcomes.len() {
                    assert(all_open(m));
                    assert(!m.outcomes[k].exited);
                }
            }
        }
        assert(outcomes_before(m1, s + 1)) by {
            assert forall|k: int| 0 <= k < m1.outcomes.len() implies (
            #[trigger] m1.outcomes[k]).index < s + 1 by {
                if k < m.outcomes.len() {
                    assert(outcomes_before(m, s as int));
                    assert(m.outcomes[k].index < s);
                }
            }
        }
        lemma_enter_stage_wf(m1, s + 1);
    }
}

proof fn lemma_record_ok(m: LadderModel, e: QuitEvent, a: usize)
    requires
        record_ok(m),
        a < m.adapters.len(),
    ensures
        record_ok(record(m, e, a)),
        record(m, e, a).step == m.step,
        record(m, e, a).outcomes == m.outcomes,
        record(m, e, a).exit == m.exit,
        record(m, e, a).reached_terminal == m.reached_terminal,
        record(m, e, a).error == m.error,
        record(m, e, a).plan == m.plan,
        record(m, e, a).adapters == m.adapters,
        record(m, e, a).settled_failures == m.settled_failures,
{
    match e {
        QuitEvent::Hook(Err(err)) => {
            let m1 = record(m, e, a);
            assert forall|k: int| 0 <= k < m1.failures.len() implies (#[trigger] m1.failures[k]).0
                < m1.adapters.len() by {
                if k < m.failures.len() {
                    assert(m1.failures[k] == m.failures[k]);
                }
            }
        },
        _ => {},
    }
}

/// Every step keeps a ladder well formed.
pub proof fn lemma_next_wf(m: LadderModel, e: QuitEvent)
    requires
        wf(m),
    ensures
        wf(next(m, e)),
{
    if accepts(m.step, e) {
        match m.step {
            QuitStep::BeforeQuit { adapter } => {
                lemma_record_ok(m, e, adapter);
                let m1 = record(m, e, adapter);
                if adapter + 1 >= m.adapters.len() {
                    assert(outcomes_before(m1, 0));
                    lemma_enter_stage_wf(m1, 0);
                }
            },
            QuitStep::CheckEmpty { stage } => match e {
                QuitEvent::Emptiness(Ok(true)) => {
                    let m1 = LadderModel { exit: ExitPoint::BeforeStage(stage), ..m };
                    assert(ladder_done(m1));
                    lemma_leave_ladder_wf(m1);
                },
                _ => {},
            },
            QuitStep::BeforeStage { adapter, stage } => {
                lemma_record_ok(m, e, adapter);
            },
            QuitStep::ReadClock { stage } => {
                if m.adapters.len() == 0 {
                    lemma_close_stage_wf(m, stage, false);
                }
            },
            QuitStep::PollEmpty { stage } => match e {
                QuitEvent::Emptiness(Ok(true)) => {
                    if m.adapters.len() == 0 {
                        lemma_close_stage_wf(m, stage, true);
                    }
                },
                _ => {},
            },
            QuitStep::AfterStage { adapter, stage, exited } => {
                lemma_record_ok(m, e, adapter);
                let m1 = record(m, e, adapter);
                if adapter + 1 >= m.adapters.len() {
                    lemma_close_stage_wf(m1, stage, exited);
                }
            },
            QuitStep::ClearCrashState { adapter } => {
                lemma_record_ok(m, e, adapter);
            },
            QuitStep::AfterQuit { adapter } => {
                lemma_record_ok(m, e, adapter);
            },
            _ => {},
        }
    }
}

/// A fresh ladder is well formed.
pub proof fn lemma_initial_wf(
    plan: Seq<StagePlan>,
    names: Seq<String>,
    adapters: Seq<String>,
    destroyed: bool,
)
    requires
        names.len() == plan.len(),
        plan.len() <= usize::MAX,
        adapters.len() <= usize::MAX,
    ensures
        wf(initial(plan, names, adapters, destroyed)),
{
    let m = LadderModel {
        plan,
        names,
        adapters,
        step: QuitStep::Finished,
        outcomes: Seq::empty(),
        exit: ExitPoint::NotYet,
        reached_terminal: false,
        failures: Seq::empty(),
        settled_failures: 0,
        error: None,
    };
    if !destroyed && adapters.len() == 0 {
        lemma_enter_stage_wf(m, 0);
    }
}

// ---------------------------------------------------------------------
// Laws of the quit ladder
// ---------------------------------------------------------------------

/// The same hook step with the next adapter.
pub open spec fn with_next_adapter(step: QuitStep) -> QuitStep {
    match step {
        QuitStep::BeforeQuit { adapter } => QuitStep::BeforeQuit { adapter: (adapter + 1) as usize },
        QuitStep::BeforeStage { adapter, stage } => QuitStep::BeforeStage {
            adapter: (adapter + 1) as usize,
            stage,
        },
        QuitStep::AfterStage { adapter, stage, exited } => QuitStep::AfterStage {
            adapter: (adapter + 1) as usize,
            stage,
            exited,
        },
        QuitStep::ClearCrashState { adapter } => QuitStep::ClearCrashState {
            adapter: (adapter + 1) as usize,
        },
        QuitStep::AfterQuit { adapter } => QuitStep::AfterQuit { adapter: (adapter + 1) as usize },
        _ => step,
    }
}

/// The same hook step with the previous adapter.
pub open spec fn with_previous_adapter(step: QuitStep) -> QuitStep {
    match step {
        QuitStep::BeforeQuit { adapter } => QuitStep::BeforeQuit { adapter: (adapter - 1) as usize },
        QuitStep::BeforeStage { adapter, stage } => QuitStep::BeforeStage {
            adapter: (adapter - 1) as usize,
            stage,
        },
        QuitStep::AfterStage { adapter, stage, exited } => QuitStep::AfterStage {
            adapter: (adapter - 1) as usize,
            stage,
            exited,
        },
        QuitStep::ClearCrashState { adapter } => QuitStep::ClearCrashState {
            adapter: (adapter - 1) as usize,
        },
        QuitStep::AfterQuit { adapter } => QuitStep::AfterQuit { adapter: (adapter - 1) as usize },
        _ => step,
    }
}

/// Adapter hooks are advisory: a failing hook is recorded and the ladder
/// goes on exactly as it would after a successful one.
pub proof fn law_hook_failure_is_only_recorded(m: LadderModel, err: AdapterError)
    requires
        wf(m),
        is_hook_step(m.step),
    ensures
        next(m, QuitEvent::Hook(Ok(()))).failures == m.failures,
        next(m, QuitEvent::Hook(Err(err))).failures == m.failures.push((hook_adapter(m.step), err)),
        next(m, QuitEvent::Hook(Err(err))).step == next(m, QuitEvent::Hook(Ok(()))).step,
        next(m, QuitEvent::Hook(Err(err))).outcomes == next(m, QuitEvent::Hook(Ok(()))).outcomes,
        next(m, QuitEvent::Hook(Err(err))).exit == next(m, QuitEvent::Hook(Ok(()))).exit,
        next(m, QuitEvent::Hook(Err(err))).reached_terminal == next(
            m,
            QuitEvent::Hook(Ok(())),
        ).reached_terminal,
        next(m, QuitEvent::Hook(Err(err))).error == next(m, QuitEvent::Hook(Ok(()))).error,
{
}

/// A failed emptiness check or stage execution ends the quit at once with
/// that error: no further stage or hook runs.
pub proof fn law_stage_failure_ends_quit(m: LadderModel, err: StageError, e: QuitEvent)
    requires
        wf(m),
        (m.step is CheckEmpty || m.step is PollEmpty) && e == QuitEvent::Emptiness(Err(err))
            || m.step is ExecuteStage && e == QuitEvent::Executed(Err(err)),
    ensures
        next(m, e).step == QuitStep::Finished,
        next(m, e).error == Some(Error::Stage(err)),
        next(m, e).outcomes == m.outcomes,
        next(m, e).failures == m.failures,
{
}

/// Nothing happens after a quit has finished.
pub proof fn law_finished_is_final(m: LadderModel, e: QuitEvent)
    requires
        m.step == QuitStep::Finished,
    ensures
        next(m, e) == m,
{
}

/// An event that does not answer the current step changes nothing.
pub proof fn law_unexpected_event_is_ignored(m: LadderModel, e: QuitEvent)
    requires
        !accepts(m.step, e),
    ensures
        next(m, e) == m,
{
}

/// `clear_crash_state` hooks run only after the terminal stage was reached.
pub proof fn law_crash_state_cleared_only_after_terminal(m: LadderModel)
    requires
        wf(m),
        m.step is ClearCrashState,
    ensures
        m.reached_terminal,
        m.outcomes.len() > 0,
        m.plan[m.outcomes.last().index as int].is_terminal,
{
}

/// Once the terminal stage was reached, or a stage drained the container,
/// the stage walk is over, and it never resumes.
pub proof fn law_ladder_ends_at_terminal_or_drained_stage(m: LadderModel, e: QuitEvent)
    requires
        wf(m),
        m.reached_terminal || (m.outcomes.len() > 0 && m.outcomes.last().exited),
    ensures
        is_post_ladder(m.step),
        is_post_ladder(next(m, e).step),
        next(m, e).outcomes == m.outcomes,
{
}

/// Stages run in ladder order, each at most once, and only the last one
/// that ran can have drained the container or been terminal.
pub proof fn law_stages_run_in_order(m: LadderModel, i: int, j: int)
    requires
        wf(m),
        0 <= i < j < m.outcomes.len(),
    ensures
        m.outcomes[i].index < m.outcomes[j].index,
        !m.outcomes[i].exited,
        !m.plan[m.outcomes[i].index as int].is_terminal,
{
}

/// A skipped stage is never checked, executed or waited on, and never
/// appears among the stages that ran.
pub proof fn law_skipped_stages_never_run(m: LadderModel, k: int)
    requires
        wf(m),
    ensures
        match m.step {
            QuitStep::CheckEmpty { stage } | QuitStep::BeforeStage { stage, .. }
            | QuitStep::ExecuteStage { stage } | QuitStep::StartClock { stage }
            | QuitStep::ReadClock { stage } | QuitStep::PollEmpty { stage }
            | QuitStep::Sleep { stage, .. } | QuitStep::AfterStage { stage, .. } =>
                !m.plan[stage as int].skipped,
            _ => true,
        },
        0 <= k < m.outcomes.len() ==> !m.plan[m.outcomes[k].index as int].skipped,
{
}

/// Every matching adapter runs each hook, one after another in order: a
/// hook step moves on to the next adapter, and a hook step for an adapter
/// past the first is only ever reached from the same hook of the adapter
/// before it.
pub proof fn law_hooks_run_for_each_adapter_in_order(m: LadderModel, e: QuitEvent)
    requires
        wf(m),
    ensures
        is_hook_step(m.step) && accepts(m.step, e) && hook_adapter(m.step) + 1 < m.adapters.len()
            ==> next(m, e).step == with_next_adapter(m.step),
        is_hook_step(next(m, e).step) && hook_adapter(next(m, e).step) > 0 && next(m, e).step
            != m.step ==> m.step == with_previous_adapter(next(m, e).step),
{
    let m2 = next(m, e);
    if accepts(m.step, e) && is_hook_step(m2.step) && hook_adapter(m2.step) > 0 && m2.step != m.step {
        lemma_hook_steps_start_at_first_adapter(m, e);
    }
}

/// Hook steps are entered at the first adapter; the only way to reach a
/// later adapter is from the adapter before it in the same hook.
proof fn lemma_hook_steps_start_at_first_adapter(m: LadderModel, e: QuitEvent)
    requires
        wf(m),
        accepts(m.step, e),
        is_hook_step(next(m, e).step),
        hook_adapter(next(m, e).step) > 0,
    ensures
        m.step == with_previous_adapter(next(m, e).step),
{
    let n = m.adapters.len();
    match m.step {
        QuitStep::BeforeQuit { adapter } => {
            let m1 = record(m, e, adapter);
            if adapter + 1 >= n {
                lemma_next_unskipped(m1.plan, 0);
                assert(hook_adapter(enter_stage(m1, 0).step) == 0);
            } else {
                assert(next(m, e).step == QuitStep::BeforeQuit { adapter: (adapter + 1) as usize });
                assert(with_previous_adapter(next(m, e).step) == QuitStep::BeforeQuit {
                    adapter: adapter,
                });
            }
        },
        QuitStep::CheckEmpty { stage } => {},
        QuitStep::BeforeStage { adapter, stage } => {},
        QuitStep::ReadClock { stage } => {
            lemma_next_unskipped(m.plan, stage + 1);
        },
        QuitStep::PollEmpty { stage } => {
            lemma_next_unskipped(m.plan, stage + 1);
        },
        QuitStep::AfterStage { adapter, stage, exited } => {
            if adapter + 1 >= n {
                let m1 = record(m, e, adapter);
                lemma_next_unskipped(m1.plan, stage + 1);
                assert(hook_adapter(close_stage(m1, stage, exited).step) == 0);
            }
        },
        QuitStep::ClearCrashState { adapter } => {},
        QuitStep::AfterQuit { adapter } => {},
        _ => {},
    }
}

/// The wait after a stage is its own `max_wait` unless the options
/// override it by name; the container is polled only while the elapsed
/// time is below that wait.
pub proof fn law_stage_wait_honors_override(
    stages: Seq<StageSpec>,
    opts: QuitOptions,
    i: int,
    m: LadderModel,
    stage: usize,
    ms: u64,
)
    requires
        0 <= i < stages.len(),
        wf(m),
        m.step == (QuitStep::ReadClock { stage }),
    ensures
        plan_of(stages, opts)[i].max_wait_ms == (match lookup_timeout(
            opts.stage_timeouts@,
            stages[i].name@,
        ) {
            Some(t) => t,
            None => stages[i].max_wait_ms,
        }),
        (next(m, QuitEvent::Elapsed(ms)).step is PollEmpty) == (ms < m.plan[stage as int].max_wait_ms),
{
    lemma_next_unskipped(m.plan, stage + 1);
}

/// A destroyed container refuses to quit.
pub proof fn law_destroyed_container_refuses_quit(
    plan: Seq<StagePlan>,
    names: Seq<String>,
    adapters: Seq<String>,
)
    ensures
        initial(plan, names, adapters, true).step == QuitStep::Finished,
        initial(plan, names, adapters, true).error == Some(Error::AlreadyDestroyed),
{
}

// ---------------------------------------------------------------------
// Whole quits
// ---------------------------------------------------------------------

/// The ladder after answering each of `es` in turn.
pub open spec fn run(m: LadderModel, es: Seq<QuitEvent>) -> LadderModel
    decreases es.len(),
{
    if es.len() == 0 {
        m
    } else {
        run(next(m, es[0]), es.drop_first())
    }
}

/// The steps performed along `es`: each step that an event answered, in
/// order (for a hook step, one call of that hook).
pub open spec fn performed(m: LadderModel, es: Seq<QuitEvent>) -> Seq<QuitStep>
    decreases es.len(),
{
    if es.len() == 0 {
        Seq::empty()
    } else if accepts(m.step, es[0]) {
        seq![m.step] + performed(next(m, es[0]), es.drop_first())
    } else {
        performed(next(m, es[0]), es.drop_first())
    }
}

/// A step of the stage walk (its hooks included).
pub open spec fn is_stage_step(step: QuitStep) -> bool {
    match step {
        QuitStep::CheckEmpty { .. } | QuitStep::BeforeStage { .. } | QuitStep::ExecuteStage { .. }
        | QuitStep::StartClock { .. } | QuitStep::ReadClock { .. } | QuitStep::PollEmpty { .. }
        | QuitStep::Sleep { .. } | QuitStep::AfterStage { .. } => true,
        _ => false,
    }
}

pub open spec fn count_from(from: int, n: int) -> nat {
    if from <= n {
        (n - from) as nat
    } else {
        0
    }
}

/// `before_quit` of adapters `from..n`, in order.
pub open spec fn before_quit_calls(from: int, n: int) -> Seq<QuitStep> {
    Seq::new(count_from(from, n), |k: int| QuitStep::BeforeQuit { adapter: (from + k) as usize })
}

/// `clear_crash_state` of adapters `from..n`, in order.
pub open spec fn clear_crash_state_calls(from: int, n: int) -> Seq<QuitStep> {
    Seq::new(
        count_from(from, n),
        |k: int| QuitStep::ClearCrashState { adapter: (from + k) as usize },
    )
}

/// `after_quit` of adapters `from..n`, in order.
pub open spec fn after_quit_calls(from: int, n: int) -> Seq<QuitStep> {
    Seq::new(count_from(from, n), |k: int| QuitStep::AfterQuit { adapter: (from + k) as usize })
}

/// The hooks that close a quit of `n` matching adapters: `clear_crash_state`
/// of each when the terminal stage was reached, then `after_quit` of each.
pub open spec fn closing_calls(n: int, reached_terminal: bool) -> Seq<QuitStep> {
    (if reached_terminal {
        clear_crash_state_calls(0, n)
    } else {
        Seq::empty()
    }) + after_quit_calls(0, n)
}

/// What is still performed from `step` by a quit that ends without error,
/// `mid` being the stage steps it still performs.
pub open spec fn remaining_calls(
    step: QuitStep,
    n: int,
    mid: Seq<QuitStep>,
    reached_terminal: bool,
) -> Seq<QuitStep> {
    match step {
        QuitStep::BeforeQuit { adapter } => before_quit_calls(adapter as int, n) + mid
            + closing_calls(n, reached_terminal),
        QuitStep::ClearCrashState { adapter } => clear_crash_state_calls(adapter as int, n)
            + after_quit_calls(0, n),
        QuitStep::AfterQuit { adapter } => after_quit_calls(adapter as int, n),
        QuitStep::Finished => Seq::empty(),
        _ => mid + closing_calls(n, reached_terminal),
    }
}

/// Where an answered step `x` can lead (`y`), for `n` matching adapters;
/// `y_rt` and `y_failed` are the terminal flag and failure after it.
pub open spec fn phase_move(x: QuitStep, y: QuitStep, n: int, y_rt: bool, y_failed: bool) -> bool {
    &&& x matches QuitStep::BeforeQuit { adapter } ==> (adapter + 1 < n && y
        == QuitStep::BeforeQuit { adapter: (adapter + 1) as usize }) || (adapter + 1 == n && (
    is_stage_step(y) || (y == QuitStep::AfterQuit { adapter: 0 } && !y_rt)))
    &&& is_stage_step(x) ==> is_stage_step(y) || (y == QuitStep::ClearCrashState { adapter: 0 }
        && y_rt) || (y == QuitStep::AfterQuit { adapter: 0 } && !y_rt) || (y == QuitStep::Finished
        && (y_failed || n == 0))
    &&& x matches QuitStep::ClearCrashState { adapter } ==> (adapter + 1 < n && y
        == QuitStep::ClearCrashState { adapter: (adapter + 1) as usize }) || (adapter + 1 == n && y
        == QuitStep::AfterQuit { adapter: 0 })
    &&& x matches QuitStep::AfterQuit { adapter } ==> (adapter + 1 < n && y == QuitStep::AfterQuit {
        adapter: (adapter + 1) as usize,
    }) || (adapter + 1 == n && y == QuitStep::Finished && !y_failed)
}

/// Where one answered step can lead.
proof fn lemma_phase_step(m: LadderModel, e: QuitEvent)
    requires
        wf(m),
        accepts(m.step, e),
    ensures
        next(m, e).adapters == m.adapters,
        phase_move(
            m.step,
            next(m, e).step,
            m.adapters.len() as int,
            next(m, e).reached_terminal,
            next(m, e).error is Some,
        ),
        is_post_ladder(m.step) ==> next(m, e).reached_terminal == m.reached_terminal,
{
    match m.step {
        QuitStep::BeforeQuit { adapter } => {
            lemma_record_ok(m, e, adapter);
        },
        QuitStep::BeforeStage { adapter, .. } => {
            lemma_record_ok(m, e, adapter);
        },
        QuitStep::AfterStage { adapter, .. } => {
            lemma_record_ok(m, e, adapter);
        },
        QuitStep::ClearCrashState { adapter } => {
            lemma_record_ok(m, e, adapter);
        },
        QuitStep::AfterQuit { adapter } => {
            lemma_record_ok(m, e, adapter);
        },
        _ => {},
    }
}

/// Nothing is performed once a quit has finished.
proof fn lemma_run_finished(m: LadderModel, es: Seq<QuitEvent>)
    requires
        m.step == QuitStep::Finished,
    ensures
        run(m, es) == m,
        performed(m, es) == Seq::<QuitStep>::empty(),
    decreases es.len(),
{
    if es.len() > 0 {
        lemma_run_finished(next(m, es[0]), es.drop_first());
    }
}

/// One answered step `x` in front of what `y` still performs.
proof fn lemma_shape_step(
    x: QuitStep,
    y: QuitStep,
    n: int,
    x_rt: bool,
    y_rt: bool,
    y_failed: bool,
    mid2: Seq<QuitStep>,
    rt: bool,
) -> (mid: Seq<QuitStep>)
    requires
        x != QuitStep::Finished,
        phase_move(x, y, n, y_rt, y_failed),
        y == QuitStep::Finished ==> !y_failed,
        forall|k: int| 0 <= k < mid2.len() ==> is_stage_step(#[trigger] mid2[k]),
        y is ClearCrashState ==> rt,
        is_post_ladder(y) ==> rt == y_rt,
        is_post_ladder(x) ==> y_rt == x_rt,
        x is ClearCrashState ==> x_rt,
        0 <= n <= usize::MAX,
    ensures
        forall|k: int| 0 <= k < mid.len() ==> is_stage_step(#[trigger] mid[k]),
        seq![x] + remaining_calls(y, n, mid2, rt) == remaining_calls(x, n, mid, rt),
        x is ClearCrashState ==> rt,
        is_post_ladder(x) ==> rt == x_rt,
{
    let p2 = remaining_calls(y, n, mid2, rt);
    let c = closing_calls(n, rt);
    match x {
        QuitStep::BeforeQuit { adapter } => {
            let a = adapter as int;
            assert(before_quit_calls(a, n) =~= seq![x] + before_quit_calls(a + 1, n));
            if y is BeforeQuit {
                assert(y == QuitStep::BeforeQuit { adapter: (adapter + 1) as usize });
                assert(p2 == before_quit_calls(a + 1, n) + mid2 + c);
                assert(seq![x] + p2 =~= before_quit_calls(a, n) + mid2 + c);
                mid2
            } else if is_stage_step(y) {
                assert(before_quit_calls(a + 1, n) =~= Seq::<QuitStep>::empty());
                assert(seq![x] + p2 =~= before_quit_calls(a, n) + mid2 + c);
                mid2
            } else {
                assert(before_quit_calls(a + 1, n) =~= Seq::<QuitStep>::empty());
                assert(c =~= after_quit_calls(0, n));
                assert(seq![x] + p2 =~= before_quit_calls(a, n) + Seq::<QuitStep>::empty() + c);
                Seq::empty()
            }
        },
        QuitStep::ClearCrashState { adapter } => {
            let a = adapter as int;
            assert(clear_crash_state_calls(a, n) =~= seq![x] + clear_crash_state_calls(a + 1, n));
            if y is AfterQuit {
                assert(clear_crash_state_calls(a + 1, n) =~= Seq::<QuitStep>::empty());
            }
            assert(seq![x] + p2 =~= clear_crash_state_calls(a, n) + after_quit_calls(0, n));
            Seq::empty()
        },
        QuitStep::AfterQuit { adapter } => {
            let a = adapter as int;
            assert(after_quit_calls(a, n) =~= seq![x] + after_quit_calls(a + 1, n));
            if y == QuitStep::Finished {
                assert(after_quit_calls(a + 1, n) =~= Seq::<QuitStep>::empty());
            }
            assert(seq![x] + p2 =~= after_quit_calls(a, n));
            Seq::empty()
        },
        _ => {
            assert(is_stage_step(x));
            if is_stage_step(y) {
                let mid = seq![x] + mid2;
                assert forall|k: int| 0 <= k < mid.len() implies is_stage_step(#[trigger] mid[k]) by {
                    if k > 0 {
                        assert(mid[k] == mid2[k - 1]);
                    }
                }
                assert(p2 == mid2 + c);
                assert(seq![x] + p2 =~= mid + c);
                mid
            } else {
                let mid = seq![x];
                if y is ClearCrashState {
                    assert(y == QuitStep::ClearCrashState { adapter: 0 });
                    assert(p2 == clear_crash_state_calls(0, n) + after_quit_calls(0, n));
                    assert(c =~= clear_crash_state_calls(0, n) + after_quit_calls(0, n));
                } else if y is AfterQuit {
                    assert(y == QuitStep::AfterQuit { adapter: 0 });
                    assert(p2 == after_quit_calls(0, n));
                    assert(c =~= after_quit_calls(0, n));
                } else {
                    assert(y == QuitStep::Finished);
                    assert(after_quit_calls(0, n) =~= Seq::<QuitStep>::empty());
                    assert(clear_crash_state_calls(0, n) =~= Seq::<QuitStep>::empty());
                    assert(c =~= Seq::<QuitStep>::empty());
                    assert(p2 =~= Seq::<QuitStep>::empty());
                }
                assert(seq![x] + p2 =~= mid + c);
                mid
            }
        },
    }
}

proof fn lemma_performed_shape(m: LadderModel, es: Seq<QuitEvent>) -> (mid: Seq<QuitStep>)
    requires
        wf(m),
        run(m, es).step == QuitStep::Finished,
        run(m, es).error is None,
    ensures
        forall|k: int| 0 <= k < mid.len() ==> is_stage_step(#[trigger] mid[k]),
        performed(m, es) == remaining_calls(
            m.step,
            m.adapters.len() as int,
            mid,
            run(m, es).reached_terminal,
        ),
        m.step is ClearCrashState ==> run(m, es).reached_terminal,
        is_post_ladder(m.step) ==> run(m, es).reached_terminal == m.reached_terminal,
    decreases es.len(),
{
    if es.len() == 0 {
        return Seq::empty();
    }
    let e = es[0];
    let rest = es.drop_first();
    let m2 = next(m, e);
    lemma_next_wf(m, e);
    assert(run(m, es) == run(m2, rest));
    if !accepts(m.step, e) {
        assert(m2 == m);
        assert(performed(m, es) == performed(m2, rest));
        return lemma_performed_shape(m2, rest);
    }
    assert(performed(m, es) == seq![m.step] + performed(m2, rest));
    lemma_phase_step(m, e);
    if m2.step == QuitStep::Finished && m2.error is Some {
        lemma_run_finished(m2, rest);
        assert(false);
    }
    let mid2 = lemma_performed_shape(m2, rest);
    assert(m.step is ClearCrashState ==> m.reached_terminal);
    lemma_shape_step(
        m.step,
        m2.step,
        m.adapters.len() as int,
        m.reached_terminal,
        m2.reached_terminal,
        m2.error is Some,
        mid2,
        run(m, es).reached_terminal,
    )
}

/// What must come right before `y` in a quit of `n` matching adapters:
/// a stage executes right after the last adapter's `before_stage` for it
/// (or right after its emptiness check, with no adapters); its wait starts
/// right after it executed; the first `after_stage` for it comes right
/// after its wait ended (the clock read past the wait, or a poll found the
/// container empty).
pub open spec fn comes_after(x: QuitStep, y: QuitStep, n: int) -> bool {
    match y {
        QuitStep::ExecuteStage { stage } => if n > 0 {
            x == QuitStep::BeforeStage { adapter: (n - 1) as usize, stage }
        } else {
            x == QuitStep::CheckEmpty { stage }
        },
        QuitStep::StartClock { stage } => x == QuitStep::ExecuteStage { stage },
        QuitStep::AfterStage { adapter, stage, exited } => if adapter == 0 {
            (!exited && x == QuitStep::ReadClock { stage }) || (exited && x == QuitStep::PollEmpty {
                stage,
            })
        } else {
            x == QuitStep::AfterStage { adapter: (adapter - 1) as usize, stage, exited }
        },
        _ => true,
    }
}

proof fn lemma_comes_after_step(m: LadderModel, e: QuitEvent)
    requires
        wf(m),
        accepts(m.step, e),
    ensures
        comes_after(m.step, next(m, e).step, m.adapters.len() as int),
{
    let n = m.adapters.len();
    match m.step {
        QuitStep::BeforeQuit { adapter } => {
            lemma_record_ok(m, e, adapter);
        },
        QuitStep::BeforeStage { adapter, .. } => {
            lemma_record_ok(m, e, adapter);
        },
        QuitStep::ReadClock { stage } => {
            lemma_next_unskipped(m.plan, stage + 1);
        },
        QuitStep::PollEmpty { stage } => {
            lemma_next_unskipped(m.plan, stage + 1);
        },
        QuitStep::AfterStage { adapter, stage, exited } => {
            lemma_record_ok(m, e, adapter);
            lemma_next_unskipped(m.plan, stage + 1);
        },
        QuitStep::ClearCrashState { adapter } => {
            lemma_record_ok(m, e, adapter);
        },
        QuitStep::AfterQuit { adapter } => {
            lemma_record_ok(m, e, adapter);
        },
        _ => {},
    }
}

proof fn lemma_performed_starts_at_step(m: LadderModel, es: Seq<QuitEvent>)
    requires
        performed(m, es).len() > 0,
    ensures
        performed(m, es)[0] == m.step,
    decreases es.len(),
{
    if !accepts(m.step, es[0]) {
        assert(next(m, es[0]) == m);
        lemma_performed_starts_at_step(next(m, es[0]), es.drop_first());
    }
}

/// Along any quit, each stage executes right after the last adapter's
/// `before_stage` for it, its wait starts right after it executed, and
/// its `after_stage` hooks come right after its wait ended, adapter after
/// adapter.
pub proof fn law_stage_hooks_surround_execution(m: LadderModel, es: Seq<QuitEvent>, k: int)
    requires
        wf(m),
        0 < k < performed(m, es).len(),
    ensures
        comes_after(performed(m, es)[k - 1], performed(m, es)[k], m.adapters.len() as int),
    decreases es.len(),
{
    let e = es[0];
    let m2 = next(m, e);
    let rest = es.drop_first();
    lemma_next_wf(m, e);
    if !accepts(m.step, e) {
        assert(m2 == m);
        law_stage_hooks_surround_execution(m2, rest, k);
    } else {
        let p2 = performed(m2, rest);
        assert(performed(m, es) == seq![m.step] + p2);
        lemma_phase_step(m, e);
        if k == 1 {
            lemma_performed_starts_at_step(m2, rest);
            lemma_comes_after_step(m, e);
        } else {
            law_stage_hooks_surround_execution(m2, rest, k - 1);
        }
    }
}

/// A quit reports the terminal stage reached exactly when the last stage
/// it ran (the last of its stage results) is terminal.
pub proof fn law_terminal_reached_iff_last_result_terminal(r: QuitResult, m: LadderModel)
    requires
        wf(m),
        reports(r, m),
    ensures
        r.reached_terminal_stage <==> (r.stage_results@.len() > 0
            && r.stage_results@.last().is_terminal),
{
    if r.stage_results@.len() > 0 {
        let k = r.stage_results@.len() - 1;
        assert(describes(r.stage_results@[k], m, m.outcomes[k]));
    }
}

proof fn lemma_next_unskipped_is_first(plan: Seq<StagePlan>, s: int, t: int)
    requires
        0 <= s <= t < plan.len(),
        !plan[t].skipped,
        forall|j: int| s <= j < t ==> (#[trigger] plan[j]).skipped,
    ensures
        next_unskipped(plan, s) == t,
    decreases t - s,
{
    if s < t {
        lemma_next_unskipped_is_first(plan, s + 1, t);
    }
}

/// Escalation goes on: when a stage that is not terminal has run without
/// the container draining (its wait ran out, and the last adapter's
/// `after_stage` for it has returned), the next step is the emptiness
/// check of the first later stage that is not skipped.
pub proof fn law_undrained_stage_escalates(m: LadderModel, e: QuitEvent, s: usize, t: int)
    requires
        wf(m),
        (m.step == QuitStep::ReadClock { stage: s } && m.adapters.len() == 0 && (e matches QuitEvent::Elapsed(ms) && ms >= m.plan[s as int].max_wait_ms)) || (m.adapters.len()
            > 0 && m.step == QuitStep::AfterStage {
            adapter: (m.adapters.len() - 1) as usize,
            stage: s,
            exited: false,
        } && e is Hook),
        !m.plan[s as int].is_terminal,
        s < t < m.plan.len(),
        !m.plan[t].skipped,
        forall|j: int| s < j < t ==> (#[trigger] m.plan[j]).skipped,
    ensures
        next(m, e).step == (QuitStep::CheckEmpty { stage: t as usize }),
{
    lemma_next_unskipped_is_first(m.plan, s + 1, t);
    if m.step is AfterStage {
        lemma_record_ok(m, e, (m.adapters.len() - 1) as usize);
    }
}

/// Every stage that ran gets its `after_stage` hooks: when a stage's wait
/// ends (the clock read past its wait, or a poll found the container
/// empty) and adapters match, the next step is the first adapter's
/// `after_stage` with that stage's outcome.
pub proof fn law_after_stage_follows_every_stage(
    m: LadderModel,
    e: QuitEvent,
    s: usize,
    exited: bool,
)
    requires
        wf(m),
        m.adapters.len() > 0,
        (m.step == QuitStep::ReadClock { stage: s } && !exited && (e matches QuitEvent::Elapsed(
            ms,
        ) && ms >= m.plan[s as int].max_wait_ms)) || (m.step == QuitStep::PollEmpty { stage: s }
            && exited && e == QuitEvent::Emptiness(Ok(true))),
    ensures
        next(m, e).step == (QuitStep::AfterStage { adapter: 0, stage: s, exited }),
{
}

/// A quit starts with the first adapter's `before_quit` when adapters
/// match; the stage walk (right away without adapters, or after the last
/// adapter's `before_quit`) starts with the emptiness check of the first
/// stage that is not skipped.
pub proof fn law_quit_starts_at_first_stage(
    plan: Seq<StagePlan>,
    names: Seq<String>,
    adapters: Seq<String>,
    m: LadderModel,
    e: QuitEvent,
    t: int,
)
    requires
        0 <= t < plan.len(),
        !plan[t].skipped,
        forall|j: int| 0 <= j < t ==> (#[trigger] plan[j]).skipped,
    ensures
        adapters.len() > 0 ==> initial(plan, names, adapters, false).step == (QuitStep::BeforeQuit {
            adapter: 0,
        }),
        adapters.len() == 0 ==> initial(plan, names, adapters, false).step == (QuitStep::CheckEmpty {
            stage: t as usize,
        }),
        wf(m) && m.plan == plan && m.adapters.len() > 0 && m.step == (QuitStep::BeforeQuit {
            adapter: (m.adapters.len() - 1) as usize,
        }) && e is Hook ==> next(m, e).step == (QuitStep::CheckEmpty { stage: t as usize }),
{
    lemma_next_unskipped_is_first(plan, 0, t);
    if wf(m) && m.plan == plan && m.adapters.len() > 0 && m.step == (QuitStep::BeforeQuit {
        adapter: (m.adapters.len() - 1) as usize,
    }) && e is Hook {
        lemma_record_ok(m, e, (m.adapters.len() - 1) as usize);
    }
}

/// Once reached, the terminal stage stays reached: together with
/// `QuitLadder::step`, which marks the container when the ladder first
/// reaches it, a quit that reports the terminal stage leaves the container
/// marked.
pub proof fn law_terminal_flag_never_resets(m: LadderModel, es: Seq<QuitEvent>)
    requires
        wf(m),
        m.reached_terminal,
    ensures
        run(m, es).reached_terminal,
    decreases es.len(),
{
    if es.len() > 0 {
        let e = es[0];
        lemma_next_wf(m, e);
        if accepts(m.step, e) {
            lemma_phase_step(m, e);
            assert(!is_stage_step(m.step) && !(m.step is BeforeQuit));
        }
        law_terminal_flag_never_resets(next(m, e), es.drop_first());
    }
}

/// The hooks of a whole quit that ends without error come in this order:
/// `before_quit` of every matching adapter, in order, before anything
/// else; then only steps of the stage walk (the stage hooks among them);
/// then, exactly when the terminal stage was reached, `clear_crash_state`
/// of every adapter in order; and last `after_quit` of every adapter in
/// order. Each of these hooks runs once per adapter.
pub proof fn law_whole_quit_hook_order(
    plan: Seq<StagePlan>,
    names: Seq<String>,
    adapters: Seq<String>,
    es: Seq<QuitEvent>,
)
    requires
        names.len() == plan.len(),
        plan.len() <= usize::MAX,
        adapters.len() <= usize::MAX,
        run(initial(plan, names, adapters, false), es).step == QuitStep::Finished,
        run(initial(plan, names, adapters, false), es).error is None,
    ensures
        ({
            let p = performed(initial(plan, names, adapters, false), es);
            let n = adapters.len() as int;
            let c = closing_calls(n, run(initial(plan, names, adapters, false), es).reached_terminal);
            &&& p.len() >= n + c.len()
            &&& p.take(n) == before_quit_calls(0, n)
            &&& p.skip(p.len() - c.len()) == c
            &&& forall|k: int| n <= k < p.len() - c.len() ==> is_stage_step(#[trigger] p[k])
        }),
{
    let m0 = initial(plan, names, adapters, false);
    lemma_initial_wf(plan, names, adapters, false);
    let shape = lemma_performed_shape(m0, es);
    let p = performed(m0, es);
    let n = adapters.len() as int;
    let c = closing_calls(n, run(m0, es).reached_terminal);
    let mid = if m0.step == QuitStep::Finished {
        Seq::<QuitStep>::empty()
    } else {
        shape
    };
    if n > 0 {
        assert(m0.step == QuitStep::BeforeQuit { adapter: 0 });
        assert(p == before_quit_calls(0, n) + mid + c);
    } else {
        assert(before_quit_calls(0, n) =~= Seq::<QuitStep>::empty());
        assert(after_quit_calls(0, n) =~= Seq::<QuitStep>::empty());
        assert(clear_crash_state_calls(0, n) =~= Seq::<QuitStep>::empty());
        assert(c =~= Seq::<QuitStep>::empty());
        if m0.step == QuitStep::Finished {
            lemma_run_finished(m0, es);
            assert(p =~= before_quit_calls(0, n) + mid + c);
        } else {
            lemma_next_unskipped(plan, 0);
            assert(is_stage_step(m0.step));
            assert(p == mid + c);
            assert(p =~= before_quit_calls(0, n) + mid + c);
        }
    }
    let b = before_quit_calls(0, n);
    assert(p.take(n) =~= b);
    assert(p.skip(p.len() - c.len()) =~= c);
    assert forall|k: int| n <= k < p.len() - c.len() implies is_stage_step(#[trigger] p[k]) by {
        assert(p[k] == mid[k - n]);
    }
}

/// `clear_crash_state` runs exactly when the terminal stage was reached:
/// over a whole quit that ends without error, each matching adapter's
/// `clear_crash_state` runs once, before any `after_quit`, if the terminal
/// stage was reached, and never otherwise.
pub proof fn law_crash_state_cleared_exactly_when_terminal(
    plan: Seq<StagePlan>,
    names: Seq<String>,
    adapters: Seq<String>,
    es: Seq<QuitEvent>,
    k: int,
)
    requires
        names.len() == plan.len(),
        plan.len() <= usize::MAX,
        adapters.len() <= usize::MAX,
        run(initial(plan, names, adapters, false), es).step == QuitStep::Finished,
        run(initial(plan, names, adapters, false), es).error is None,
        0 <= k < performed(initial(plan, names, adapters, false), es).len(),
    ensures
        performed(initial(plan, names, adapters, false), es)[k] is ClearCrashState
            ==> run(initial(plan, names, adapters, false), es).reached_terminal,
        run(initial(plan, names, adapters, false), es).reached_terminal ==> performed(
            initial(plan, names, adapters, false),
            es,
        ).skip(performed(initial(plan, names, adapters, false), es).len() - 2 * adapters.len())
            == clear_crash_state_calls(0, adapters.len() as int) + after_quit_calls(
            0,
            adapters.len() as int,
        ),
{
    law_whole_quit_hook_order(plan, names, adapters, es);
    let m0 = initial(plan, names, adapters, false);
    let p = performed(m0, es);
    let n = adapters.len() as int;
    let rt = run(m0, es).reached_terminal;
    let c = closing_calls(n, rt);
    if p[k] is ClearCrashState && !rt {
        if k < n {
            assert(p.take(n)[k] == p[k]);
        } else if k < p.len() - c.len() {
            assert(is_stage_step(p[k]));
        } else {
            assert(p.skip(p.len() - c.len())[k - (p.len() - c.len())] == p[k]);
        }
    }
    if rt {
        assert(c.len() == 2 * n);
    }
}

// ---------------------------------------------------------------------
// What a quit reports
// ---------------------------------------------------------------------

/// `exited_at_stage` of the result.
pub open spec fn exit_label(m: LadderModel) -> Option<Seq<char>> {
    match m.exit {
        ExitPoint::NotYet => None,
        ExitPoint::BeforeStage(s) => Some("before:"@ + m.names[s as int]@),
        ExitPoint::AtStage(s) => Some(m.names[s as int]@),
    }
}

pub open spec fn describes(r: StageResult, m: LadderModel, o: StageOutcome) -> bool {
    &&& r.stage_name@ == m.names[o.index as int]@
    &&& r.index == o.index
    &&& r.exited == o.exited
    &&& r.is_terminal == m.plan[o.index as int].is_terminal
}

/// `"<adapter_name>: <message>"`.
pub open spec fn failure_line(m: LadderModel, f: (usize, AdapterError)) -> Seq<char> {
    m.adapters[f.0 as int]@ + ": "@ + f.1.text()
}

/// `r` is the quit result the ladder `m` stands for.
pub open spec fn reports(r: QuitResult, m: LadderModel) -> bool {
    &&& r.reached_terminal_stage == m.reached_terminal
    &&& match (r.exited_at_stage, exit_label(m)) {
        (None, None) => true,
        (Some(x), Some(y)) => x@ == y,
        _ => false,
    }
    &&& r.stage_results@.len() == m.outcomes.len()
    &&& forall|k: int|
        0 <= k < m.outcomes.len() ==> describes(#[trigger] r.stage_results@[k], m, m.outcomes[k])
    &&& r.adapter_errors@.len() == m.failures.len()
    &&& forall|k: int|
        0 <= k < m.failures.len() ==> (#[trigger] r.adapter_errors@[k])@ == failure_line(
            m,
            m.failures[k],
        )
}

/// The ladder as the `after_quit` hooks see it: failures recorded once
/// those hooks began are left out.
pub open spec fn settled(m: LadderModel) -> LadderModel {
    LadderModel { failures: m.failures.take(m.settled_failures as int), ..m }
}

/// Every `after_quit` hook sees the same result: the quit as it stood when
/// the ladder left for those hooks, whatever the earlier `after_quit`
/// hooks returned.
pub proof fn law_after_quit_hooks_see_one_result(m: LadderModel, e: QuitEvent)
    requires
        wf(m),
        next(m, e).step is AfterQuit,
    ensures
        m.step is AfterQuit ==> settled(next(m, e)) == with_step(settled(m), next(m, e).step),
        !(m.step is AfterQuit) ==> settled(next(m, e)) == next(m, e),
{
    let m2 = next(m, e);
    if m.step is AfterQuit {
        if accepts(m.step, e) {
            lemma_record_ok(m, e, hook_adapter(m.step));
        }
        assert(m2.failures.take(m.settled_failures as int) =~= m.failures.take(
            m.settled_failures as int,
        ));
    } else {
        lemma_next_wf(m, e);
        if m2.step != m.step && hook_adapter(m2.step) > 0 {
            lemma_hook_steps_start_at_first_adapter(m, e);
        }
        assert(m2.failures.take(m2.failures.len() as int) =~= m2.failures);
    }
}

// ---------------------------------------------------------------------
// Which adapters take part
// ---------------------------------------------------------------------

/// Positions of the `true` answers, in order: the adapters that match.
pub open spec fn matching_positions(answers: Seq<bool>) -> Seq<usize>
    decreases answers.len(),
{
    if answers.len() == 0 {
        Seq::empty()
    } else if answers.last() {
        matching_positions(answers.drop_last()).push((answers.len() - 1) as usize)
    } else {
        matching_positions(answers.drop_last())
    }
}

/// Hooks go only to matching adapters, in list order: the matching
/// positions are exactly the adapters that answered `true`, each once, in
/// increasing order.
pub proof fn law_matching_positions(answers: Seq<bool>)
    requires
        answers.len() <= usize::MAX,
    ensures
        forall|k: int|
            0 <= k < matching_positions(answers).len() ==> (#[trigger] matching_positions(
                answers,
            )[k]) < answers.len() && answers[matching_positions(answers)[k] as int],
        forall|a: int, b: int|
            0 <= a < b < matching_positions(answers).len() ==> (#[trigger] matching_positions(
                answers,
            )[a]) < (#[trigger] matching_positions(answers)[b]),
        forall|i: int|
            0 <= i < answers.len() && #[trigger] answers[i] ==> matching_positions(
                answers,
            ).contains(i as usize),
    decreases answers.len(),
{
    if answers.len() > 0 {
        let front = answers.drop_last();
        law_matching_positions(front);
        let p0 = matching_positions(front);
        let p = matching_positions(answers);
        let last = (answers.len() - 1) as usize;
        assert forall|k: int| 0 <= k < p0.len() implies p0[k] < front.len() && answers[p0[k] as int]
            by {
            assert(answers[p0[k] as int] == front[p0[k] as int]);
        }
        if answers.last() {
            assert(p == p0.push(last));
            assert forall|k: int| 0 <= k < p.len() implies (#[trigger] p[k]) < answers.len()
                && answers[p[k] as int] by {
                if k < p0.len() {
                    assert(p[k] == p0[k]);
                }
            }
            assert forall|a: int, b: int| 0 <= a < b < p.len() implies (#[trigger] p[a]) < (
            #[trigger] p[b]) by {
                assert(p[a] == p0[a]);
                if b < p0.len() {
                    assert(p[b] == p0[b]);
                }
            }
            assert forall|i: int| 0 <= i < answers.len() && #[trigger] answers[i] implies p.contains(
                i as usize,
            ) by {
                if i < front.len() {
                    assert(front[i] == answers[i]);
                    let k = choose|k: int| 0 <= k < p0.len() && p0[k] == i as usize;
                    assert(p[k] == p0[k]);
                } else {
                    assert(p[p0.len() as int] == last);
                }
            }
        } else {
            assert(p == p0);
            assert forall|i: int| 0 <= i < answers.len() && #[trigger] answers[i] implies p.contains(
                i as usize,
            ) by {
                assert(front[i] == answers[i]);
            }
        }
    }
}

/// The adapters that take part in a quit, given each adapter's name and
/// whether it matches the container's probe: their positions and names,
/// in list order.
pub fn select_matching(names: &Vec<String>, answers: &Vec<bool>) -> (r: (Vec<usize>, Vec<String>))
    requires
        names@.len() == answers@.len(),
    ensures
        r.0@ == matching_positions(answers@),
        r.1@.len() == r.0@.len(),
        forall|k: int| 0 <= k < r.0@.len() ==> (#[trigger] r.1@[k])@ == names@[r.0@[k] as int]@,
{
    let mut positions: Vec<usize> = Vec::new();
    let mut selected: Vec<String> = Vec::new();
    let mut i: usize = 0;
    assert(answers@.take(0) =~= Seq::<bool>::empty());
    while i < answers.len()
        invariant
            i <= answers@.len(),
            names@.len() == answers@.len(),
            positions@ == matching_positions(answers@.take(i as int)),
            selected@.len() == positions@.len(),
            forall|k: int|
                0 <= k < positions@.len() ==> (#[trigger] selected@[k])@ == names@[positions@[k] as int]@,
            forall|k: int| 0 <= k < positions@.len() ==> (#[trigger] positions@[k]) < i,
        decreases answers.len() - i,
    {
        let ghost before = positions@;
        assert(answers@.take(i + 1).drop_last() =~= answers@.take(i as int));
        assert(answers@.take(i + 1).last() == answers@[i as int]);
        if answers[i] {
            positions.push(i);
            selected.push(names[i].clone());
            assert(positions@ =~= before.push(i));
        }
        i += 1;
    }
    assert(answers@.take(answers@.len() as int) =~= answers@);
    (positions, selected)
}

// ---------------------------------------------------------------------
// The executable ladder
// ---------------------------------------------------------------------

pub struct QuitLadder {
    plan: Vec<StagePlan>,
    names: Vec<String>,
    adapters: Vec<String>,
    step: QuitStep,
    outcomes: Vec<StageOutcome>,
    exit: ExitPoint,
    reached_terminal: bool,
    failures: Vec<(usize, AdapterError)>,
    settled_failures: usize,
    error: Option<Error>,
}

impl View for QuitLadder {
    type V = LadderModel;

    closed spec fn view(&self) -> LadderModel {
        LadderModel {
            plan: self.plan@,
            names: self.names@,
            adapters: self.adapters@,
            step: self.step,
            outcomes: self.outcomes@,
            exit: self.exit,
            reached_terminal: self.reached_terminal,
            failures: self.failures@,
            settled_failures: self.settled_failures as nat,
            error: self.error,
        }
    }
}

impl QuitLadder {
    /// Starts a quit of `core` with `opts`; `adapters` names the adapters
    /// that match the container's probe, in order.
    pub fn begin(core: &ContainerCore, opts: &QuitOptions, adapters: Vec<String>) -> (l: QuitLadder)
        ensures
            wf(l@),
            l@ == initial(
                plan_of(core.stages@, *opts),
                names_of(core.stages@),
                adapters@,
                core.destroyed,
            ),
    {
        let mut plan: Vec<StagePlan> = Vec::new();
        let mut names: Vec<String> = Vec::new();
        let n = core.stages.len();
        let mut i: usize = 0;
        while i < n
            invariant
                n == core.stages@.len(),
                i <= n,
                plan@.len() == i,
                names@.len() == i,
                forall|j: int| 0 <= j < i ==> #[trigger] plan@[j] == plan_of(core.stages@, *opts)[j],
                forall|j: int| 0 <= j < i ==> #[trigger] names@[j] == names_of(core.stages@)[j],
            decreases n - i,
        {
            let st = &core.stages[i];
            let wait = match opts.stage_timeout(&st.name) {
                Some(ms) => ms,
                None => st.max_wait_ms,
            };
            let skipped = opts.skips(&st.name);
            plan.push(StagePlan { is_terminal: st.is_terminal, max_wait_ms: wait, skipped });
            names.push(st.name.clone());
            i += 1;
        }
        assert(plan@ =~= plan_of(core.stages@, *opts));
        assert(names@ =~= names_of(core.stages@));
        let mut l = QuitLadder {
            plan,
            names,
            adapters,
            step: QuitStep::Finished,
            outcomes: Vec::new(),
            exit: ExitPoint::NotYet,
            reached_terminal: false,
            failures: Vec::new(),
            settled_failures: 0,
            error: None,
        };
        assert(l.outcomes@ =~= Seq::<StageOutcome>::empty());
        assert(l.failures@ =~= Seq::<(usize, AdapterError)>::empty());
        let na = l.adapters.len();
        let np = l.plan.len();
        assert(na == l@.adapters.len() && np == l@.plan.len());
        if core.destroyed {
            l.abort(Error::AlreadyDestroyed);
        } else if l.adapters.len() > 0 {
            l.set_step(QuitStep::BeforeQuit { adapter: 0 });
        } else {
            l.enter(0);
        }
        proof {
            lemma_initial_wf(l@.plan, l@.names, l@.adapters, core.destroyed);
        }
        l
    }

    /// The step the runtime is to perform next.
    pub fn current(&self) -> (s: QuitStep)
        ensures
            s == self@.step,
    {
        self.step
    }

    fn set_step(&mut self, st: QuitStep)
        ensures
            final(self)@ == with_step(old(self)@, st),
    {
        self.step = st;
    }

    fn abort(&mut self, err: Error)
        ensures
            final(self)@ == abort(old(self)@, err),
    {
        self.step = QuitStep::Finished;
        self.error = Some(err);
    }

    fn record_event(&mut self, a: usize, e: QuitEvent)
        ensures
            final(self)@ == record(old(self)@, e, a),
    {
        match e {
            QuitEvent::Hook(Err(err)) => {
                self.failures.push((a, err));
            },
            _ => {},
        }
    }

    fn run_after_quit(&mut self)
        ensures
            final(self)@ == run_after_quit(old(self)@),
    {
        if self.adapters.len() > 0 {
            self.settled_failures = self.failures.len();
            self.set_step(QuitStep::AfterQuit { adapter: 0 });
        } else {
            self.set_step(QuitStep::Finished);
        }
    }

    fn leave(&mut self)
        ensures
            final(self)@ == leave_ladder(old(self)@),
    {
        if self.reached_terminal && self.adapters.len() > 0 {
            self.set_step(QuitStep::ClearCrashState { adapter: 0 });
        } else {
            self.run_after_quit();
        }
    }

    fn enter(&mut self, s: usize)
        ensures
            final(self)@ == enter_stage(old(self)@, s as int),
    {
        let mut t = s;
        while t < self.plan.len() && self.plan[t].skipped
            invariant
                s <= t,
                self@ == old(self)@,
                next_unskipped(self@.plan, s as int) == next_unskipped(self@.plan, t as int),
            decreases self.plan.len() - t,
        {
            t += 1;
        }
        if t < self.plan.len() {
            self.set_step(QuitStep::CheckEmpty { stage: t });
        } else {
            self.leave();
        }
    }

    fn run_stage(&mut self, s: usize)
        ensures
            final(self)@ == run_stage(old(self)@, s),
    {
        if self.adapters.len() > 0 {
            self.set_step(QuitStep::BeforeStage { adapter: 0, stage: s });
        } else {
            self.set_step(QuitStep::ExecuteStage { stage: s });
        }
    }

    fn close(&mut self, s: usize, exited: bool)
        requires
            s < old(self)@.plan.len(),
        ensures
            final(self)@ == close_stage(old(self)@, s, exited),
    {
        assert(s < self.plan.len());
        let after = s + 1;
        self.outcomes.push(StageOutcome { index: s, exited });
        if exited && self.exit == ExitPoint::NotYet {
            self.exit = ExitPoint::AtStage(s);
        }
        if self.plan[s].is_terminal {
            self.reached_terminal = true;
            self.leave();
        } else if exited {
            self.leave();
        } else {
            self.enter(after);
        }
    }

    fn stage_done(&mut self, s: usize, exited: bool)
        requires
            s < old(self)@.plan.len(),
        ensures
            final(self)@ == stage_done(old(self)@, s, exited),
    {
        if self.adapters.len() > 0 {
            self.set_step(QuitStep::AfterStage { adapter: 0, stage: s, exited });
        } else {
            self.close(s, exited);
        }
    }

    fn accepts_event(&self, e: &QuitEvent) -> (r: bool)
        ensures
            r == accepts(self@.step, *e),
    {
        match self.step {
            QuitStep::CheckEmpty { .. } | QuitStep::PollEmpty { .. } => match e {
                QuitEvent::Emptiness(_) => true,
                _ => false,
            },
            QuitStep::ExecuteStage { .. } => match e {
                QuitEvent::Executed(_) => true,
                _ => false,
            },
            QuitStep::StartClock { .. } | QuitStep::Sleep { .. } => match e {
                QuitEvent::Proceed => true,
                _ => false,
            },
            QuitStep::ReadClock { .. } => match e {
                QuitEvent::Elapsed(_) => true,
                _ => false,
            },
            QuitStep::Finished => false,
            _ => match e {
                QuitEvent::Hook(_) => true,
                _ => false,
            },
        }
    }

    /// Answers the current step with `e` and returns the next step. When the
    /// ladder first reaches a terminal stage, the container is marked as
    /// having reached it.
    pub fn step(&mut self, core: &mut ContainerCore, e: QuitEvent) -> (s: QuitStep)
        requires
            wf(old(self)@),
        ensures
            wf(final(self)@),
            final(self)@ == next(old(self)@, e),
            s == final(self)@.step,
            final(core).reached_terminal == (old(core).reached_terminal || (
            final(self)@.reached_terminal && !old(self)@.reached_terminal)),
            final(core).pid == old(core).pid,
            final(core).probe == old(core).probe,
            final(core).stages == old(core).stages,
            final(core).destroyed == old(core).destroyed,
    {
        proof {
            lemma_next_wf(self@, e);
        }
        let was_terminal = self.reached_terminal;
        if !self.accepts_event(&e) {
            return self.step;
        }
        let n = self.adapters.len();
        match self.step {
            QuitStep::BeforeQuit { adapter } => {
                self.record_event(adapter, e);
                if adapter + 1 < n {
                    self.set_step(QuitStep::BeforeQuit { adapter: adapter + 1 });
                } else {
                    self.enter(0);
                }
            },
            QuitStep::CheckEmpty { stage } => match e {
                QuitEvent::Emptiness(Err(err)) => self.abort(Error::Stage(err)),
                QuitEvent::Emptiness(Ok(true)) => {
                    if self.exit == ExitPoint::NotYet {
                        self.exit = ExitPoint::BeforeStage(stage);
                    }
                    self.leave();
                },
                _ => self.run_stage(stage),
            },
            QuitStep::BeforeStage { adapter, stage } => {
                self.record_event(adapter, e);
                if adapter + 1 < n {
                    self.set_step(QuitStep::BeforeStage { adapter: adapter + 1, stage });
                } else {
                    self.set_step(QuitStep::ExecuteStage { stage });
                }
            },
            QuitStep::ExecuteStage { stage } => match e {
                QuitEvent::Executed(Err(err)) => self.abort(Error::Stage(err)),
                _ => self.set_step(QuitStep::StartClock { stage }),
            },
            QuitStep::StartClock { stage } => self.set_step(QuitStep::ReadClock { stage }),
            QuitStep::ReadClock { stage } => match e {
                QuitEvent::Elapsed(ms) => {
                    if ms < self.plan[stage].max_wait_ms {
                        self.set_step(QuitStep::PollEmpty { stage });
                    } else {
                        self.stage_done(stage, false);
                    }
                },
                _ => {},
            },
            QuitStep::PollEmpty { stage } => match e {
                QuitEvent::Emptiness(Err(err)) => self.abort(Error::Stage(err)),
                QuitEvent::Emptiness(Ok(true)) => self.stage_done(stage, true),
                _ => self.set_step(QuitStep::Sleep { stage, ms: POLL_INTERVAL_MS }),
            },
            QuitStep::Sleep { stage, .. } => self.set_step(QuitStep::ReadClock { stage }),
            QuitStep::AfterStage { adapter, stage, exited } => {
                self.record_event(adapter, e);
                if adapter + 1 < n {
                    self.set_step(QuitStep::AfterStage { adapter: adapter + 1, stage, exited });
                } else {
                    self.close(stage, exited);
                }
            },
            QuitStep::ClearCrashState { adapter } => {
                self.record_event(adapter, e);
                if adapter + 1 < n {
                    self.set_step(QuitStep::ClearCrashState { adapter: adapter + 1 });
                } else {
                    self.run_after_quit();
                }
            },
            QuitStep::AfterQuit { adapter } => {
                self.record_event(adapter, e);
                if adapter + 1 < n {
                    self.set_step(QuitStep::AfterQuit { adapter: adapter + 1 });
                } else {
                    self.set_step(QuitStep::Finished);
                }
            },
            QuitStep::Finished => {},
        }
        if self.reached_terminal && !was_terminal {
            core.reached_terminal = true;
        }
        self.step
    }

    /// The result the `after_stage` hooks see for `stage`.
    pub fn stage_result(&self, stage: usize, exited: bool) -> (r: StageResult)
        requires
            wf(self@),
            stage < self@.plan.len(),
        ensures
            describes(r, self@, StageOutcome { index: stage, exited }),
    {
        StageResult {
            stage_name: self.names[stage].clone(),
            index: stage,
            exited,
            is_terminal: self.plan[stage].is_terminal,
        }
    }

    /// The quit result counting only the first `nf` hook failures.
    fn report(&self, nf: usize) -> (r: QuitResult)
        requires
            wf(self@),
            nf <= self@.failures.len(),
        ensures
            reports(r, LadderModel { failures: self@.failures.take(nf as int), ..self@ }),
    {
        let exited_at_stage = match self.exit {
            ExitPoint::NotYet => None,
            ExitPoint::BeforeStage(s) => {
                let mut label = String::from_str("before:");
                label.append(self.names[s].as_str());
                Some(label)
            },
            ExitPoint::AtStage(s) => Some(self.names[s].clone()),
        };
        let mut stage_results: Vec<StageResult> = Vec::new();
        let mut k: usize = 0;
        while k < self.outcomes.len()
            invariant
                wf(self@),
                k <= self@.outcomes.len(),
                stage_results@.len() == k,
                forall|j: int|
                    0 <= j < k ==> describes(
                        #[trigger] stage_results@[j],
                        self@,
                        self@.outcomes[j],
                    ),
            decreases self.outcomes.len() - k,
        {
            let o = self.outcomes[k];
            assert(stage_ok(self@, self@.outcomes[k as int].index as int));
            stage_results.push(self.stage_result(o.index, o.exited));
            k += 1;
        }
        let mut adapter_errors: Vec<String> = Vec::new();
        let mut k: usize = 0;
        while k < nf
            invariant
                wf(self@),
                nf <= self@.failures.len(),
                k <= nf,
                adapter_errors@.len() == k,
                forall|j: int|
                    0 <= j < k ==> (#[trigger] adapter_errors@[j])@ == failure_line(
                        self@,
                        self@.failures[j],
                    ),
            decreases nf - k,
        {
            let a = self.failures[k].0;
            assert(self@.failures[k as int].0 < self@.adapters.len());
            let mut line = self.adapters[a].clone();
            line.append(": ");
            let m = self.failures[k].1.message();
            line.append(m.as_str());
            adapter_errors.push(line);
            k += 1;
        }
        QuitResult {
            exited_at_stage,
            reached_terminal_stage: self.reached_terminal,
            stage_results,
            adapter_errors,
        }
    }

    /// The quit result so far.
    pub fn snapshot(&self) -> (r: QuitResult)
        requires
            wf(self@),
        ensures
            reports(r, self@),
    {
        let r = self.report(self.failures.len());
        assert(self@.failures.take(self@.failures.len() as int) =~= self@.failures);
        assert((LadderModel { failures: self@.failures.take(self@.failures.len() as int), ..self@ })
            == self@);
        r
    }

    /// The result the `after_quit` hooks see: the quit as it stood when the
    /// ladder left for those hooks, without failures of `after_quit` hooks.
    pub fn quit_so_far(&self) -> (r: QuitResult)
        requires
            wf(self@),
        ensures
            reports(r, settled(self@)),
    {
        self.report(self.settled_failures)
    }

    /// The outcome of the quit: its error if it failed, otherwise its result.
    pub fn into_result(self) -> (r: Result<QuitResult, Error>)
        requires
            wf(self@),
        ensures
            match self@.error {
                Some(e) => r == Err::<QuitResult, Error>(e),
                None => r matches Ok(q) && reports(q, self@),
            },
    {
        let snap = self.snapshot();
        match self.error {
            Some(e) => Err(e),
            None => Ok(snap),
        }
    }
}

// ---------------------------------------------------------------------
// Destroy: quit plus resource release, infallible
// ---------------------------------------------------------------------

/// Whether a quit may start at all: a destroyed container refuses with
/// `AlreadyDestroyed` before anything else happens, adapter matching
/// included.
pub fn quit_refusal(core: &ContainerCore) -> (r: Option<Error>)
    ensures
        match r {
            Some(e) => core.destroyed && e is AlreadyDestroyed,
            None => !core.destroyed,
        },
{
    if core.destroyed {
        Some(Error::AlreadyDestroyed)
    } else {
        None
    }
}

/// The quit result recorded when no quit ran.
pub open spec fn no_quit(q: QuitResult) -> bool {
    &&& q.exited_at_stage is None
    &&& q.stage_results@.len() == 0
    &&& q.adapter_errors@.len() == 0
}

/// What a second destroy reports: nothing ran, the terminal flag as it
/// was left, and exactly one error, `AlreadyDestroyed`.
pub open spec fn already_destroyed_report(r: DestroyResult, core: ContainerCore) -> bool {
    &&& no_quit(r.quit)
    &&& r.quit.reached_terminal_stage == core.reached_terminal
    &&& r.errors@.len() == 1
    &&& r.errors@[0] is AlreadyDestroyed
}

/// A destroyed container is answered without running anything; any other
/// proceeds to the quit.
pub open spec fn preflight(core: ContainerCore, r: Option<DestroyResult>) -> bool {
    match r {
        Some(d) => core.destroyed && already_destroyed_report(d, core),
        None => !core.destroyed,
    }
}

pub fn destroy_preflight(core: &ContainerCore) -> (r: Option<DestroyResult>)
    ensures
        preflight(*core, r),
{
    if core.destroyed {
        let mut errors: Vec<Error> = Vec::new();
        errors.push(Error::AlreadyDestroyed);
        Some(DestroyResult { quit: QuitResult::empty(core.reached_terminal), errors })
    } else {
        None
    }
}

/// The container `after` and the report `r` that concluding a destroy of
/// `before` gives, after the quit ended with `quit` and releasing the
/// platform resources surfaced `resource_errors`: the container is marked
/// destroyed and nothing else of it changes; a failed quit is reported as
/// an empty quit and its error comes first; the resource errors follow.
pub open spec fn concluded(
    before: ContainerCore,
    after: ContainerCore,
    quit: Result<QuitResult, Error>,
    resource_errors: Seq<Error>,
    r: DestroyResult,
) -> bool {
    &&& after.destroyed
    &&& after.pid == before.pid
    &&& after.probe == before.probe
    &&& after.stages == before.stages
    &&& after.reached_terminal == before.reached_terminal
    &&& match quit {
        Ok(q) => r.quit == q && r.errors@ == resource_errors,
        Err(e) => no_quit(r.quit) && !r.quit.reached_terminal_stage && r.errors@ == seq![e]
            + resource_errors,
    }
}

pub fn conclude_destroy(
    core: &mut ContainerCore,
    quit: Result<QuitResult, Error>,
    resource_errors: Vec<Error>,
) -> (r: DestroyResult)
    ensures
        concluded(*old(core), *final(core), quit, resource_errors@, r),
{
    let mut errors: Vec<Error> = Vec::new();
    let ghost q0 = quit;
    let quit_result = match quit {
        Ok(q) => q,
        Err(e) => {
            errors.push(e);
            QuitResult::empty(false)
        },
    };
    let mut rest = resource_errors;
    let ghost first = errors@;
    errors.append(&mut rest);
    core.destroyed = true;
    let r = DestroyResult { quit: quit_result, errors };
    proof {
        match q0 {
            Ok(q) => {
                assert(r.errors@ =~= resource_errors@);
            },
            Err(e) => {
                assert(first =~= seq![e]);
                assert(r.errors@ =~= seq![e] + resource_errors@);
            },
        }
    }
    r
}

/// Destroy is idempotent and never fails: once a destroy has concluded,
/// a second one runs nothing and reports exactly `AlreadyDestroyed`,
/// with the terminal flag the first one left.
pub proof fn law_destroy_is_idempotent(
    before: ContainerCore,
    after: ContainerCore,
    quit: Result<QuitResult, Error>,
    resource_errors: Seq<Error>,
    r: DestroyResult,
    second: Option<DestroyResult>,
)
    requires
        concluded(before, after, quit, resource_errors, r),
        preflight(after, second),
    ensures
        second matches Some(d) && already_destroyed_report(d, after)
            && d.quit.reached_terminal_stage == before.reached_terminal,
{
}

/// A quit of a container that was destroyed fails with `AlreadyDestroyed`
/// and runs nothing.
pub proof fn law_quit_after_destroy_fails(
    before: ContainerCore,
    after: ContainerCore,
    quit: Result<QuitResult, Error>,
    resource_errors: Seq<Error>,
    r: DestroyResult,
    opts: QuitOptions,
    adapters: Seq<String>,
)
    requires
        concluded(before, after, quit, resource_errors, r),
    ensures
        ({
            let m = initial(
                plan_of(after.stages@, opts),
                names_of(after.stages@),
                adapters,
                after.destroyed,
            );
            m.step == QuitStep::Finished && m.error == Some(Error::AlreadyDestroyed)
                && m.outcomes.len() == 0 && m.failures.len() == 0
        }),
{
}

} // verus!
