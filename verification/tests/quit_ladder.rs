use uncontainerizable::container::{
    alive_from_probe, members_if_alive, ContainerCore, DestroyOptions, DestroyResult, QuitOptions,
    QuitResult, SignalProbe, StageSpec,
};
use uncontainerizable::error::{AdapterError, Error, StageError};
use uncontainerizable::ladder::{
    conclude_destroy, destroy_preflight, quit_refusal, select_matching, QuitEvent, QuitLadder,
    QuitStep,
};
use uncontainerizable::platforms::darwin::bundle::{pidfile_pid, pidfile_text};
use uncontainerizable::probe::{Probe, SupportedPlatform};

/// A stage of the scripted container: a flipping stage empties it.
struct ScriptStage {
    flips: bool,
    fails: bool,
    executed: usize,
}

#[derive(Default)]
struct Counts {
    before_quit: usize,
    before_stage: usize,
    after_stage: usize,
    after_quit: usize,
    clear_crash_state: usize,
}

struct ScriptAdapter {
    name: String,
    matches: bool,
    fail_before_quit: bool,
    fail_after_quit: bool,
    counts: Counts,
    seen_stage_results: Vec<(String, bool)>,
    seen_quit_results: Vec<QuitResult>,
}

impl ScriptAdapter {
    fn new(name: &str) -> Self {
        ScriptAdapter {
            name: name.into(),
            matches: true,
            fail_before_quit: false,
            fail_after_quit: false,
            counts: Counts::default(),
            seen_stage_results: Vec::new(),
            seen_quit_results: Vec::new(),
        }
    }
}

/// A container whose emptiness is scripted, with a simulated clock.
struct Script {
    core: ContainerCore,
    empty: bool,
    stages: Vec<ScriptStage>,
    adapters: Vec<ScriptAdapter>,
    clock_ms: u64,
    trace: Vec<String>,
}

fn spec(name: &str, terminal: bool, max_wait_ms: u64) -> StageSpec {
    StageSpec {
        name: name.into(),
        is_terminal: terminal,
        max_wait_ms,
    }
}

fn script(stages: Vec<(StageSpec, bool)>, adapters: Vec<ScriptAdapter>) -> Script {
    let probe = Probe::new(1, SupportedPlatform::Linux);
    let mut specs = Vec::new();
    let mut behaviour = Vec::new();
    for (s, flips) in stages {
        specs.push(s);
        behaviour.push(ScriptStage {
            flips,
            fails: false,
            executed: 0,
        });
    }
    Script {
        core: ContainerCore::new(1, probe, specs),
        empty: false,
        stages: behaviour,
        adapters,
        clock_ms: 0,
        trace: Vec::new(),
    }
}

fn hook(a: &ScriptAdapter, fail: bool) -> QuitEvent {
    let _ = a;
    if fail {
        QuitEvent::Hook(Err(AdapterError::Callback("synthetic failure".into())))
    } else {
        QuitEvent::Hook(Ok(()))
    }
}

/// Runs a quit the way the runtime does, against the script.
fn quit(s: &mut Script, opts: QuitOptions) -> Result<QuitResult, Error> {
    let all_names: Vec<String> = s.adapters.iter().map(|a| a.name.clone()).collect();
    let answers: Vec<bool> = s.adapters.iter().map(|a| a.matches).collect();
    let (matching, names) = select_matching(&all_names, &answers);
    if let Some(refusal) = quit_refusal(&s.core) {
        return Err(refusal);
    }
    let mut ladder = QuitLadder::begin(&s.core, &opts, names);
    let mut step = ladder.current();
    let mut started = 0u64;
    loop {
        s.trace.push(format!("{step:?}"));
        let event = match step {
            QuitStep::BeforeQuit { adapter } => {
                let a = &mut s.adapters[matching[adapter]];
                a.counts.before_quit += 1;
                let fail = a.fail_before_quit;
                hook(a, fail)
            }
            QuitStep::CheckEmpty { .. } | QuitStep::PollEmpty { .. } => {
                QuitEvent::Emptiness(Ok(s.empty))
            }
            QuitStep::BeforeStage { adapter, .. } => {
                let a = &mut s.adapters[matching[adapter]];
                a.counts.before_stage += 1;
                hook(a, false)
            }
            QuitStep::ExecuteStage { stage } => {
                let st = &mut s.stages[stage];
                st.executed += 1;
                if st.fails {
                    QuitEvent::Executed(Err(StageError::Io("signal failed".into())))
                } else {
                    if st.flips {
                        s.empty = true;
                    }
                    QuitEvent::Executed(Ok(()))
                }
            }
            QuitStep::StartClock { .. } => {
                started = s.clock_ms;
                QuitEvent::Proceed
            }
            QuitStep::ReadClock { .. } => QuitEvent::Elapsed(s.clock_ms - started),
            QuitStep::Sleep { ms, .. } => {
                s.clock_ms += ms;
                QuitEvent::Proceed
            }
            QuitStep::AfterStage {
                adapter,
                stage,
                exited,
            } => {
                let r = ladder.stage_result(stage, exited);
                let a = &mut s.adapters[matching[adapter]];
                a.counts.after_stage += 1;
                a.seen_stage_results.push((r.stage_name, r.exited));
                hook(a, false)
            }
            QuitStep::ClearCrashState { adapter } => {
                let a = &mut s.adapters[matching[adapter]];
                a.counts.clear_crash_state += 1;
                hook(a, false)
            }
            QuitStep::AfterQuit { adapter } => {
                let so_far = ladder.quit_so_far();
                let a = &mut s.adapters[matching[adapter]];
                a.counts.after_quit += 1;
                a.seen_quit_results.push(so_far);
                let fail = a.fail_after_quit;
                hook(a, fail)
            }
            QuitStep::Finished => break,
        };
        step = ladder.step(&mut s.core, event);
    }
    ladder.into_result()
}

fn destroy(s: &mut Script, opts: DestroyOptions) -> DestroyResult {
    if let Some(done) = destroy_preflight(&s.core) {
        return done;
    }
    let q = quit(s, opts.quit);
    conclude_destroy(&mut s.core, q, Vec::new())
}

#[test]
fn quit_loop_exits_at_first_draining_stage() {
    let mut s = script(vec![(spec("flip", false, 500), true)], vec![]);
    let result = quit(&mut s, QuitOptions::default()).unwrap();
    assert_eq!(result.exited_at_stage.as_deref(), Some("flip"));
    assert!(!result.reached_terminal_stage);
    assert_eq!(result.stage_results.len(), 1);
    assert!(result.stage_results[0].exited);
    assert_eq!(s.stages[0].executed, 1);
}

#[test]
fn quit_loop_reaches_terminal_stage_when_container_ignores_earlier_signals() {
    let mut s = script(
        vec![
            (spec("noop", false, 80), false),
            (spec("flip-terminal", true, 500), true),
        ],
        vec![],
    );
    let result = quit(&mut s, QuitOptions::default()).unwrap();
    assert_eq!(s.stages[0].executed, 1);
    assert_eq!(s.stages[1].executed, 1);
    assert!(result.reached_terminal_stage);
    assert_eq!(result.exited_at_stage.as_deref(), Some("flip-terminal"));
    assert_eq!(result.stage_results.len(), 2);
    assert!(!result.stage_results[0].exited);
    assert!(result.stage_results[1].exited);
    assert!(s.core.reached_terminal);
}

#[test]
fn quit_loop_skips_stages_in_skip_list() {
    let mut s = script(
        vec![
            (spec("skip-me", false, 80), false),
            (spec("do-me", true, 500), true),
        ],
        vec![],
    );
    let opts = QuitOptions {
        skip_stages: vec!["skip-me".into()],
        ..Default::default()
    };
    quit(&mut s, opts).unwrap();
    assert_eq!(s.stages[0].executed, 0);
    assert_eq!(s.stages[1].executed, 1);
}

#[test]
fn quit_loop_honors_per_stage_timeout_override() {
    let mut s = script(vec![(spec("slow", true, 2000), false)], vec![]);
    let mut opts = QuitOptions::default();
    opts.set_stage_timeout("slow".into(), 30);
    quit(&mut s, opts).unwrap();
    assert!(
        s.clock_ms < 500,
        "timeout override should short-circuit the default 2s"
    );
    // Without the override the full default wait elapses.
    let mut s = script(vec![(spec("slow", true, 2000), false)], vec![]);
    quit(&mut s, QuitOptions::default()).unwrap();
    assert_eq!(s.clock_ms, 2000);
}

#[test]
fn adapter_hooks_fire_in_expected_order_for_matching_adapter() {
    let mut s = script(
        vec![(spec("flip", true, 500), true)],
        vec![ScriptAdapter::new("counter")],
    );
    quit(&mut s, QuitOptions::default()).unwrap();
    let c = &s.adapters[0].counts;
    assert_eq!(c.before_quit, 1);
    assert_eq!(c.before_stage, 1);
    assert_eq!(c.after_stage, 1);
    assert_eq!(c.after_quit, 1);
    assert_eq!(c.clear_crash_state, 1);
    let kinds: Vec<&str> = s
        .trace
        .iter()
        .map(|t| t.split(' ').next().unwrap())
        .filter(|k| {
            matches!(
                *k,
                "BeforeQuit" | "BeforeStage" | "AfterStage" | "ClearCrashState" | "AfterQuit"
            )
        })
        .collect();
    assert_eq!(
        kinds,
        vec!["BeforeQuit", "BeforeStage", "AfterStage", "ClearCrashState", "AfterQuit"]
    );
}

#[test]
fn adapter_errors_collect_but_do_not_abort() {
    let mut failing = ScriptAdapter::new("fails");
    failing.fail_before_quit = true;
    let mut s = script(vec![(spec("flip", true, 500), true)], vec![failing]);
    let result = quit(&mut s, QuitOptions::default()).unwrap();
    assert!(result.reached_terminal_stage);
    assert!(!result.adapter_errors.is_empty());
    assert!(result.adapter_errors[0].contains("fails"));
    assert_eq!(
        result.adapter_errors[0],
        "fails: adapter callback failed: synthetic failure"
    );
}

#[test]
fn non_matching_adapter_has_no_hooks_invoked() {
    let mut ignored = ScriptAdapter::new("ignored");
    ignored.matches = false;
    let mut s = script(vec![(spec("flip", true, 500), true)], vec![ignored]);
    quit(&mut s, QuitOptions::default()).unwrap();
    assert_eq!(s.adapters[0].counts.before_quit, 0);
}

#[test]
fn clear_crash_state_only_runs_after_terminal_stage_reached() {
    let mut s = script(
        vec![(spec("flip", false, 500), true)],
        vec![ScriptAdapter::new("counter")],
    );
    let result = quit(&mut s, QuitOptions::default()).unwrap();
    assert!(!result.reached_terminal_stage);
    assert_eq!(s.adapters[0].counts.clear_crash_state, 0);
}

#[test]
fn destroy_marks_destroyed_and_calls_destroy_resources() {
    let mut s = script(vec![(spec("flip", true, 500), true)], vec![]);
    let result = destroy(&mut s, DestroyOptions::default());
    assert!(result.quit.reached_terminal_stage);
    assert!(result.errors.is_empty());
    assert!(s.core.destroyed);
}

#[test]
fn destroy_is_idempotent_after_first_call() {
    let mut s = script(vec![(spec("flip", true, 500), true)], vec![]);
    destroy(&mut s, DestroyOptions::default());
    let second = destroy(&mut s, DestroyOptions::default());
    assert_eq!(second.errors.len(), 1);
    assert!(matches!(second.errors[0], Error::AlreadyDestroyed));
    assert!(second.quit.reached_terminal_stage);
    assert_eq!(s.stages[0].executed, 1);
}

#[test]
fn quit_errors_with_already_destroyed_after_destroy() {
    let mut s = script(vec![(spec("flip", true, 500), true)], vec![]);
    destroy(&mut s, DestroyOptions::default());
    let err = quit(&mut s, QuitOptions::default()).unwrap_err();
    assert!(matches!(err, Error::AlreadyDestroyed));
}

#[test]
fn already_empty_container_exits_before_first_stage() {
    let mut s = script(
        vec![(spec("first", false, 500), true)],
        vec![ScriptAdapter::new("counter")],
    );
    s.empty = true;
    let result = quit(&mut s, QuitOptions::default()).unwrap();
    assert_eq!(result.exited_at_stage.as_deref(), Some("before:first"));
    assert!(result.stage_results.is_empty());
    assert_eq!(s.stages[0].executed, 0);
    assert_eq!(s.adapters[0].counts.before_stage, 0);
    assert_eq!(s.adapters[0].counts.after_quit, 1);
}

#[test]
fn stage_failure_ends_quit_without_hooks() {
    let mut s = script(
        vec![(spec("boom", false, 500), false), (spec("never", true, 500), true)],
        vec![ScriptAdapter::new("counter")],
    );
    s.stages[0].fails = true;
    let err = quit(&mut s, QuitOptions::default()).unwrap_err();
    assert!(matches!(err, Error::Stage(StageError::Io(_))));
    assert_eq!(s.stages[1].executed, 0);
    assert_eq!(s.adapters[0].counts.after_stage, 0);
    assert_eq!(s.adapters[0].counts.after_quit, 0);
    assert!(!s.core.reached_terminal);
}

#[test]
fn failed_destroy_quit_is_reported_and_container_still_destroyed() {
    let mut s = script(vec![(spec("boom", true, 500), false)], vec![]);
    s.stages[0].fails = true;
    let result = destroy(&mut s, DestroyOptions::default());
    assert_eq!(result.errors.len(), 1);
    assert!(matches!(result.errors[0], Error::Stage(_)));
    assert!(!result.quit.reached_terminal_stage);
    assert!(result.quit.stage_results.is_empty());
    assert!(s.core.destroyed);
}

#[test]
fn every_matching_adapter_runs_each_hook_in_order() {
    let mut s = script(
        vec![(spec("noop", false, 100), false), (spec("kill", true, 100), true)],
        vec![
            ScriptAdapter::new("a"),
            ScriptAdapter::new("b"),
            ScriptAdapter::new("c"),
        ],
    );
    s.adapters[1].matches = false;
    let result = quit(&mut s, QuitOptions::default()).unwrap();
    let hooks: Vec<String> = s
        .trace
        .iter()
        .filter(|t| t.starts_with("BeforeStage"))
        .cloned()
        .collect();
    assert_eq!(
        hooks,
        vec![
            "BeforeStage { adapter: 0, stage: 0 }",
            "BeforeStage { adapter: 1, stage: 0 }",
            "BeforeStage { adapter: 0, stage: 1 }",
            "BeforeStage { adapter: 1, stage: 1 }",
        ]
    );
    assert_eq!(s.adapters[0].counts.after_stage, 2);
    assert_eq!(s.adapters[1].counts.after_stage, 0);
    assert_eq!(s.adapters[2].counts.after_stage, 2);
    assert_eq!(
        s.adapters[2].seen_stage_results,
        vec![("noop".to_string(), false), ("kill".to_string(), true)]
    );
    assert!(result.reached_terminal_stage);
    assert_eq!(s.adapters[0].seen_quit_results[0].stage_results.len(), 2);
}

#[test]
fn unexpected_event_is_ignored() {
    let mut s = script(vec![(spec("flip", true, 500), true)], vec![]);
    let opts = QuitOptions::default();
    let mut ladder = QuitLadder::begin(&s.core, &opts, Vec::new());
    assert_eq!(ladder.current(), QuitStep::CheckEmpty { stage: 0 });
    let step = ladder.step(&mut s.core, QuitEvent::Proceed);
    assert_eq!(step, QuitStep::CheckEmpty { stage: 0 });
    let step = ladder.step(&mut s.core, QuitEvent::Emptiness(Ok(false)));
    assert_eq!(step, QuitStep::ExecuteStage { stage: 0 });
}

#[test]
fn basic_container_is_empty_when_pid_is_not_alive() {
    // Use a PID that's almost certainly not alive: u32::MAX - 1, probed the
    // way the runtime probes it (`kill(pid as pid_t, 0)`).
    let pid = u32::MAX - 1;
    let outcome = match nix::sys::signal::kill(nix::unistd::Pid::from_raw(pid as i32), None) {
        Ok(()) => SignalProbe::Delivered,
        Err(nix::errno::Errno::EPERM) => SignalProbe::PermissionDenied,
        Err(_) => SignalProbe::Failed,
    };
    let alive = alive_from_probe(outcome);
    assert!(!alive);
    assert!(members_if_alive(pid, alive).is_empty());
}

#[test]
fn basic_container_is_populated_when_pid_is_current_process() {
    let me = nix::unistd::getpid();
    let outcome = match nix::sys::signal::kill(me, None) {
        Ok(()) => SignalProbe::Delivered,
        Err(nix::errno::Errno::EPERM) => SignalProbe::PermissionDenied,
        Err(_) => SignalProbe::Failed,
    };
    let alive = alive_from_probe(outcome);
    assert!(alive);
    let pid = me.as_raw() as u32;
    assert_eq!(members_if_alive(pid, alive), vec![pid]);
}

#[test]
fn permission_denied_counts_as_alive() {
    assert!(alive_from_probe(SignalProbe::PermissionDenied));
    assert!(alive_from_probe(SignalProbe::Delivered));
    assert!(!alive_from_probe(SignalProbe::Failed));
}

#[test]
fn after_quit_hooks_all_see_the_result_before_after_quit() {
    let mut s = script(
        vec![(spec("kill", true, 100), true)],
        vec![ScriptAdapter::new("a"), ScriptAdapter::new("b")],
    );
    s.adapters[0].fail_before_quit = true;
    s.adapters[0].fail_after_quit = true;
    let result = quit(&mut s, QuitOptions::default()).unwrap();
    let expected = vec!["a: adapter callback failed: synthetic failure".to_string()];
    assert_eq!(s.adapters[0].seen_quit_results[0].adapter_errors, expected);
    assert_eq!(s.adapters[1].seen_quit_results[0].adapter_errors, expected);
    assert_eq!(result.adapter_errors.len(), 2);
}

#[test]
fn whole_quit_hooks_come_in_phases() {
    let mut s = script(
        vec![(spec("term", false, 100), false), (spec("kill", true, 100), true)],
        vec![ScriptAdapter::new("a"), ScriptAdapter::new("b")],
    );
    let result = quit(&mut s, QuitOptions::default()).unwrap();
    assert!(result.reached_terminal_stage);
    let n = s.trace.len();
    assert_eq!(s.trace[0], "BeforeQuit { adapter: 0 }");
    assert_eq!(s.trace[1], "BeforeQuit { adapter: 1 }");
    assert_eq!(
        s.trace[n - 5..].to_vec(),
        vec![
            "ClearCrashState { adapter: 0 }",
            "ClearCrashState { adapter: 1 }",
            "AfterQuit { adapter: 0 }",
            "AfterQuit { adapter: 1 }",
            "Finished",
        ]
    );
    for (k, t) in s.trace.iter().enumerate() {
        if t.starts_with("ExecuteStage") {
            assert!(s.trace[k - 1].starts_with("BeforeStage { adapter: 1"));
        }
    }
}

#[test]
fn no_crash_state_clearing_when_a_stage_drains() {
    let mut s = script(
        vec![(spec("term", false, 100), true), (spec("kill", true, 100), true)],
        vec![ScriptAdapter::new("a")],
    );
    let result = quit(&mut s, QuitOptions::default()).unwrap();
    assert!(!result.reached_terminal_stage);
    assert!(!s.trace.iter().any(|t| t.starts_with("ClearCrashState")));
    let n = s.trace.len();
    assert_eq!(s.trace[n - 2], "AfterQuit { adapter: 0 }");
}

#[test]
fn only_matching_adapters_take_part_in_list_order() {
    let names: Vec<String> = vec!["a".into(), "b".into(), "c".into(), "d".into()];
    let (positions, selected) = select_matching(&names, &vec![true, false, true, true]);
    assert_eq!(positions, vec![0, 2, 3]);
    assert_eq!(selected, vec!["a", "c", "d"]);
    let (positions, selected) = select_matching(&names, &vec![false; 4]);
    assert!(positions.is_empty() && selected.is_empty());
}

#[test]
fn pidfile_round_trips() {
    for pid in [0u32, 7, 4242, u32::MAX] {
        assert_eq!(pidfile_text(pid), pid.to_string());
        assert_eq!(pidfile_pid(&pidfile_text(pid)), Some(pid));
    }
}
