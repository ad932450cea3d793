use uncontainerizable::container::{DestroyResult, QuitResult, StageResult};
use uncontainerizable::error::Error;
use uncontainerizable::node::{
    to_core_destroy_opts, to_core_quit_opts, JsContainOptions, JsDestroyOptions, JsDestroyResult,
    JsQuitOptions, JsQuitResult, JsStageResult,
};

#[test]
fn quit_options_convert_with_defaults() {
    let core = to_core_quit_opts(None);
    assert!(core.stage_timeouts.is_empty() && core.skip_stages.is_empty());
    let core = to_core_quit_opts(Some(JsQuitOptions {
        stage_timeouts_ms: Some(vec![("sigterm_tree".into(), 250)]),
        skip_stages: Some(vec!["apple_event_quit".into()]),
    }));
    assert_eq!(core.stage_timeout(&"sigterm_tree".to_string()), Some(250));
    assert_eq!(core.stage_timeout(&"other".to_string()), None);
    assert!(core.skips(&"apple_event_quit".to_string()));
    let d = to_core_destroy_opts(Some(JsDestroyOptions { quit: None }));
    assert!(d.quit.skip_stages.is_empty());
    let d = to_core_destroy_opts(None);
    assert!(d.quit.stage_timeouts.is_empty());
}

#[test]
fn contain_options_default_to_tagging() {
    let core = JsContainOptions {
        args: None,
        env: None,
        cwd: None,
        identity: Some("browser".into()),
        darwin_tag_argv0: None,
    }
    .into_core();
    assert!(core.darwin_tag_argv0);
    assert!(core.args.is_empty() && core.env.is_empty());
    assert_eq!(core.identity.as_deref(), Some("browser"));
    let core = JsContainOptions {
        args: Some(vec!["--x".into()]),
        env: Some(vec![("K".into(), "V".into())]),
        cwd: Some("/tmp".into()),
        identity: None,
        darwin_tag_argv0: Some(false),
    }
    .into_core();
    assert!(!core.darwin_tag_argv0);
    assert_eq!(core.args, vec!["--x".to_string()]);
    assert_eq!(core.cwd.as_deref(), Some("/tmp"));
}

#[test]
fn results_convert_for_node() {
    let quit = QuitResult {
        exited_at_stage: Some("sigterm_tree".into()),
        reached_terminal_stage: false,
        stage_results: vec![StageResult {
            stage_name: "sigterm_tree".into(),
            index: 1,
            exited: true,
            is_terminal: false,
        }],
        adapter_errors: vec!["a: b".into()],
    };
    let js = JsQuitResult::from_core(&quit);
    assert_eq!(js.exited_at_stage.as_deref(), Some("sigterm_tree"));
    assert_eq!(js.stage_results.len(), 1);
    assert_eq!(js.stage_results[0].index, 1);
    assert_eq!(js.adapter_errors, vec!["a: b".to_string()]);
    let one = JsStageResult::from_core(&quit.stage_results[0]);
    assert!(one.exited && !one.is_terminal);
    let destroyed = DestroyResult {
        quit,
        errors: vec![Error::AlreadyDestroyed],
    };
    let js = JsDestroyResult::from_core(&destroyed);
    assert_eq!(js.errors, vec!["container has already been destroyed".to_string()]);
}
