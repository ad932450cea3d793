use uncontainerizable::error::{BundleError, CgroupError};
use uncontainerizable::platforms::darwin::argv_tag;
use uncontainerizable::platforms::darwin::argv_tag::find_tagged_pids;
use uncontainerizable::platforms::darwin::bundle::{
    bundle_executable_path, comm_matches, has_app_extension, identity_pidfile,
    info_plist_path, matching_pids, open_command_args, pick_new_pid, pidfile_pid, plist_value,
    resolve_poll, sanitize_identity,
};
use uncontainerizable::platforms::darwin::stages::{darwin_stages, AppleEventQuitStage};
use uncontainerizable::platforms::darwin::{direct_exec_argv0, process_group_members, ps_first_line};
use uncontainerizable::platforms::linux::{
    drain_move, drain_timeout_error, identity_cgroup_path_for, DrainMove, EventsRead,
};
use uncontainerizable::platforms::linux::{
    anonymous_cgroup_path, cgroup_path_from_proc, identity_cgroup_path, linux_stages,
    parse_pid_list, pid_decimal_bytes, reports_frozen, reports_unpopulated, sanitize_for_cgroup,
    Cgroup,
};
use uncontainerizable::platforms::win32::{
    encode_name, job_reports_empty, next_query_capacity, win32_stages,
};

#[test]
fn format_preserves_filename() {
    let tag = argv_tag::format("com.example.app:run", "/usr/bin/sleep");
    assert_eq!(tag, "uncontainerizable:com.example.app:run/sleep");
}

#[test]
fn format_uses_command_verbatim_when_not_a_path() {
    let tag = argv_tag::format("ident", "mybin");
    assert_eq!(tag, "uncontainerizable:ident/mybin");
}

#[test]
fn format_follows_path_file_name_rules() {
    assert_eq!(argv_tag::format("i", "/usr/bin/"), "uncontainerizable:i/bin");
    assert_eq!(argv_tag::format("i", "./tool/."), "uncontainerizable:i/tool");
    assert_eq!(argv_tag::format("i", "/opt/.."), "uncontainerizable:i//opt/..");
    assert_eq!(argv_tag::format("i", "/"), "uncontainerizable:i//");
}

#[test]
fn is_app_bundle_rejects_non_app_extensions() {
    assert!(!has_app_extension("/usr/bin/sleep"));
    assert!(!has_app_extension("/Applications/Foo"));
    assert!(!has_app_extension("/tmp/Foo.dmg"));
}

#[test]
fn app_extension_detection() {
    assert!(has_app_extension("/Applications/Foo.app"));
    assert!(has_app_extension("/Applications/Foo.app/"));
    assert!(!has_app_extension("/Applications/.app"));
    assert!(!has_app_extension("/Applications/Foo.app/Contents/MacOS/Foo"));
}

#[test]
fn sanitize_identity_replaces_path_separators_and_colons() {
    assert_eq!(
        sanitize_identity("com.example.app:browser-main"),
        "com.example.app.browser-main"
    );
    assert_eq!(sanitize_identity("a/b:c\\d"), "a.b.c.d");
}

#[test]
fn sanitize_identity_preserves_safe_characters() {
    assert_eq!(sanitize_identity("com.example.app"), "com.example.app");
    assert_eq!(sanitize_identity("abc-def_123"), "abc-def_123");
}

#[test]
fn identity_pidfile_lands_under_home() {
    let path = identity_pidfile("/Users/someone", "com.example:run");
    assert!(path.contains("Library/Caches/uncontainerizable"));
    assert!(path.ends_with("com.example.run.pid"));
    assert_eq!(
        path,
        "/Users/someone/Library/Caches/uncontainerizable/com.example.run.pid"
    );
    assert_eq!(
        identity_pidfile("/Users/someone/", "a"),
        "/Users/someone/Library/Caches/uncontainerizable/a.pid"
    );
}

#[test]
fn sanitize_replaces_colon_with_dot() {
    assert_eq!(
        sanitize_for_cgroup("com.example:browser-main").unwrap(),
        "com.example.browser-main"
    );
}

#[test]
fn sanitize_rejects_empty_dot_dotdot() {
    assert!(sanitize_for_cgroup(".").is_err());
    assert!(sanitize_for_cgroup("..").is_err());
    assert!(sanitize_for_cgroup("").is_err());
    assert!(matches!(sanitize_for_cgroup(".."), Err(CgroupError::InvalidName(n)) if n == ".."));
    assert_eq!(sanitize_for_cgroup("...").unwrap(), "...");
}

#[test]
fn encode_name_produces_nul_terminated_local_namespace() {
    let wide = encode_name("com.example.test");
    let decoded: String = std::char::decode_utf16(wide.iter().take(wide.len() - 1).copied())
        .map(|r| r.unwrap_or('?'))
        .collect();
    assert_eq!(decoded, "Local\\uncontainerizable-com.example.test");
    assert_eq!(*wide.last().unwrap(), 0u16);
}

#[test]
fn encode_name_matches_std_utf16() {
    let name = "ident-😀-é";
    let wide = encode_name(name);
    let mut expected: Vec<u16> = "Local\\uncontainerizable-".encode_utf16().collect();
    expected.extend(name.encode_utf16());
    expected.push(0);
    assert_eq!(wide, expected);
}

#[test]
fn cgroup_path_comes_from_the_unified_entry() {
    let raw = "12:pids:/user.slice\n0::/user.slice/user-1000.slice/session-2.scope\n";
    assert_eq!(
        cgroup_path_from_proc(raw).as_deref(),
        Some("/sys/fs/cgroup/user.slice/user-1000.slice/session-2.scope")
    );
    assert_eq!(cgroup_path_from_proc("0::/\n").as_deref(), Some("/sys/fs/cgroup/"));
    assert_eq!(cgroup_path_from_proc("1:name=systemd:/x\n"), None);
    assert_eq!(cgroup_path_from_proc(""), None);
}

#[test]
fn identity_and_anonymous_cgroup_paths() {
    assert_eq!(
        identity_cgroup_path("/sys/fs/cgroup/user.slice", "com.example:run").unwrap(),
        "/sys/fs/cgroup/user.slice/uncontainerizable/com.example.run"
    );
    assert!(matches!(
        identity_cgroup_path("/sys/fs/cgroup", ".."),
        Err(CgroupError::InvalidName(_))
    ));
    assert_eq!(
        anonymous_cgroup_path("/sys/fs/cgroup/", 4242, 17),
        "/sys/fs/cgroup/uncontainerizable/anon-4242-17"
    );
}

#[test]
fn cgroup_control_files() {
    let cg = Cgroup::at("/sys/fs/cgroup/x".to_string());
    assert_eq!(cg.path(), "/sys/fs/cgroup/x");
    assert_eq!(cg.control_file("cgroup.events"), "/sys/fs/cgroup/x/cgroup.events");
    assert_eq!(
        cg.procs_file_for_exec().as_deref(),
        Some("/sys/fs/cgroup/x/cgroup.procs")
    );
    assert_eq!(Cgroup::at("/bad\0path".to_string()).procs_file_for_exec(), None);
    assert!(matches!(
        cg.freeze_timeout_error(true),
        CgroupError::FreezeTimeout { target: true, timeout_ms: 1000, .. }
    ));
}

#[test]
fn cgroup_procs_and_events_parsing() {
    assert_eq!(parse_pid_list("12\n 34 \nbogus\n\n56"), vec![12, 34, 56]);
    assert_eq!(parse_pid_list(""), Vec::<u32>::new());
    assert_eq!(parse_pid_list("+7\r\n4294967296\n4294967295\n"), vec![7, 4294967295]);
    assert!(reports_unpopulated("populated 0\nfrozen 0\n"));
    assert!(!reports_unpopulated("populated 1\nfrozen 0\n"));
    assert!(!reports_unpopulated(" populated 0\n"));
    assert!(reports_frozen("populated 1\nfrozen 1\n"));
    assert!(!reports_frozen("populated 1\nfrozen 0\n"));
    assert!(!reports_frozen("populated 1\n"));
}

#[test]
fn pid_decimal_bytes_matches_display() {
    for pid in [0u32, 7, 10, 4242, 99999, u32::MAX] {
        let (buf, len) = pid_decimal_bytes(pid);
        assert_eq!(&buf[..len], pid.to_string().as_bytes());
        assert!(buf[len..].iter().all(|&b| b == 0));
    }
}

#[test]
fn tagged_processes_are_found_by_prefix() {
    let ps = "  101 uncontainerizable:com.example:run/sleep 30\n\
              202 /usr/bin/sleep 30\n\
              303   uncontainerizable:com.example:run/other\n\
              404 uncontainerizable:com.example:runner/sleep\n\
              abc uncontainerizable:com.example:run/x\n";
    assert_eq!(find_tagged_pids(ps, "com.example:run"), vec![101, 303]);
    assert_eq!(find_tagged_pids("", "x"), Vec::<u32>::new());
}

#[test]
fn process_group_members_are_parsed() {
    let ps = "  1   1\n 50  50\n 51  50\n 52  7\nxx 50\n 53\n";
    assert_eq!(process_group_members(ps, 50), vec![50, 51]);
    assert_eq!(process_group_members(ps, 9), Vec::<u32>::new());
}

#[test]
fn ps_comm_helpers() {
    assert_eq!(ps_first_line("  /bin/sleep \nother\n").as_deref(), Some("/bin/sleep"));
    assert_eq!(ps_first_line("\n/bin/x\n"), None);
    assert!(comm_matches("/A.app/Contents/MacOS/A\n", "/A.app/Contents/MacOS/A"));
    assert!(!comm_matches("/other\n", "/A.app/Contents/MacOS/A"));
    assert!(!comm_matches("", ""));
    assert_eq!(pidfile_pid(" 123\n"), Some(123));
    assert_eq!(pidfile_pid("x"), None);
}

#[test]
fn bundle_instances_and_new_pid() {
    let ps = " 10 /A.app/Contents/MacOS/A\n 11 /bin/zsh\n 12 /A.app/Contents/MacOS/A\n 10 /A.app/Contents/MacOS/A\n";
    let current = matching_pids(ps, "/A.app/Contents/MacOS/A");
    assert_eq!(current, vec![10, 12]);
    assert_eq!(pick_new_pid(&current, &vec![10]), Some(12));
    assert_eq!(pick_new_pid(&current, &vec![10, 12]), None);
    assert!(matches!(resolve_poll(&current, &vec![10], false, "b", "/x", 5), Some(Ok(12))));
    assert!(resolve_poll(&current, &current, false, "b", "/x", 5).is_none());
    assert!(matches!(
        resolve_poll(&current, &current, true, "b", "/x", 3100),
        Some(Err(BundleError::PidResolveTimeout { waited_ms: 3100, .. }))
    ));
}

#[test]
fn bundle_paths_and_open_arguments() {
    assert_eq!(plist_value("  com.example.App \n").as_deref(), Some("com.example.App"));
    assert_eq!(plist_value(" \n"), None);
    assert_eq!(info_plist_path("/Applications/A.app"), "/Applications/A.app/Contents/Info.plist");
    assert_eq!(
        bundle_executable_path("/Applications/A.app", "A"),
        "/Applications/A.app/Contents/MacOS/A"
    );
    assert_eq!(
        open_command_args("/A.app", &vec!["--flag".to_string(), "value".to_string()]),
        vec!["-n", "-F", "-a", "/A.app", "--args", "--flag", "value"]
    );
    assert_eq!(open_command_args("/A.app", &vec![]), vec!["-n", "-F", "-a", "/A.app"]);
}

#[test]
fn direct_exec_tagging_is_optional() {
    assert_eq!(
        direct_exec_argv0(Some("p:i"), "/bin/sleep", true).as_deref(),
        Some("uncontainerizable:p:i/sleep")
    );
    assert_eq!(direct_exec_argv0(Some("p:i"), "/bin/sleep", false), None);
    assert_eq!(direct_exec_argv0(None, "/bin/sleep", true), None);
}

#[test]
fn stage_ladders() {
    let l = linux_stages();
    assert_eq!(l.len(), 2);
    assert_eq!((l[0].name.as_str(), l[0].is_terminal, l[0].max_wait_ms), ("sigterm_frozen", false, 2000));
    assert_eq!((l[1].name.as_str(), l[1].is_terminal, l[1].max_wait_ms), ("sigkill_frozen", true, 500));
    let d = darwin_stages();
    let names: Vec<&str> = d.iter().map(|s| s.name.as_str()).collect();
    assert_eq!(names, vec!["apple_event_quit", "sigterm_tree", "sigkill_tree"]);
    assert!(d[2].is_terminal && !d[0].is_terminal && !d[1].is_terminal);
    let w = win32_stages();
    assert_eq!((w[0].name.as_str(), w[0].max_wait_ms), ("wm_close_root", 3000));
    assert_eq!((w[1].name.as_str(), w[1].is_terminal), ("terminate_job", true));
    assert_eq!(
        AppleEventQuitStage::quit_script("com.example.App"),
        "tell application id \"com.example.App\" to quit"
    );
}

#[test]
fn job_query_sizing() {
    assert_eq!(next_query_capacity(64, true), Some(128));
    assert_eq!(next_query_capacity(65536, true), Some(131072));
    assert_eq!(next_query_capacity(usize::MAX / 2 + 1, true), None);
    assert_eq!(next_query_capacity(64, false), None);
    assert!(job_reports_empty(&None));
    assert!(job_reports_empty(&Some(vec![])));
    assert!(!job_reports_empty(&Some(vec![5])));
}

#[test]
fn identity_cgroup_lands_under_the_session_cgroup() {
    let proc_self = "0::/user.slice/session-1.scope\n";
    assert_eq!(
        identity_cgroup_path_for(proc_self, "com.example:browser-main").unwrap(),
        "/sys/fs/cgroup/user.slice/session-1.scope/uncontainerizable/com.example.browser-main"
    );
    assert!(matches!(
        identity_cgroup_path_for("1:name=systemd:/x\n", "com.example:run"),
        Err(CgroupError::NotV2)
    ));
    assert!(matches!(
        identity_cgroup_path_for(proc_self, ".."),
        Err(CgroupError::InvalidName(n)) if n == ".."
    ));
}

#[test]
fn drain_wait_ends_when_unpopulated_or_gone() {
    assert!(matches!(
        drain_move(EventsRead::Text("populated 0\nfrozen 0\n".into())),
        DrainMove::Drained
    ));
    assert!(matches!(
        drain_move(EventsRead::Text("populated 1\nfrozen 0\n".into())),
        DrainMove::PollAgain
    ));
    assert!(matches!(drain_move(EventsRead::NotFound), DrainMove::Drained));
    assert!(matches!(
        drain_move(EventsRead::Failed("denied".into())),
        DrainMove::Fail(CgroupError::Io(m)) if m == "denied"
    ));
    assert_eq!(
        drain_timeout_error("/sys/fs/cgroup/x").message(),
        "cgroup /sys/fs/cgroup/x did not drain within 500ms"
    );
}
