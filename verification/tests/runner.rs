use std::collections::HashMap;

use smix_cli::runner::{
    cycle_plan, installed_runner_project, runner_env, state_path, xcodebuild_argv, RunnerState, CLI_VERSION,
};

const UDID: &str = "5D087114-ECB3-443C-8DDB-40EEF9CFB90C";

#[test]
fn xcodebuild_argv_targets_explicit_udid() {
    let argv = xcodebuild_argv("/repo/swift-bridge/SmixRunner.xcodeproj", UDID);
    assert_eq!(argv[0], "test");
    assert!(argv.contains(&"SmixRunner".to_string()));
    assert!(argv
        .iter()
        .any(|a| a == &format!("platform=iOS Simulator,id={UDID}")));
    assert!(!argv.iter().any(|a| a.contains("name=")));
    let derived_pos = argv
        .iter()
        .position(|a| a == "-derivedDataPath")
        .expect("argv missing -derivedDataPath");
    assert_eq!(
        argv[derived_pos + 1],
        format!(".smix/runner/derived-data-{UDID}")
    );
}

#[test]
fn runner_env_uses_test_runner_prefix() {
    let env = runner_env(Some("com.example.app"), false, 22087, None);
    let map: HashMap<String, String> = env.iter().cloned().collect();
    assert_eq!(
        map.get("TEST_RUNNER_SMIX_RUNNER_TARGET_BUNDLE").map(String::as_str),
        Some("com.example.app")
    );
    assert_eq!(
        map.get("TEST_RUNNER_SMIX_RUNNER_PORT").map(String::as_str),
        Some("22087")
    );
    let env_no_bundle = runner_env(None, false, 22090, None);
    assert_eq!(env_no_bundle.len(), 2);
    assert!(env_no_bundle
        .iter()
        .any(|(k, v)| k == "TEST_RUNNER_SMIX_RUNNER_PORT" && v == "22090"));
}

#[test]
fn runner_env_forwards_cli_version_for_health_echo() {
    let env = runner_env(None, false, 22087, None);
    let map: HashMap<String, String> = env.into_iter().collect();
    assert_eq!(
        map.get("TEST_RUNNER_SMIX_RUNNER_VERSION").map(String::as_str),
        Some("0.1.0")
    );
    assert_eq!(CLI_VERSION, "0.1.0");
}

#[test]
fn runner_env_with_record_adds_enabled_var() {
    let env = runner_env(Some("com.example.app"), true, 22087, None);
    let map: HashMap<String, String> = env.into_iter().collect();
    assert_eq!(
        map.get("TEST_RUNNER_SMIX_RUNNER_TARGET_BUNDLE").map(String::as_str),
        Some("com.example.app")
    );
    assert_eq!(
        map.get("TEST_RUNNER_SMIX_RECORD_ENABLED").map(String::as_str),
        Some("1")
    );
}

#[test]
fn a_configured_probe_is_forwarded_last() {
    let env = runner_env(None, false, 22087, Some("{\"minIdentifierCount\":3}".to_string()));
    assert_eq!(
        env,
        vec![
            ("TEST_RUNNER_SMIX_RUNNER_PORT".to_string(), "22087".to_string()),
            ("TEST_RUNNER_SMIX_RUNNER_VERSION".to_string(), CLI_VERSION.to_string()),
            (
                "TEST_RUNNER_SMIX_INTERACTIVE_PROBE_JSON".to_string(),
                "{\"minIdentifierCount\":3}".to_string()
            ),
        ]
    );
}

#[test]
fn the_port_is_written_in_decimal() {
    let env = runner_env(None, false, 0, None);
    assert_eq!(env[0].1, "0");
    let env = runner_env(None, false, 65535, None);
    assert_eq!(env[0].1, "65535");
}

#[test]
fn the_state_file_lives_under_the_workspace() {
    assert_eq!(state_path("/tmp/ws"), "/tmp/ws/.smix/runner/state.json");
    assert_eq!(
        installed_runner_project("/opt/smix/runner"),
        "/opt/smix/runner/SmixRunner.xcodeproj"
    );
}

#[test]
fn runner_state_clones_field_for_field() {
    let st = RunnerState {
        pid: 4242,
        udid: UDID.into(),
        port: 22087,
        log: "/tmp/runner.log".into(),
        bundle: Some("com.example.app".into()),
        supervisor_pid: None,
    };
    assert_eq!(st.clone(), st);
}

use smix_cli::runner::{
    already_serving, bundle_gate, choose_runner_project, installed_runner_dir, last_lines, log_tail,
    runner_handle, runner_project_candidates, starting_line, stops_supervisor, up_timeout_secs,
    version_gate, BundleGate, RunnerHandle, VersionGate,
};

fn state(udid: &str, bundle: Option<&str>) -> RunnerState {
    RunnerState {
        pid: 77,
        udid: udid.into(),
        port: 22087,
        log: "/tmp/l".into(),
        bundle: bundle.map(String::from),
        supervisor_pid: None,
    }
}

#[test]
fn runner_up_needs_a_bundle_or_an_explicit_default() {
    assert_eq!(
        bundle_gate(Some("com.example.app"), None),
        Ok(BundleGate::Target("[runner] target bundle-id: com.example.app".into()))
    );
    assert!(matches!(bundle_gate(None, Some("1")), Ok(BundleGate::DefaultAllowed(_))));
    assert!(matches!(bundle_gate(None, Some("TRUE")), Ok(BundleGate::DefaultAllowed(_))));
    let err = bundle_gate(None, Some("yes")).unwrap_err();
    assert!(err.starts_with("no --bundle passed"), "{err}");
    assert!(bundle_gate(None, None).is_err());
}

#[test]
fn a_port_already_serving_is_judged_by_the_record() {
    assert_eq!(
        already_serving(22087, "U", Some("b"), Some(&state("U", Some("b")))),
        Ok("runner already up: udid=U port=22087 pid=77".into())
    );
    assert_eq!(
        already_serving(22087, "U", Some("b"), Some(&state("V", Some("c")))),
        Err("port 22087 already serves a runner recorded for udid=V bundle=Some(\"c\") — run `smix runner down` first".into())
    );
    assert_eq!(
        already_serving(22087, "U", None, Some(&state("U", Some("c")))).unwrap_err(),
        "port 22087 already serves a runner recorded for udid=U bundle=Some(\"c\") — run `smix runner down` first"
    );
    assert!(already_serving(1, "U", None, None).unwrap_err().contains("not killing blindly"));
}

#[test]
fn the_timeout_defaults_to_five_minutes() {
    assert_eq!(up_timeout_secs(None), 300);
    assert_eq!(up_timeout_secs(Some("45")), 45);
    assert_eq!(up_timeout_secs(Some("forever")), 300);
    assert_eq!(up_timeout_secs(Some("18446744073709551615")), u64::MAX);
    assert_eq!(up_timeout_secs(Some("18446744073709551616")), 300);
}

#[test]
fn a_cold_start_is_warned_about() {
    let cold = starting_line("U", 22087, 9, true, "/l", 300);
    assert!(cold.contains("COLD REBUILD"), "{cold}");
    assert!(cold.ends_with("Log: /l. Timeout 300s."), "{cold}");
    assert_eq!(
        starting_line("U", 22087, 9, false, "/l", 12),
        "runner starting: udid=U port=22087 pid=9 (warm rebuild ~3 s expected; log /l, timeout 12s)"
    );
}

#[test]
fn the_reported_version_decides() {
    assert_eq!(
        version_gate(22087, Some("0.1.0")),
        VersionGate::Matches("runner up: http://localhost:22087/health = 200 (runner v0.1.0)".into())
    );
    match version_gate(22087, Some("0.0.9")) {
        VersionGate::Mismatch(m) => assert!(m.starts_with("runner version mismatch: CLI is v0.1.0 but the running SmixRunner reports v0.0.9."), "{m}"),
        other => panic!("{other:?}"),
    }
    assert!(matches!(version_gate(22087, None), VersionGate::Legacy(_, _)));
}

#[test]
fn the_runner_project_cascade() {
    assert_eq!(
        installed_runner_dir(Some("/x"), Some("/home/a")),
        Some("/x/smix/runner".into())
    );
    assert_eq!(
        installed_runner_dir(None, Some("/home/a")),
        Some("/home/a/.local/share/smix/runner".into())
    );
    assert_eq!(installed_runner_dir(None, None), None);
    assert_eq!(
        runner_project_candidates(Some("/x/smix/runner"), "/repo"),
        vec![
            "/x/smix/runner/SmixRunner.xcodeproj".to_string(),
            "/repo/swift-bridge/SmixRunner.xcodeproj".to_string()
        ]
    );
    let cands = vec![("/a".to_string(), false), ("/b".to_string(), true)];
    assert_eq!(choose_runner_project(None, &cands), Ok("/b".into()));
    assert_eq!(choose_runner_project(Some(("/e", true)), &cands), Ok("/e".into()));
    assert!(choose_runner_project(Some(("/e", false)), &cands)
        .unwrap_err()
        .starts_with("runner project missing: /e\nexplicit override"));
    let none = vec![("/a".to_string(), false), ("/b".to_string(), false)];
    let err = choose_runner_project(None, &none).unwrap_err();
    assert!(err.starts_with("runner project missing: /b\ntried:\n  - /a\n  - /b\nfix: (a)"), "{err}");
}

#[test]
fn the_log_tail_is_its_last_lines() {
    assert_eq!(log_tail("a\nb\nc\n", 2), "b\nc");
    assert_eq!(log_tail("a\nb", 5), "a\nb");
    assert_eq!(log_tail("", 3), "");
}

#[test]
fn runner_down_judges_the_pids_it_finds() {
    assert!(stops_supervisor(Some(5), 6, Some("/usr/bin/smix runner supervise")));
    assert!(!stops_supervisor(Some(6), 6, Some("smix runner supervise")));
    assert!(!stops_supervisor(Some(5), 6, Some("/bin/zsh")));
    assert!(!stops_supervisor(None, 6, Some("smix")));
    assert_eq!(
        runner_handle(7, "U", Some("xcodebuild test -project x")),
        RunnerHandle::Stop("stopping runner: pid=7 udid=U".into())
    );
    assert_eq!(
        runner_handle(7, "U", Some("vim")),
        RunnerHandle::Stale("stale handle: pid 7 is now \"vim\" (not xcodebuild) — dropping state without killing".into())
    );
    assert_eq!(
        runner_handle(7, "U", None),
        RunnerHandle::Gone("runner pid 7 already gone — dropping stale handle".into())
    );
}

#[test]
fn tail_lines_returns_last_n_of_the_text() {
    assert_eq!(last_lines("a\nb\nc\nd\n", 2), vec!["c", "d"]);
    assert_eq!(last_lines("a\nb", 5), vec!["a", "b"]);
    assert_eq!(last_lines("a\nb\n", 0), Vec::<String>::new());
    assert_eq!(last_lines("", 3), Vec::<String>::new());
    assert_eq!(last_lines("x\r\ny", 1), vec!["y"]);
}

#[test]
fn a_cycle_needs_a_recorded_runner() {
    assert_eq!(
        cycle_plan(None, 22087).unwrap_err(),
        "no runner state.json — cycle only cycles a known runner; run `smix runner up <device> [--bundle <id>]` for a cold start"
    );
}

#[test]
fn a_cycle_keeps_the_recorded_port_bundle_and_supervisor() {
    let st = RunnerState {
        pid: 1,
        udid: UDID.to_string(),
        port: 22090,
        log: "/l".to_string(),
        bundle: Some("com.example.app".to_string()),
        supervisor_pid: Some(7),
    };
    let p = cycle_plan(Some(&st), 22087).unwrap();
    assert_eq!(p.udid, UDID);
    assert_eq!(p.port, 22090);
    assert_eq!(p.bundle.as_deref(), Some("com.example.app"));
    assert!(p.supervise);
    assert_eq!(
        p.port_note.as_deref(),
        Some("note: state.json port 22090 differs from --runner-port 22087; cycling on state.json's 22090")
    );
    assert_eq!(p.banner, format!("cycling runner: udid={UDID} port=22090 bundle=Some(\"com.example.app\")"));
    let quiet = RunnerState { bundle: None, supervisor_pid: None, port: 22087, ..st };
    let q = cycle_plan(Some(&quiet), 22087).unwrap();
    assert_eq!(q.port_note, None);
    assert!(!q.supervise);
    assert_eq!(q.banner, format!("cycling runner: udid={UDID} port=22087 bundle=None"));
}

#[test]
fn the_wait_for_health_reports_progress_and_gives_up_at_the_deadline() {
    let mut w = begin_up_wait(1_000, 60, true);
    assert_eq!(w.deadline_ms, 61_000);
    assert_eq!(up_poll(&mut w, 3_000, None, false, ""), (None, UpPoll::Wait));
    assert_eq!(
        up_poll(&mut w, 31_500, None, false, ""),
        (Some("runner up: xcodebuild still working (30s elapsed)".to_string()), UpPoll::Wait)
    );
    assert_eq!(up_poll(&mut w, 33_000, None, true, ""), (None, UpPoll::Healthy));
    assert_eq!(
        up_poll(&mut w, 61_000, None, true, "a\nb\n"),
        (None, UpPoll::TimedOut { error: "runner did not become healthy within 60s — sent SIGINT; log tail:\na\nb".to_string() })
    );
}

#[test]
fn an_exited_xcodebuild_fails_the_wait() {
    let mut w = begin_up_wait(0, 10, false);
    assert_eq!(
        up_poll(&mut w, 500, Some("exit status: 65"), false, "error: build failed\n"),
        (None, UpPoll::ExitedEarly { error: "xcodebuild exited early (exit status: 65) — log tail:\nerror: build failed".to_string() })
    );
}

use smix_cli::runner::{begin_up_wait, up_poll, UpPoll};
