use smix_cli::diagnostics::{
    crash_report_matches, flows_section, metro_section, named_ids_line, sessions_section, snapshot_header,
    subprocess_section, FlowAttempt, FlowRecord, SessionRow, SubprocessRecord,
};

#[test]
fn every_crash_report_counts_without_a_bundle() {
    assert!(crash_report_matches(None, "Anything-2026-01-01.ips"));
    assert!(crash_report_matches(None, "LOUD.IPS"));
    assert!(!crash_report_matches(None, "Anything.crash"));
}

#[test]
fn a_bundle_narrows_to_its_last_component() {
    let b = Some("com.example.MyApp");
    assert!(crash_report_matches(b, "MyApp-2026-05-01-101010.ips"));
    assert!(crash_report_matches(b, "myapp.ips"));
    assert!(!crash_report_matches(b, "OtherApp-2026-05-01.ips"));
    assert!(!crash_report_matches(b, "MyApp-2026-05-01.txt"));
    assert!(crash_report_matches(Some("plain"), "plain.ips"));
}

fn record(argv: &[&str], exit_code: Option<i32>, wall_ms: u64, stderr_head: &str) -> SubprocessRecord {
    SubprocessRecord {
        argv: argv.iter().map(|s| s.to_string()).collect(),
        exit_code,
        wall_ms,
        stderr_head: stderr_head.to_string(),
    }
}

#[test]
fn a_subprocess_section_shows_the_newest_first_aligned() {
    let rs = vec![
        record(&["list", "devices"], Some(0), 120, ""),
        record(&["boot", "U-1"], Some(-1), 3400, "already \"booted\""),
        record(&["io", "U-1", "screenshot"], None, 7, ""),
    ];
    assert_eq!(
        subprocess_section("client-side subprocesses", &rs, "simctl "),
        vec![
            "=== client-side subprocesses (last 3 of 3) ===".to_string(),
            format!("  {:>13}ms  code={:>3}  simctl io U-1 screenshot", 7, "-"),
            format!("  {:>13}ms  code={:>3}  simctl boot U-1 err={:?}", 3400, -1, "already \"booted\""),
            format!("  {:>13}ms  code={:>3}  simctl list devices", 120, 0),
        ]
    );
}

#[test]
fn a_subprocess_section_keeps_the_newest_twenty() {
    let rs: Vec<SubprocessRecord> = (0..25).map(|i| record(&["n"], Some(i), i as u64, "")).collect();
    let lines = subprocess_section("runner-side subprocesses", &rs, "");
    assert_eq!(lines.len(), 21);
    assert_eq!(lines[0], "=== runner-side subprocesses (last 20 of 25) ===");
    assert_eq!(lines[1], format!("  {:>13}ms  code={:>3}  n", 24, 24));
    assert_eq!(lines[20], format!("  {:>13}ms  code={:>3}  n", 5, 5));
}

#[test]
fn the_retry_roll_up_lists_each_attempt() {
    let flows = vec![FlowRecord {
        flow_name: "login.yaml".to_string(),
        attempts: vec![
            FlowAttempt {
                attempt_index: 1,
                status: "failed".to_string(),
                wall_ms: 900,
                error_class: Some("Timeout".to_string()),
                ips_generated: Some("App-1.ips".to_string()),
            },
            FlowAttempt {
                attempt_index: 2,
                status: "passed".to_string(),
                wall_ms: 450,
                error_class: None,
                ips_generated: None,
            },
        ],
    }];
    assert_eq!(
        flows_section(&flows),
        vec![
            "=== recent flows (retry attribution) ===".to_string(),
            "  flow: login.yaml".to_string(),
            "    attempt #1 status=failed wallMs=900 errorClass=Timeout ipsGenerated=App-1.ips".to_string(),
            "    attempt #2 status=passed wallMs=450".to_string(),
            String::new(),
        ]
    );
    assert!(flows_section(&[]).is_empty());
}

#[test]
fn the_metro_tail_and_named_ids_are_printed_as_given() {
    let tail = vec!["bundling".to_string(), "done".to_string()];
    assert_eq!(
        metro_section(&tail),
        vec![
            "=== metro log tail (last 2 of file) ===".to_string(),
            "  bundling".to_string(),
            "  done".to_string(),
            String::new(),
        ]
    );
    assert!(metro_section(&[]).is_empty());
    assert_eq!(
        named_ids_line(&["a".to_string(), "b".to_string()]),
        "  lastInteractiveNamedIds (2): a, b"
    );
    assert_eq!(
        named_ids_line(&[]),
        "  lastInteractiveNamedIds: []  # no launch has completed with a non-empty sample yet"
    );
}

#[test]
fn open_sessions_are_a_padded_table() {
    let ss = vec![SessionRow {
        session_id: "s-1".to_string(),
        bundle_id: "com.example.app".to_string(),
        opened_at_ms: 10,
        last_activated_at_ms: 20,
    }];
    assert_eq!(
        sessions_section(&ss),
        vec![
            "=== open sessions (1) ===".to_string(),
            format!("  {:<38} {:<40} openedAtMs=10 lastActivatedAtMs=20", "s-1", "com.example.app"),
        ]
    );
}

#[test]
fn the_snapshot_header_says_uptime_health_and_supervisor() {
    assert_eq!(
        snapshot_header(1500, "healthy", Some(99)),
        vec![
            "=== runner runtime snapshot ===".to_string(),
            "uptime:         1500ms".to_string(),
            "sim health:     healthy".to_string(),
            "supervisor pid: 99".to_string(),
        ]
    );
    assert_eq!(snapshot_header(0, "x", None)[3], "supervisor pid: (none)");
}
