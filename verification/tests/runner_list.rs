use smix_cli::runner_list::{runner_list_empty, runner_list_lines, Seen};

fn head(port: &str, device: &str) -> String {
    format!(":{port:<6} {device:<40} ")
}

#[test]
fn a_runner_seen_both_ways_with_its_recorded_session_is_one_line() {
    let seen = Seen::Both { app_pid: 10, ledger_session_pid: 20, live_session_pid: Some(20) };
    assert_eq!(
        runner_list_lines(22087, "U-1", &seen, None),
        vec![format!("{}both          app pid 10, ledger session pid 20", head("22087", "U-1"))]
    );
}

#[test]
fn a_different_live_session_is_named() {
    let seen = Seen::Both { app_pid: 10, ledger_session_pid: 20, live_session_pid: Some(30) };
    let lines = runner_list_lines(22087, "U-1", &seen, None);
    assert_eq!(lines.len(), 2);
    assert_eq!(lines[1], "         the session driving it now is pid 30, not the one recorded");
}

#[test]
fn no_live_session_is_said() {
    let seen = Seen::Both { app_pid: 10, ledger_session_pid: 20, live_session_pid: None };
    let lines = runner_list_lines(7, "U-1", &seen, None);
    assert_eq!(lines[0], format!("{}both          app pid 10, ledger session pid 20", head("7", "U-1")));
    assert_eq!(
        lines[1],
        "         no xcodebuild session here answers for it — it keeps serving after the session that started it exits"
    );
}

#[test]
fn a_ledger_only_runner_says_nothing_listens() {
    let lines = runner_list_lines(22087, "U-1", &Seen::LedgerOnly { ledger_pid: 5 }, Some("/repo"));
    assert_eq!(
        lines,
        vec![format!("{}ledger-only   recorded at pid 5; nothing is listening there", head("22087", "U-1"))]
    );
}

#[test]
fn a_process_only_runner_points_at_the_checkout_that_names_it() {
    let seen = Seen::ProcessOnly { app_pid: 11, session_pid: Some(12), named_by_checkout: true };
    assert_eq!(
        runner_list_lines(22088, "U-2", &seen, Some("/repo/.smix/leases")),
        vec![
            format!("{}process-only  app pid 11, session pid 12", head("22088", "U-2")),
            "         this machine's ledgers have no record of it.".to_string(),
            "         /repo/.smix/leases names this device — that book is evidence about where to look, not authority."
                .to_string(),
        ]
    );
    let unnamed = Seen::ProcessOnly { app_pid: 11, session_pid: None, named_by_checkout: false };
    assert_eq!(
        runner_list_lines(22088, "U-2", &unnamed, Some("/repo")),
        vec![
            format!("{}process-only  app pid 11", head("22088", "U-2")),
            "         this machine's ledgers have no record of it.".to_string(),
        ]
    );
}

#[test]
fn a_runner_not_probed_says_why() {
    let seen = Seen::NotProbed { ledger_pid: 9, why: "no port recorded".to_string() };
    assert_eq!(
        runner_list_lines(0, "emulator-5554", &seen, None),
        vec![format!("{}not-probed    recorded at pid 9 — no port recorded", head("0", "emulator-5554"))]
    );
}

#[test]
fn an_empty_machine_says_so() {
    assert_eq!(
        runner_list_empty("/m/leases"),
        "no runner ledgers under /m/leases, and nothing on this machine is listening as a smix runner"
    );
}
