use smix_cli::capsule::{decide_mode, parse_url, state_path, CapsuleMode, GUARD_HINT};

#[test]
fn state_path_under_workspace() {
    let p = state_path("/tmp/ws", "ABCD-1234");
    assert_eq!(p, "/tmp/ws/.smix/capsule/ABCD-1234.state.json".to_string());
}

#[test]
fn mode_default_hard_when_simulator_absent() {
    assert_eq!(decide_mode(false, false, false).unwrap().0, CapsuleMode::Hard);
    assert_eq!(decide_mode(false, true, false).unwrap().0, CapsuleMode::Hard);
}

#[test]
fn mode_requires_soft_flag_when_simulator_present() {
    let err = decide_mode(true, false, true).unwrap_err();
    assert!(
        err.hint.contains("Simulator.app is running"),
        "guard hint should name the precondition, got {:?}",
        err.hint
    );
    assert!(
        err.hint.contains("--soft"),
        "guard hint should suggest --soft, got {:?}",
        err.hint
    );
}

#[test]
fn mode_soft_when_explicit() {
    assert_eq!(decide_mode(true, true, false).unwrap().0, CapsuleMode::Soft);
}

#[test]
fn a_window_without_soft_degrades_with_a_warning() {
    let (mode, warning) = decide_mode(true, false, false).unwrap();
    assert_eq!(mode, CapsuleMode::Soft);
    let warning = warning.expect("a degraded capsule says so");
    assert!(warning.contains("soft capsule"), "{warning}");
    assert!(warning.contains("--require-hard"), "{warning}");
}

#[test]
fn an_explicit_soft_or_a_hard_capsule_carries_no_warning() {
    assert_eq!(decide_mode(true, true, false).unwrap().1, None);
    assert_eq!(decide_mode(false, false, true).unwrap().1, None);
}

#[test]
fn the_guard_refusal_is_the_guard_hint() {
    assert_eq!(decide_mode(true, true, true).unwrap_err().hint, GUARD_HINT);
}

#[test]
fn a_url_splits_into_host_port_and_path() {
    assert_eq!(
        parse_url("http://127.0.0.1:8787/capture/start").unwrap(),
        ("127.0.0.1".to_string(), 8787, "/capture/start".to_string())
    );
}

#[test]
fn a_url_without_port_or_path_defaults_to_80_and_root() {
    assert_eq!(
        parse_url("http://localhost").unwrap(),
        ("localhost".to_string(), 80, "/".to_string())
    );
}

#[test]
fn only_http_urls_are_taken() {
    assert_eq!(
        parse_url("https://example.com").unwrap_err(),
        "only http:// supported, got https://example.com"
    );
}

#[test]
fn a_bad_port_is_named_as_a_port_error() {
    let err = parse_url("http://host:99999/x").unwrap_err();
    assert!(err.starts_with("port parse: "), "{err}");
    let err = parse_url("http://host:abc").unwrap_err();
    assert!(err.starts_with("port parse: "), "{err}");
}

use smix_cli::capsule::{
    already_booted, capture_call, capture_start_failed, down_outcome, post_reply_outcome,
    post_request, stop_failure_counts, up_banner, CAPTURE_HINT,
};

#[test]
fn the_capture_call_names_the_device_in_json() {
    assert_eq!(
        capture_call("http://127.0.0.1:8787", "U-1", true),
        (
            "http://127.0.0.1:8787/api/capture/start".to_string(),
            "{\"udid\":\"U-1\"}".to_string()
        )
    );
    assert_eq!(
        capture_call("http://h", "U-1", false).0,
        "http://h/api/capture/stop"
    );
}

#[test]
fn a_boot_of_a_booted_device_is_no_failure() {
    assert!(already_booted(
        "Unable to boot device in current state: Booted"
    ));
    assert!(!already_booted("Invalid device: U-1"));
}

#[test]
fn the_banner_says_the_mode_and_where_to_watch() {
    assert_eq!(
        up_banner(CapsuleMode::Soft, "U-1", "http://h:8787", false),
        "capsule up: mode=Soft device=U-1 /live=http://h:8787/live/U-1"
    );
    assert_eq!(
        up_banner(CapsuleMode::Hard, "U-1", "http://h", true),
        "capsule up: mode=Hard device=U-1 no-capture (simctl io recordVideo lock free for in-scenario use)"
    );
}

#[test]
fn a_failed_capture_start_points_at_the_server() {
    let m = capture_start_failed("connect 127.0.0.1:8787: refused", "http://127.0.0.1:8787");
    assert_eq!(
        m,
        format!("capsule up: capture start failed: connect 127.0.0.1:8787: refused\ntried http://127.0.0.1:8787 — {CAPTURE_HINT}")
    );
}

#[test]
fn a_capture_that_is_already_gone_is_not_a_teardown_error() {
    assert!(!stop_failure_counts("status=404 body=gone"));
    assert!(!stop_failure_counts("status=410 body="));
    assert!(stop_failure_counts("status=500 body=boom"));
    assert_eq!(down_outcome(&[]), Ok(()));
    assert_eq!(
        down_outcome(&["runner: x".to_string(), "shutdown: y".to_string()]),
        Err("capsule down completed with errors: runner: x; shutdown: y".to_string())
    );
}

#[test]
fn the_post_request_carries_the_body_length_in_bytes() {
    assert_eq!(
        post_request("127.0.0.1", "/api/capture/start", "{\"udid\":\"é\"}"),
        "POST /api/capture/start HTTP/1.1\r\nHost: 127.0.0.1\r\nContent-Type: application/json\r\nContent-Length: 13\r\nConnection: close\r\n\r\n{\"udid\":\"é\"}"
    );
}

#[test]
fn a_reply_is_judged_by_its_status_code() {
    assert_eq!(post_reply_outcome("HTTP/1.1 200 OK\r\n\r\n{}"), Ok(()));
    assert_eq!(post_reply_outcome("HTTP/1.1 204 No Content\r\n"), Ok(()));
    assert_eq!(
        post_reply_outcome("HTTP/1.1 404 Not Found\r\n\r\nno such capture"),
        Err("status=404 body=no such capture".to_string())
    );
    assert_eq!(
        post_reply_outcome("garbage"),
        Err("malformed status line: \"garbage\"".to_string())
    );
    assert_eq!(
        post_reply_outcome(""),
        Err("malformed status line: \"\"".to_string())
    );
}

#[test]
fn a_clean_teardown_clears_the_record_last() {
    let (mut t, a) = begin_teardown(false);
    assert_eq!(a, DownAction::StopRunner);
    assert_eq!(t.after_step(Ok(())), DownAction::StopCapture);
    assert_eq!(t.after_step(Err("post failed: status=404".to_string())), DownAction::ShutDown);
    assert_eq!(t.after_step(Ok(())), DownAction::ClearRecord);
    assert_eq!(t.after_step(Ok(())), DownAction::Finish(Ok(())));
}

#[test]
fn a_failed_step_keeps_the_record_and_names_the_failure() {
    let (mut t, _) = begin_teardown(true);
    assert_eq!(t.after_step(Err("port still answers".to_string())), DownAction::ShutDown);
    assert_eq!(
        t.after_step(Err("no such device".to_string())),
        DownAction::Finish(Err(
            "capsule down completed with errors: runner: port still answers; shutdown: no such device".to_string()
        ))
    );
}

#[test]
fn a_record_that_will_not_go_is_reported() {
    let (mut t, _) = begin_teardown(true);
    assert_eq!(t.after_step(Ok(())), DownAction::ShutDown);
    assert_eq!(t.after_step(Ok(())), DownAction::ClearRecord);
    assert_eq!(
        t.after_step(Err("permission denied".to_string())),
        DownAction::Finish(Err("capsule down completed with errors: rm state: permission denied".to_string()))
    );
}

use smix_cli::capsule::{begin_teardown, DownAction};

use smix_cli::capsule::{begin_bringup, UpAction};

#[test]
fn a_bringup_boots_captures_starts_the_runner_then_writes_the_record() {
    let (mut b, a) = begin_bringup(CapsuleMode::Hard, "U1", "http://127.0.0.1:8787", false);
    assert_eq!(a, UpAction::Boot);
    assert_eq!(b.after_step(Ok(())), UpAction::StartCapture);
    assert_eq!(
        b.after_step(Ok(())),
        UpAction::StartRunner("capsule up: mode=Hard device=U1 /live=http://127.0.0.1:8787/live/U1".to_string())
    );
    assert_eq!(b.after_step(Ok(())), UpAction::WriteRecord);
    assert_eq!(b.after_step(Ok(())), UpAction::Finish(Ok(())));
}

#[test]
fn a_bringup_without_capture_goes_from_boot_to_the_runner() {
    let (mut b, _) = begin_bringup(CapsuleMode::Soft, "U2", "http://127.0.0.1:8787", true);
    assert_eq!(
        b.after_step(Ok(())),
        UpAction::StartRunner(
            "capsule up: mode=Soft device=U2 no-capture (simctl io recordVideo lock free for in-scenario use)".to_string()
        )
    );
    assert_eq!(b.after_step(Ok(())), UpAction::WriteRecord);
}

#[test]
fn a_device_already_booted_is_no_boot_failure() {
    let (mut b, _) = begin_bringup(CapsuleMode::Hard, "U3", "http://e", false);
    let a = b.after_step(Err("Unable to boot device in current state: Booted".to_string()));
    assert_eq!(a, UpAction::StartCapture);
}

#[test]
fn a_failed_boot_ends_the_bringup_without_a_record() {
    let (mut b, _) = begin_bringup(CapsuleMode::Hard, "U4", "http://e", false);
    assert_eq!(b.after_step(Err("boom".to_string())), UpAction::Finish(Err("simctl boot U4: boom".to_string())));
    assert_eq!(b.step, 4);
}

#[test]
fn a_failed_capture_start_names_the_endpoint_and_the_way_out() {
    let (mut b, _) = begin_bringup(CapsuleMode::Hard, "U5", "http://127.0.0.1:9999", false);
    b.after_step(Ok(()));
    let a = b.after_step(Err("connection refused".to_string()));
    assert_eq!(
        a,
        UpAction::Finish(Err(format!(
            "capsule up: capture start failed: connection refused\ntried http://127.0.0.1:9999 — {CAPTURE_HINT}"
        )))
    );
}

#[test]
fn a_failed_runner_start_ends_the_bringup_with_its_message() {
    let (mut b, _) = begin_bringup(CapsuleMode::Hard, "U6", "http://e", true);
    b.after_step(Ok(()));
    assert_eq!(b.after_step(Err("runner did not come up".to_string())), UpAction::Finish(Err("runner did not come up".to_string())));
}
