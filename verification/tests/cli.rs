use smix_cli::cli::{
    exec_argv, exec_arity_complaint, parse_adb_devices, parse_kv_pair, reject_ios_only_up_flags,
    run_port, runner_dial_port, DEFAULT_RUNNER_PORT,
};

const UDID: &str = "5D087114-ECB3-443C-8DDB-40EEF9CFB90C";

#[test]
fn adb_devices_output_parses_to_serial_state_and_model() {
    let out = "List of devices attached\n\
               emulator-5554          device product:sdk_gphone64_arm64 model:sdk_gphone64_arm64 device:emu64a transport_id:1\n\
               R5CT10ABCDE            unauthorized usb:337641472X transport_id:2\n\
               \n";
    let got = parse_adb_devices(out);
    assert_eq!(
        got,
        vec![
            (
                "emulator-5554".to_string(),
                "device".to_string(),
                "sdk_gphone64_arm64".to_string()
            ),
            (
                "R5CT10ABCDE".to_string(),
                "unauthorized".to_string(),
                String::new()
            ),
        ]
    );
}

#[test]
fn a_second_device_argument_is_named_as_the_mistake() {
    let complaint = exec_arity_complaint(
        "openurl",
        &[
            "74CAF762-06F0-4687-9D29-E737A435AEAF".to_string(),
            "insight://x".to_string(),
        ],
    )
    .expect("a udid passed to openurl is always a mistake");
    assert!(complaint.contains("takes no device argument"), "{complaint}");
    assert!(
        complaint.contains("smix sim exec <ALIAS> openurl insight://x"),
        "it has to show the corrected command: {complaint}"
    );
}

#[test]
fn an_unknown_verb_is_not_second_guessed() {
    assert!(exec_arity_complaint(
        "spawn",
        &["74CAF762-06F0-4687-9D29-E737A435AEAF".to_string()]
    )
    .is_none());
}

#[test]
fn an_ordinary_call_is_not_complained_about() {
    assert!(exec_arity_complaint("openurl", &["insight://x".to_string()]).is_none());
}

#[test]
fn exec_argv_injects_udid_after_verb() {
    let argv = exec_argv(
        "push",
        UDID,
        &["com.example.app".into(), "payload.json".into()],
    );
    assert_eq!(argv, ["push", UDID, "com.example.app", "payload.json"]);
}

#[test]
fn exec_argv_substitutes_placeholder_instead_of_injecting() {
    let argv = exec_argv(
        "spawn",
        UDID,
        &[
            "-s".into(),
            "{udid}".into(),
            "launchctl".into(),
            "list".into(),
        ],
    );
    assert_eq!(argv, ["spawn", "-s", UDID, "launchctl", "list"]);
}

#[test]
fn parse_kv_pair_allows_equals_in_value() {
    let (k, v) = parse_kv_pair("URL=http://h:9999/p=q&r=s").expect("parse");
    assert_eq!(k, "URL");
    assert_eq!(v, "http://h:9999/p=q&r=s");
}

#[test]
fn a_pair_without_equals_or_with_an_empty_key_is_refused() {
    let msg = parse_kv_pair("NOEQUALS").unwrap_err();
    assert_eq!(msg, "expected `KEY=VALUE`, got `NOEQUALS`");
    let msg = parse_kv_pair("=value").unwrap_err();
    assert!(msg.contains("empty KEY"), "msg: {msg}");
}

#[test]
fn android_runner_up_takes_only_the_port_flag() {
    assert!(reject_ios_only_up_flags(false, false, false).is_ok());

    for (bundle, project, supervise, expected) in [
        (true, false, false, "--bundle"),
        (false, true, false, "--runner-project"),
        (false, false, true, "--supervise"),
    ] {
        let err = reject_ios_only_up_flags(bundle, project, supervise)
            .expect_err("an iOS-only flag must be refused, not dropped");
        assert!(err.contains(expected), "{expected} unnamed in: {err}");
        assert!(
            err.contains("--runner-port"),
            "the refusal must say what DOES work: {err}"
        );
    }
}

#[test]
fn every_dropped_flag_is_named_at_once() {
    let err = reject_ios_only_up_flags(true, true, true).expect_err("all three are iOS-only");
    for flag in ["--bundle", "--runner-project", "--supervise"] {
        assert!(err.contains(flag), "{flag} unnamed in: {err}");
    }
    assert!(err.contains("they are"), "plural form expected in: {err}");
}

#[test]
fn a_single_dropped_flag_is_named_in_the_singular() {
    let err = reject_ios_only_up_flags(false, true, false).unwrap_err();
    assert!(
        err.starts_with("runner up --platform android does not implement --runner-project: it is iOS-only."),
        "{err}"
    );
}

#[test]
fn run_port_flag_wins() {
    assert_eq!(run_port(Some(22099), || Some(23000)), 22099);
}

#[test]
fn run_port_falls_back_to_registry() {
    assert_eq!(run_port(None, || Some(22099)), 22099);
}

#[test]
fn run_port_defaults_to_22087() {
    assert_eq!(run_port(None, || None), 22087);
    assert_eq!(DEFAULT_RUNNER_PORT, 22087);
}

#[test]
fn run_port_skips_registry_lookup_when_flag_present() {
    let consulted = std::cell::Cell::new(false);
    let port = run_port(Some(22099), || {
        consulted.set(true);
        Some(23000)
    });
    assert_eq!(port, 22099);
    assert!(!consulted.get(), "registry was read despite an explicit port");
}

#[test]
fn the_dial_ladder_is_flag_then_env_then_registry_then_default() {
    assert_eq!(runner_dial_port(Some(1), Some(2), || Some(3)), 1);
    assert_eq!(runner_dial_port(None, Some(2), || Some(3)), 2);
    assert_eq!(runner_dial_port(None, None, || Some(3)), 3);
    assert_eq!(runner_dial_port(None, None, || None), 22087);
}

#[test]
fn the_env_port_skips_the_registry() {
    let consulted = std::cell::Cell::new(false);
    let port = runner_dial_port(None, Some(22088), || {
        consulted.set(true);
        Some(23000)
    });
    assert_eq!(port, 22088);
    assert!(!consulted.get());
}

use smix_cli::cli::{parse_appearance, port_from_env_value, Appearance};

#[test]
fn runner_port_from_env_is_none_when_unset() {
    assert_eq!(port_from_env_value(None), None);
}

#[test]
fn runner_port_from_env_reads_override() {
    assert_eq!(port_from_env_value(Some("22099")), Some(22099));
    assert_eq!(port_from_env_value(Some("not-a-port")), None);
    assert_eq!(port_from_env_value(Some("70000")), None);
}

#[test]
fn appearance_reads_in_any_ascii_case() {
    assert_eq!(parse_appearance("light"), Ok(Appearance::Light));
    assert_eq!(parse_appearance("DARK"), Ok(Appearance::Dark));
    assert_eq!(
        parse_appearance("Dim"),
        Err("expected 'light' or 'dark', got \"dim\"".to_string())
    );
}

#[test]
fn the_corrected_command_is_closed_in_backticks() {
    let complaint = exec_arity_complaint(
        "launch",
        &["74CAF762-06F0-4687-9D29-E737A435AEAF".to_string(), "com.example.app".to_string()],
    )
    .unwrap();
    assert_eq!(
        complaint,
        "`launch` takes no device argument — `sim exec <ALIAS|UDID>` already named one, and simctl would read \
         `74CAF762-06F0-4687-9D29-E737A435AEAF` as the device and everything after it shifted by one. Drop it: \
         `smix sim exec <ALIAS> launch com.example.app`"
    );
}
