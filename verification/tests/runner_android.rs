use smix_cli::runner_android::{
    android_down_line, android_starting_line, android_timeout_error, device_ready, force_stop_argv,
    forward_argv, forward_remove_argv, install_argv, instrument_argv, no_device_error, runner_log_path,
    test_apk_path, DEFAULT_ANDROID_PORT,
};

fn strings(v: &[&str]) -> Vec<String> {
    v.iter().map(|s| s.to_string()).collect()
}

#[test]
fn a_ready_device_is_listed_as_device() {
    let list = "List of devices attached\nemulator-5554\tdevice\nemulator-5556\toffline\n\n";
    assert!(device_ready(list, "emulator-5554"));
    assert!(!device_ready(list, "emulator-5556"));
    assert!(!device_ready(list, "emulator-5558"));
    assert!(!device_ready("", "emulator-5554"));
}

#[test]
fn every_argv_names_its_device() {
    assert_eq!(
        install_argv("emulator-5554", "/r/app.apk"),
        strings(&["-s", "emulator-5554", "install", "-r", "-t", "/r/app.apk"])
    );
    assert_eq!(
        forward_argv("emulator-5554", DEFAULT_ANDROID_PORT),
        strings(&["-s", "emulator-5554", "forward", "tcp:28080", "tcp:28080"])
    );
    assert_eq!(
        instrument_argv("emulator-5554"),
        strings(&[
            "-s",
            "emulator-5554",
            "shell",
            "am",
            "instrument",
            "-w",
            "-e",
            "class",
            "dev.smix.runner.RunnerTest#runServerForever",
            "dev.smix.runner.test/androidx.test.runner.AndroidJUnitRunner",
        ])
    );
    assert_eq!(
        force_stop_argv("emulator-5554"),
        strings(&["-s", "emulator-5554", "shell", "am", "force-stop", "dev.smix.runner.test"])
    );
    assert_eq!(
        forward_remove_argv("emulator-5554", 28081),
        strings(&["-s", "emulator-5554", "forward", "--remove", "tcp:28081"])
    );
}

#[test]
fn the_apk_and_log_live_under_the_root() {
    assert_eq!(
        test_apk_path("/w"),
        "/w/android-runner/app/build/outputs/apk/androidTest/debug/app-debug-androidTest.apk"
    );
    assert_eq!(runner_log_path("/w", "emulator-5554"), "/w/.smix/runner/runner-emulator-5554.log");
}

#[test]
fn the_messages_say_what_happened() {
    assert_eq!(
        no_device_error("emulator-5554"),
        "adb has no ready device \"emulator-5554\". `adb devices` lists what is attached; start the \
         emulator first (`emulator -avd <name>`), or pass the serial of a running one."
    );
    assert_eq!(
        android_starting_line("emulator-5554", 28080, 77, "/w/log"),
        "runner starting: device=emulator-5554 port=28080 pid=77 — log: /w/log"
    );
    assert_eq!(android_down_line("emulator-5554", 28080), "runner down: device=emulator-5554 port 28080 closed");
}

#[test]
fn a_timeout_carries_the_last_fifteen_lines() {
    let log: String = (0..20).map(|i| format!("l{i}\n")).collect();
    let expected: Vec<String> = (5..20).map(|i| format!("l{i}")).collect();
    assert_eq!(
        android_timeout_error(60, &log),
        format!("runner did not become healthy within 60s. Log tail:\n{}", expected.join("\n"))
    );
}
