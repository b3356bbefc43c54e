use smix_cli::departures::{
    console_tail, console_unreadable, departure_line, empty_history, history_lines, noticed_line,
    Departure, CONSOLE_TAIL_LINES,
};

fn departure() -> Departure {
    Departure {
        device_id: "emulator-5554".to_string(),
        avd: Some("Pixel_7".to_string()),
        slot_now: Some("emulator-5556".to_string()),
        last_heartbeat: "2026-08-11T10:00:00Z".to_string(),
        holder_pid: 4242,
        holder_cmd: "smix run".to_string(),
        holder_alive: false,
        booted_by_smix: true,
        noticed_at: "2026-08-11T10:05:00Z".to_string(),
        noticed_by: "smix sim list".to_string(),
        console_log: Some("/tmp/console.log".to_string()),
        console_tail: vec!["qemu: fatal".to_string()],
    }
}

#[test]
fn a_departure_says_what_when_and_whose() {
    assert_eq!(
        departure_line(&departure()),
        "emulator-5554 (AVD Pixel_7) left without smix hearing about it; its port now answers for \
         `emulator-5556`. Last heard from at 2026-08-11T10:00:00Z, held by pid 4242 (`smix run`, no \
         longer running); smix booted it"
    );
}

#[test]
fn a_plain_departure_leaves_out_what_it_does_not_have() {
    let mut d = departure();
    d.avd = None;
    d.slot_now = None;
    d.holder_alive = true;
    d.booted_by_smix = false;
    assert_eq!(
        departure_line(&d),
        "emulator-5554 left without smix hearing about it. Last heard from at 2026-08-11T10:00:00Z, \
         held by pid 4242 (`smix run`, still running)"
    );
    assert_eq!(
        noticed_line(&d),
        format!("note: {} — recorded; `smix lease history` has it", departure_line(&d))
    );
}

#[test]
fn history_prints_the_notice_the_line_and_the_console() {
    let d = departure();
    assert_eq!(
        history_lines(&d),
        vec![
            "2026-08-11T10:05:00Z  noticed by `smix sim list`".to_string(),
            format!("  {}", departure_line(&d)),
            "  console: /tmp/console.log".to_string(),
            "    | qemu: fatal".to_string(),
        ]
    );
    assert_eq!(
        empty_history("/m/leases/departures.json"),
        "no device has left without smix hearing about it (history: /m/leases/departures.json)"
    );
}

#[test]
fn a_missing_console_log_says_so_instead_of_leaving_nothing() {
    let tail = console_unreadable("/nonexistent/smix-console-for-a-test.log", "No such file or directory");
    assert_eq!(tail.len(), 1);
    assert!(tail[0].contains("could not be read"), "{tail:?}");
}

#[test]
fn a_long_console_keeps_only_its_last_lines() {
    let text: String = (0..50).map(|i| format!("line {i}\n")).collect();
    let tail = console_tail(&text);
    assert_eq!(tail.len(), CONSOLE_TAIL_LINES);
    assert_eq!(tail.last().map(String::as_str), Some("line 49"));
}
