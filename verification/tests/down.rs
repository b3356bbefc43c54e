use smix_cli::down::{
    is_running, ledger_ids, ledger_kept_line, orphan_sweeps, residue_patterns, residue_verdict,
    settle_verdict, teardown_line, Holder, Settle,
};
use smix_cli::lease::Teardown;

fn strings(v: &[&str]) -> Vec<String> {
    v.iter().map(|s| s.to_string()).collect()
}

#[test]
fn ledger_ids_are_the_json_names_in_order() {
    let names = strings(&["B-2.json", "notes.txt", "A-1.json", "emulator-5554.json", ".json", "x.jsonl"]);
    assert_eq!(ledger_ids(&names), strings(&["", "A-1", "B-2", "emulator-5554"]));
}

#[test]
fn no_ledger_files_give_no_ids() {
    assert!(ledger_ids(&strings(&["README", "lock"])).is_empty());
    assert!(ledger_ids(&[]).is_empty());
}

#[test]
fn a_live_holder_that_is_not_the_sweep_is_left_alone() {
    let h = Holder { pid: 50057, cmd: "smix-mcp".to_string(), alive: true };
    assert_eq!(
        settle_verdict("A-1", Some(&h), 7),
        Settle::LeftAlone("  A-1: held by pid 50057 (smix-mcp) — still alive, left alone".to_string())
    );
}

#[test]
fn a_dead_holder_or_the_sweep_itself_is_closed() {
    let dead = Holder { pid: 50057, cmd: "smix".to_string(), alive: false };
    assert_eq!(settle_verdict("A-1", Some(&dead), 7), Settle::Close);
    let me = Holder { pid: 7, cmd: "smix down".to_string(), alive: true };
    assert_eq!(settle_verdict("A-1", Some(&me), 7), Settle::Close);
}

#[test]
fn an_empty_ledger_owes_nothing() {
    assert_eq!(settle_verdict("A-1", None, 7), Settle::NothingOwed("  A-1: nothing owed".to_string()));
}

#[test]
fn a_ledger_is_kept_only_when_a_close_failed() {
    assert_eq!(ledger_kept_line("A-1", true), None);
    assert_eq!(
        ledger_kept_line("A-1", false).as_deref(),
        Some("  A-1: some closes failed — ledger kept so they stay visible")
    );
}

#[test]
fn orphan_sweeps_are_scoped_to_the_udid() {
    let s = orphan_sweeps("U-1", "iPhone 15");
    assert_eq!(
        s,
        vec![
            ("-INT".to_string(), "simctl io.*U-1.*recordVideo".to_string(), "recordVideo (iPhone 15)".to_string()),
            (
                "-TERM".to_string(),
                "simctl launch.*U-1.*com.apple.Preferences".to_string(),
                "motion loop (iPhone 15)".to_string()
            ),
        ]
    );
}

#[test]
fn residue_patterns_add_each_recorder() {
    assert_eq!(
        residue_patterns(&strings(&["U-1", "U-2"])),
        strings(&[
            "xcodebuild.*Smix|smix-server|smix/web.*vite",
            "simctl io.*U-1.*recordVideo",
            "simctl io.*U-2.*recordVideo",
        ])
    );
    assert_eq!(residue_patterns(&[]), strings(&["xcodebuild.*Smix|smix-server|smix/web.*vite"]));
}

#[test]
fn a_simulator_runs_when_booted_in_any_case() {
    let sims = vec![
        ("abc-1".to_string(), "Shutdown".to_string()),
        ("ABC-2".to_string(), "Booted".to_string()),
    ];
    assert!(is_running(false, "abc-2", &[], &sims));
    assert!(!is_running(false, "ABC-1", &[], &sims));
    assert!(!is_running(false, "ABC-3", &[], &sims));
}

#[test]
fn an_emulator_runs_when_adb_lists_it() {
    let running = strings(&["emulator-5554"]);
    assert!(is_running(true, "emulator-5554", &running, &[]));
    assert!(!is_running(true, "emulator-5556", &running, &[]));
}

#[test]
fn teardown_lines_name_who_is_on_the_device() {
    assert_eq!(teardown_line("main", "U-1", &Teardown::Proceed), None);
    assert_eq!(
        teardown_line("main", "U-1", &Teardown::NotOurs).as_deref(),
        Some("  main (U-1) is up but not ours — left alone")
    );
    assert_eq!(
        teardown_line("main", "U-1", &Teardown::OursButHeld { pid: 42 }).as_deref(),
        Some("  main (U-1) is ours by boot row but pid 42 is alive on it — left alone")
    );
}

#[test]
fn residue_is_an_error_listing_what_survived() {
    assert_eq!(residue_verdict("").unwrap(), "clean — no smix residual processes.");
    assert_eq!(
        residue_verdict("123 xcodebuild\n").unwrap_err(),
        "STILL RUNNING (inspect manually):\n123 xcodebuild\n"
    );
}
