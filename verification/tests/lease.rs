use smix_cli::lease::{
    describe, describe_status, teardown_verdict, Admission, Recording, StaleReason, Teardown,
};

fn held(alive: bool, pid: u32) -> Admission {
    Admission::Denied {
        holder_alive: alive,
        pid,
        cmd: "smix run hello.yaml".into(),
        acquired_at: "2026-08-06T10:00:00Z".into(),
    }
}

#[test]
fn a_live_holder_is_named_not_just_reported_busy() {
    let msg = describe("UDID-1", &held(true, 4242));
    assert!(msg.contains("4242"), "the pid is what makes it actionable");
    assert!(msg.contains("smix run hello.yaml"));
    assert_eq!(
        msg,
        "UDID-1: held by pid 4242 (smix run hello.yaml) since 2026-08-06T10:00:00Z"
    );
}

#[test]
fn an_exited_launcher_says_what_is_still_running() {
    let msg = describe("UDID-1", &held(false, 4242));
    assert!(msg.contains("has exited"));
    assert!(msg.contains("still running"));
}

#[test]
fn an_abandoned_device_says_why_and_how_much_is_owed() {
    let msg = describe(
        "UDID-1",
        &Admission::Reclaimable {
            owed: 1,
            reason: StaleReason::PidRecycled,
        },
    );
    assert!(msg.contains("pid was reused"));
    assert!(msg.contains("1 close"));
}

#[test]
fn a_free_device_says_so_plainly() {
    assert_eq!(describe("UDID-1", &Admission::Granted), "UDID-1: free");
}

#[test]
fn an_adoptable_device_says_the_next_command_takes_it_over() {
    let msg = describe("UDID-1", &Admission::Adoptable);
    assert!(msg.starts_with("UDID-1: a finished session left its runner serving"), "{msg}");
}

#[test]
fn every_stale_reason_has_its_words() {
    for (reason, words) in [
        (StaleReason::HolderExited, "holder exited"),
        (StaleReason::PidRecycled, "holder gone, its pid was reused"),
        (StaleReason::HeartbeatExpired, "holder stopped responding"),
    ] {
        let msg = describe("D", &Admission::Reclaimable { owed: 3, reason });
        assert_eq!(msg, format!("D: abandoned ({words}) — 3 close(s) owed"));
    }
}

#[test]
fn no_ledger_means_not_recording() {
    assert_eq!(describe_status("UDID-1", None), "UDID-1: not recording");
}

#[test]
fn a_live_recording_says_where_it_is_writing() {
    let rec = Recording {
        path: "/tmp/run.mov".into(),
        pid: 777,
        live: true,
    };
    let msg = describe_status("UDID-1", Some(&rec));
    assert!(msg.contains("/tmp/run.mov"), "got: {msg}");
    assert!(msg.contains("recording to"), "got: {msg}");
    assert_eq!(msg, "UDID-1: recording to /tmp/run.mov (pid 777)");
}

#[test]
fn a_row_whose_process_is_gone_is_not_reported_as_recording() {
    let rec = Recording {
        path: "/tmp/run.mov".into(),
        pid: 0,
        live: false,
    };
    let msg = describe_status("UDID-1", Some(&rec));
    assert!(msg.contains("left behind"), "got: {msg}");
    assert!(msg.contains("lease reconcile"), "the way out must be named");
}

#[test]
fn a_device_without_our_boot_row_is_not_ours() {
    assert_eq!(teardown_verdict(false, None), Teardown::NotOurs);
    assert_eq!(teardown_verdict(false, Some(&held(true, 1))), Teardown::NotOurs);
}

#[test]
fn our_boot_row_does_not_outrank_a_live_session() {
    assert_eq!(
        teardown_verdict(true, Some(&held(true, 42098))),
        Teardown::OursButHeld { pid: 42098 }
    );
}

#[test]
fn our_boot_row_and_nobody_on_it_proceeds() {
    assert_eq!(
        teardown_verdict(true, Some(&Admission::Granted)),
        Teardown::Proceed
    );
    assert_eq!(teardown_verdict(true, None), Teardown::Proceed);
    assert_eq!(teardown_verdict(true, Some(&held(false, 5))), Teardown::Proceed);
}

use smix_cli::lease::{
    claim_verdict, migrate_outcome, migrate_verdict, owner_report, power_of, prune_summary,
    ClaimVerdict, LedgerFacts, MigrateVerdict, Power,
};

fn ledger(booted: bool, claimed: Option<&str>, alive: bool) -> LedgerFacts {
    LedgerFacts {
        booted_by_us: booted,
        claimed_at: claimed.map(String::from),
        holder_pid: 4242,
        holder_cmd: "smix run a.yaml".into(),
        alive,
    }
}

#[test]
fn owner_says_who_booted_or_claimed_it() {
    assert_eq!(
        owner_report("U", None),
        (3, "U: no ledger — nothing here booted it".to_string())
    );
    assert_eq!(
        owner_report("U", Some(&ledger(false, None, true))),
        (3, "U: a ledger exists (holder pid 4242) but no row says smix booted or claimed it".to_string())
    );
    assert_eq!(
        owner_report("U", Some(&ledger(true, None, false))),
        (0, "U: booted by smix — holder pid 4242 (smix run a.yaml), exited".to_string())
    );
    assert_eq!(
        owner_report("U", Some(&ledger(false, Some("2026-08-06T10:00:00Z"), true))),
        (0, "U: claimed at 2026-08-06T10:00:00Z — holder pid 4242 (smix run a.yaml), still running. Nothing here booted it, so it is this machine's to drive and not to shut down.".to_string())
    );
}

#[test]
fn a_claim_is_refused_over_a_live_session() {
    let held = Admission::Denied {
        holder_alive: true,
        pid: 7,
        cmd: "smix run".into(),
        acquired_at: "t0".into(),
    };
    assert_eq!(
        claim_verdict("U", &held, false),
        ClaimVerdict::Held("U: held by pid 7 (smix run) since t0 — not a device to claim".into())
    );
    assert!(matches!(claim_verdict("U", &Admission::Granted, true), ClaimVerdict::AlreadyAnswered(_)));
    match claim_verdict("U", &Admission::Granted, false) {
        ClaimVerdict::Record(m) => assert!(m.contains("`smix lease release U`"), "{m}"),
        other => panic!("{other:?}"),
    }
}

#[test]
fn migration_moves_only_into_an_empty_slot() {
    assert_eq!(migrate_verdict(None, 5), MigrateVerdict::Move);
    assert_eq!(migrate_verdict(Some(5), 5), MigrateVerdict::AlreadyHere);
    assert_eq!(migrate_verdict(Some(6), 5), MigrateVerdict::Conflict);
    assert_eq!(
        migrate_outcome(2, 0, false, "/m/leases"),
        (
            vec!["2 ledger(s) now in /m/leases".to_string(), "the source ledgers are untouched".to_string()],
            Ok(())
        )
    );
    assert_eq!(
        migrate_outcome(1, 0, true, "/m/leases"),
        (vec!["1 ledger(s) would move into /m/leases; nothing was written".to_string()], Ok(()))
    );
    assert_eq!(
        migrate_outcome(0, 2, false, "/m/leases").1,
        Err("2 device(s) had a ledger in two places and were left alone".to_string())
    );
}

#[test]
fn power_comes_from_the_first_matching_simulator() {
    let listed = vec![
        ("aaa-1".to_string(), "Booted".to_string()),
        ("BBB-2".to_string(), "Shutdown".to_string()),
    ];
    assert_eq!(power_of("AAA-1", Some(&listed)), Power::On);
    assert_eq!(power_of("bbb-2", Some(&listed)), Power::Off);
    assert_eq!(power_of("emulator-5554", Some(&listed)), Power::Unknown);
    assert_eq!(power_of("AAA-1", None), Power::Unknown);
}

#[test]
fn prune_summary_counts_what_went() {
    assert_eq!(prune_summary(3, false), "3 ledger(s) removed");
    assert_eq!(prune_summary(0, true), "0 ledger(s) would be removed");
}
