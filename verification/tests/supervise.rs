use smix_cli::supervise::{
    log_context, LogVerdict, Supervisor, Trigger, COOLDOWN_MS, STORM_WINDOW_MS,
};

const BANNER: &str = "** TEST INTERRUPTED **";

#[test]
fn a_banner_line_calls_for_a_cycle() {
    let mut s = Supervisor::attach(0);
    let v = s.scan_chunk("starting\nTest Suite ** TEST INTERRUPTED ** here\nmore\n", 50, 1_000);
    assert_eq!(
        v,
        LogVerdict::Cycle {
            line: "Test Suite ** TEST INTERRUPTED ** here".to_string()
        }
    );
    assert_eq!(s.position, 50);
    assert_eq!(s.carry, "");
}

#[test]
fn a_banner_split_across_reads_still_fires() {
    let mut s = Supervisor::attach(0);
    assert_eq!(
        s.scan_chunk("ok\n** TEST INTER", 10, 1_000),
        LogVerdict::Quiet { cooldown_skips: 0 }
    );
    assert_eq!(s.carry, "** TEST INTER");
    assert_eq!(
        s.scan_chunk("RUPTED **\n", 20, 1_500),
        LogVerdict::Cycle {
            line: BANNER.to_string()
        }
    );
}

#[test]
fn the_other_banner_counts_too() {
    let mut s = Supervisor::attach(0);
    let v = s.scan_chunk("x SchemeActionResultOperation started unexpectedly y\n", 5, 0);
    assert!(matches!(v, LogVerdict::Cycle { .. }), "{v:?}");
}

#[test]
fn a_second_banner_inside_the_cooldown_is_skipped() {
    let mut s = Supervisor::attach(0);
    assert!(matches!(
        s.scan_chunk("** TEST INTERRUPTED **\n", 10, 1_000),
        LogVerdict::Cycle { .. }
    ));
    s.cycle_done(1_000, true);
    assert_eq!(s.position, 0);
    assert_eq!(s.last_cycle_at, Some(1_000));
    assert_eq!(
        s.scan_chunk("** TEST INTERRUPTED **\n** TEST INTERRUPTED **\n", 40, 1_000 + COOLDOWN_MS - 1),
        LogVerdict::Quiet { cooldown_skips: 2 }
    );
    assert!(matches!(
        s.scan_chunk("** TEST INTERRUPTED **\n", 60, 1_000 + COOLDOWN_MS),
        LogVerdict::Cycle { .. }
    ));
}

#[test]
fn five_cycles_inside_the_window_are_a_storm() {
    let mut s = Supervisor::attach(0);
    let mut now = 0;
    for _ in 0..5 {
        let v = s.scan_chunk("** TEST INTERRUPTED **\n", 10, now);
        assert!(matches!(v, LogVerdict::Cycle { .. }), "{v:?}");
        s.cycle_done(now, true);
        now += COOLDOWN_MS;
    }
    assert_eq!(
        s.scan_chunk("** TEST INTERRUPTED **\n", 10, now),
        LogVerdict::Storm { cycles: 5 }
    );
}

#[test]
fn old_cycles_fall_out_of_the_window() {
    let mut s = Supervisor::attach(0);
    let mut now = 0;
    for _ in 0..5 {
        assert!(matches!(
            s.scan_chunk("** TEST INTERRUPTED **\n", 10, now),
            LogVerdict::Cycle { .. }
        ));
        s.cycle_done(now, true);
        now += COOLDOWN_MS;
    }
    let later = STORM_WINDOW_MS + 1;
    assert!(matches!(
        s.scan_chunk("** TEST INTERRUPTED **\n", 10, later),
        LogVerdict::Cycle { .. }
    ));
    assert_eq!(s.cycle_times, vec![60_000, 120_000, 180_000, 240_000]);
}

#[test]
fn three_failed_probes_call_for_a_cycle() {
    let mut s = Supervisor::attach(0);
    assert_eq!(s.health(false, 10).trigger, Trigger::Quiet);
    assert_eq!(s.health(false, 20).fails, 2);
    let v = s.health(false, 30);
    assert_eq!(v.fails, 3);
    assert_eq!(v.trigger, Trigger::Cycle);
    assert_eq!(s.health_fails, 0);
    s.cycle_done(30, false);
    assert_eq!(s.carry, "");
}

#[test]
fn an_answer_resets_the_failure_count() {
    let mut s = Supervisor::attach(0);
    s.health(false, 10);
    s.health(false, 20);
    assert_eq!(s.health(true, 30).fails, 0);
    assert_eq!(s.health(false, 40).trigger, Trigger::Quiet);
}

#[test]
fn a_health_trigger_inside_the_cooldown_is_skipped() {
    let mut s = Supervisor::attach(0);
    s.cycle_done(100, false);
    s.health(false, 200);
    s.health(false, 300);
    assert_eq!(s.health(false, 400).trigger, Trigger::Cooldown);
}

#[test]
fn every_twentieth_poll_probes() {
    let mut s = Supervisor::attach(0);
    let probes: Vec<bool> = (0..40).map(|_| s.tick()).collect();
    assert_eq!(probes.iter().filter(|p| **p).count(), 2);
    assert!(probes[19] && probes[39]);
}

#[test]
fn a_shorter_log_was_rotated() {
    let mut s = Supervisor::attach(100);
    s.carry = "partial".to_string();
    assert!(s.log_grew(40));
    assert_eq!(s.position, 0);
    assert_eq!(s.carry, "");
    let mut t = Supervisor::attach(100);
    assert!(!t.log_grew(100));
    assert!(t.log_grew(150));
    t.skip_to(150);
    assert_eq!(t.position, 150);
}

#[test]
fn the_context_is_the_lines_around_the_match() {
    let text = "l0\nl1\nl2\nl3 ** TEST INTERRUPTED ** x\nl4\nl5\n";
    assert_eq!(
        log_context(text, "  ** TEST INTERRUPTED ** x ", 2),
        vec!["l1", "l2", "l3 ** TEST INTERRUPTED ** x", "l4", "l5"]
    );
    assert_eq!(log_context(text, "l0", 5), vec!["l0", "l1", "l2", "l3 ** TEST INTERRUPTED ** x", "l4", "l5"]);
    assert_eq!(log_context(text, "absent", 5), Vec::<String>::new());
}

#[test]
fn a_storm_stops_the_supervisor_with_its_count() {
    let storm = after_health(&HealthVerdict { fails: 3, trigger: Trigger::Storm { cycles: 5 } });
    assert_eq!(
        storm,
        SuperviseStep::Stop {
            error: "supervise: 5 cycles inside 600s — bailing so a monitoring layer can escalate".to_string()
        }
    );
    assert_eq!(
        after_log(&LogVerdict::Storm { cycles: 6 }),
        SuperviseStep::Stop {
            error: "supervise: 6 cycles inside 600s — bailing so a monitoring layer can escalate".to_string()
        }
    );
}

#[test]
fn probe_failures_and_cooldowns_are_noted() {
    assert_eq!(
        after_health(&HealthVerdict { fails: 1, trigger: Trigger::Quiet }),
        SuperviseStep::Go { notes: vec!["supervise: /health unreachable (1/3)".to_string()] }
    );
    assert_eq!(
        after_health(&HealthVerdict { fails: 3, trigger: Trigger::Cooldown }),
        SuperviseStep::Go {
            notes: vec![
                "supervise: /health unreachable (3/3)".to_string(),
                "supervise: health trigger within 60s of last cycle — skipping (cooldown)".to_string(),
            ]
        }
    );
    assert_eq!(
        after_health(&HealthVerdict { fails: 3, trigger: Trigger::Cycle }),
        SuperviseStep::Cycle { notes: vec!["supervise: /health unreachable (3/3)".to_string()] }
    );
    assert_eq!(after_health(&HealthVerdict { fails: 0, trigger: Trigger::Quiet }), SuperviseStep::Go { notes: vec![] });
    assert_eq!(
        after_log(&LogVerdict::Quiet { cooldown_skips: 2 }),
        SuperviseStep::Go {
            notes: vec![
                "supervise: interrupt hit within 60s of last cycle — skipping (cooldown)".to_string(),
                "supervise: interrupt hit within 60s of last cycle — skipping (cooldown)".to_string(),
            ]
        }
    );
    assert_eq!(
        after_log(&LogVerdict::Cycle { line: "** TEST INTERRUPTED **".to_string() }),
        SuperviseStep::Cycle { notes: vec![] }
    );
}

#[test]
fn cycle_events_carry_the_reason_and_context() {
    assert_eq!(
        health_cycled_event(1700),
        r#"{"event":"RunnerCycled","reasonMatched":"health-unreachable x3","context":[],"atMs":1700}"#
    );
    assert_eq!(
        log_cycled_event("  ** TEST INTERRUPTED **  ", &["a".to_string(), "b \"q\"".to_string()], 5),
        r#"{"event":"RunnerCycled","reasonMatched":"** TEST INTERRUPTED **","context":["a","b \"q\""],"atMs":5}"#
    );
    assert_eq!(cycle_failed("boom"), "supervise: cycle failed: boom");
}

use smix_cli::supervise::{after_health, after_log, cycle_failed, health_cycled_event, log_cycled_event, HealthVerdict, SuperviseStep};
