use smix_cli::readiness::{assess, Facts, Readiness, RegistryFacts, SimctlFacts, Status, PLATFORM_NOTE};

fn simctl_ok() -> SimctlFacts {
    SimctlFacts {
        available_runtimes: 1,
        available_devices: 3,
    }
}

fn registered(alias: &str) -> Option<RegistryFacts> {
    Some(RegistryFacts {
        aliases: 1,
        first_alias: Some(alias.into()),
    })
}

#[test]
fn readiness_sends_a_fresh_workspace_to_init() {
    let r = assess(&Facts {
        simctl: Some(simctl_ok()),
        registry: None,
        runner_up: false,
        capture_server_up: false,
        downgradeable: None,
    });
    assert!(!r.ready);
    let next = r.next.expect("a blocked verdict must name the next command");
    assert_eq!(next.command, "smix init");
    assert!(
        next.reason.contains(".smix"),
        "the reason should name what init creates: {}",
        next.reason
    );
}

#[test]
fn readiness_sends_a_registered_workspace_to_capsule_up() {
    let r = assess(&Facts {
        simctl: Some(simctl_ok()),
        registry: registered("dev"),
        runner_up: false,
        capture_server_up: false,
        downgradeable: None,
    });
    assert!(!r.ready);
    let next = r.next.expect("still blocked on the runner");
    assert!(
        next.command.starts_with("smix capsule up dev"),
        "next should drive the registered alias: {}",
        next.command
    );
}

#[test]
fn a_missing_toolchain_is_reported_before_anything_it_would_break() {
    let r = assess(&Facts {
        simctl: None,
        registry: None,
        runner_up: false,
        capture_server_up: false,
        downgradeable: None,
    });
    let next = r.next.expect("blocked");
    assert!(next.command.contains("xcode-select"), "got: {}", next.command);
    assert!(!next.command.contains("smix init"));
    assert_eq!(r.checks[0].status, Status::Blocked);
    assert!(
        r.checks.iter().skip(1).all(|c| c.status == Status::Skipped),
        "checks below a blocked one are not verdicts about the machine"
    );
}

#[test]
fn everything_satisfied_leaves_nothing_to_run() {
    let r = assess(&Facts {
        simctl: Some(simctl_ok()),
        registry: Some(RegistryFacts {
            aliases: 2,
            first_alias: Some("dev".into()),
        }),
        runner_up: true,
        capture_server_up: true,
        downgradeable: None,
    });
    assert!(r.ready);
    assert!(r.next.is_none(), "a ready machine has no next command");
    assert!(r.checks.iter().all(|c| c.status == Status::Satisfied));
}

#[test]
fn a_registry_file_naming_no_device_is_not_a_registry() {
    let r = assess(&Facts {
        simctl: Some(simctl_ok()),
        registry: Some(RegistryFacts {
            aliases: 0,
            first_alias: None,
        }),
        runner_up: false,
        capture_server_up: false,
        downgradeable: None,
    });
    assert_eq!(r.next.expect("blocked").command, "smix init");
}

#[test]
fn the_suggested_command_works_on_the_machine_it_is_suggested_on() {
    let without = assess(&Facts {
        simctl: Some(simctl_ok()),
        registry: registered("dev"),
        runner_up: false,
        capture_server_up: false,
        downgradeable: None,
    });
    let cmd = without.next.expect("blocked").command;
    assert!(cmd.contains("--no-capture"), "got: {cmd}");

    let with = assess(&Facts {
        simctl: Some(simctl_ok()),
        registry: registered("dev"),
        runner_up: false,
        capture_server_up: true,
        downgradeable: None,
    });
    assert!(!with.next.expect("blocked").command.contains("--no-capture"));
}

#[test]
fn a_store_still_in_the_downgrade_window_says_so() {
    let r = assess(&Facts {
        simctl: Some(simctl_ok()),
        registry: registered("dev"),
        runner_up: true,
        capture_server_up: true,
        downgradeable: Some(true),
    });
    let store = r
        .checks
        .iter()
        .find(|c| c.id == "store")
        .expect("a store check");
    assert_eq!(store.status, Status::Satisfied);
    assert!(store.detail.contains("kevy 3"), "got: {}", store.detail);
}

#[test]
fn a_store_past_the_window_says_that_instead() {
    let r = assess(&Facts {
        simctl: Some(simctl_ok()),
        registry: registered("dev"),
        runner_up: true,
        capture_server_up: true,
        downgradeable: Some(false),
    });
    let store = r
        .checks
        .iter()
        .find(|c| c.id == "store")
        .expect("a store check");
    assert_eq!(store.status, Status::Satisfied);
    assert!(
        store.detail.contains("export"),
        "should name the way back: {}",
        store.detail
    );
}

#[test]
fn no_store_is_not_the_same_as_no_way_back() {
    let r = assess(&Facts {
        simctl: Some(simctl_ok()),
        registry: registered("dev"),
        runner_up: true,
        capture_server_up: true,
        downgradeable: None,
    });
    assert!(
        r.checks.iter().all(|c| c.id != "store"),
        "with no store there is nothing to report about one"
    );
}

#[test]
fn the_platform_note_claims_only_what_has_been_measured() {
    assert!(!PLATFORM_NOTE.contains("iOS Simulator only"));
    assert!(PLATFORM_NOTE.contains("Android"));
    assert!(PLATFORM_NOTE.contains("physical iPhones"), "{PLATFORM_NOTE}");
    assert!(
        PLATFORM_NOTE.contains("unlocked"),
        "a locked phone stalls rather than fails; the note must say so: {PLATFORM_NOTE}"
    );
    assert!(PLATFORM_NOTE.contains("registered"), "{PLATFORM_NOTE}");
    assert!(!PLATFORM_NOTE.contains("Physical devices are out of scope"));
    assert!(!PLATFORM_NOTE.contains("Physical devices are supported"));
}

#[test]
fn the_checks_come_in_dependency_order() {
    let r = assess(&Facts {
        simctl: Some(simctl_ok()),
        registry: None,
        runner_up: false,
        capture_server_up: false,
        downgradeable: None,
    });
    let ids: Vec<&str> = r.checks.iter().map(|c| c.id).collect();
    assert_eq!(ids, ["simctl", "runtime", "device", "registry", "runner"]);
    let statuses: Vec<Status> = r.checks.iter().map(|c| c.status).collect();
    assert_eq!(
        statuses,
        [
            Status::Satisfied,
            Status::Satisfied,
            Status::Satisfied,
            Status::Blocked,
            Status::Skipped
        ]
    );
}

#[test]
fn no_runtime_points_at_installing_one() {
    let r = assess(&Facts {
        simctl: Some(SimctlFacts {
            available_runtimes: 0,
            available_devices: 0,
        }),
        registry: None,
        runner_up: false,
        capture_server_up: false,
        downgradeable: None,
    });
    assert!(!r.ready);
    assert_eq!(r.checks[1].id, "runtime");
    assert_eq!(r.checks[1].status, Status::Blocked);
    assert_eq!(r.checks.len(), 5);
    assert!(r.checks[2..].iter().all(|c| c.status == Status::Skipped));
}

use smix_cli::readiness::{doctor_report, registry_facts};

#[test]
fn the_doctor_prints_each_check_marked_and_the_next_step() {
    let r = assess(&Facts {
        simctl: None,
        registry: None,
        runner_up: false,
        capture_server_up: false,
        downgradeable: None,
    });
    let lines = doctor_report(&r);
    assert_eq!(lines[0], "smix doctor");
    assert_eq!(lines[1], "============");
    assert!(lines[2].starts_with("\u{2717} xcrun simctl could not be run"), "{}", lines[2]);
    for l in &lines[3..7] {
        assert!(l.starts_with("\u{2022} not checked"), "{l}");
    }
    assert_eq!(lines[7], PLATFORM_NOTE);
    assert_eq!(lines[8], "");
    assert_eq!(lines[9], "next: xcode-select --install");
    assert!(lines[10].starts_with("      installs the command-line tools"));
    assert_eq!(lines.len(), 11);
}

#[test]
fn a_ready_machine_says_so_last() {
    let r = assess(&Facts {
        simctl: Some(simctl_ok()),
        registry: registered("dev"),
        runner_up: true,
        capture_server_up: true,
        downgradeable: None,
    });
    let lines = doctor_report(&r);
    assert_eq!(lines.last().unwrap(), "\nready — nothing left to set up");
    assert!(lines[2..7].iter().all(|l| l.starts_with('\u{2713}')));
}

#[test]
fn no_alias_means_no_registry() {
    assert!(registry_facts(&[]).is_none());
    let f = registry_facts(&["dev".to_string(), "ci".to_string()]).unwrap();
    assert_eq!(f.aliases, 2);
    assert_eq!(f.first_alias.as_deref(), Some("dev"));
}

fn ids(r: &Readiness) -> Vec<&'static str> {
    r.checks.iter().map(|c| c.id).collect()
}

#[test]
fn a_missing_toolchain_still_shows_the_whole_path() {
    let r = assess(&Facts {
        simctl: None,
        registry: None,
        runner_up: false,
        downgradeable: None,
        capture_server_up: false,
    });
    assert_eq!(ids(&r), vec!["simctl", "runtime", "device", "registry", "runner"]);
    assert_eq!(r.checks[0].status, Status::Blocked);
    assert!(r.checks[1..].iter().all(|c| c.status == Status::Skipped));
}

#[test]
fn a_store_line_does_not_shift_the_skipped_checks() {
    let r = assess(&Facts {
        simctl: None,
        registry: None,
        runner_up: false,
        downgradeable: Some(true),
        capture_server_up: false,
    });
    assert_eq!(ids(&r), vec!["store", "simctl", "runtime", "device", "registry", "runner"]);
    assert_eq!(r.checks[0].status, Status::Satisfied);
    assert_eq!(r.checks[1].status, Status::Blocked);
    assert!(r.checks[2..].iter().all(|c| c.status == Status::Skipped));
}

#[test]
fn a_missing_device_skips_registry_and_runner() {
    let r = assess(&Facts {
        simctl: Some(SimctlFacts { available_runtimes: 2, available_devices: 0 }),
        registry: registered("dev"),
        runner_up: true,
        downgradeable: Some(false),
        capture_server_up: true,
    });
    assert_eq!(ids(&r), vec!["store", "simctl", "runtime", "device", "registry", "runner"]);
    assert_eq!(r.checks[3].status, Status::Blocked);
    assert_eq!(r.checks[4].status, Status::Skipped);
    assert_eq!(r.checks[5].status, Status::Skipped);
}

#[test]
fn simctl_facts_count_only_what_is_marked_available() {
    let f = smix_cli::readiness::simctl_facts(&[true, false, true], &[false, false]);
    assert_eq!(f.available_runtimes, 2);
    assert_eq!(f.available_devices, 0);
    let g = smix_cli::readiness::simctl_facts(&[], &[true, true, true]);
    assert_eq!(g.available_runtimes, 0);
    assert_eq!(g.available_devices, 3);
}
