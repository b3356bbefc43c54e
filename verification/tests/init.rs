use smix_cli::init::{plan_init, Candidate};

fn devices() -> Vec<Candidate> {
    vec![
        Candidate {
            udid: "AAAA-1".into(),
            name: "iPhone 17 Pro".into(),
        },
        Candidate {
            udid: "BBBB-2".into(),
            name: "iPhone Air".into(),
        },
    ]
}

#[test]
fn a_single_available_device_needs_no_choosing() {
    let plan = plan_init(&devices()[..1], "dev", None, &[]).expect("should plan");
    assert_eq!(plan.alias, "dev");
    assert_eq!(plan.udid, "AAAA-1");
}

#[test]
fn several_devices_are_listed_rather_than_guessed() {
    let refusal = plan_init(&devices(), "dev", None, &[]).expect_err("ambiguous");
    assert!(refusal.reason.contains("2"), "{}", refusal.reason);
    assert!(refusal.remedy.contains("--device"), "{}", refusal.remedy);
    assert!(
        refusal.remedy.contains("AAAA-1"),
        "candidates belong in the remedy: {}",
        refusal.remedy
    );
}

#[test]
fn an_existing_alias_is_never_silently_repointed() {
    let refusal =
        plan_init(&devices()[..1], "dev", None, &["dev".to_string()]).expect_err("alias taken");
    assert!(refusal.reason.contains("dev"));
    assert!(refusal.remedy.contains("--alias"));
}

#[test]
fn a_named_device_that_is_not_there_is_named_back() {
    let refusal = plan_init(&devices(), "dev", Some("NOPE-9"), &[]).expect_err("unknown udid");
    assert!(refusal.reason.contains("NOPE-9"), "{}", refusal.reason);
}

#[test]
fn no_devices_at_all_points_at_creating_one() {
    let refusal = plan_init(&[], "dev", None, &[]).expect_err("nothing to register");
    assert!(
        refusal.remedy.contains("simctl create"),
        "{}",
        refusal.remedy
    );
}

#[test]
fn a_named_device_among_several_is_taken_without_asking() {
    let plan = plan_init(&devices(), "ci", Some("BBBB-2"), &["dev".to_string()]).expect("named");
    assert_eq!(plan.alias, "ci");
    assert_eq!(plan.udid, "BBBB-2");
}

#[test]
fn the_list_of_choices_shows_every_device_on_its_own_line() {
    let refusal = plan_init(&devices(), "dev", None, &[]).expect_err("ambiguous");
    assert!(refusal.remedy.contains("  AAAA-1  iPhone 17 Pro"), "{}", refusal.remedy);
    assert!(refusal.remedy.contains("  BBBB-2  iPhone Air"), "{}", refusal.remedy);
}

use smix_cli::init::{init_candidates, next_steps, refusal_text, InitRefusal};

#[test]
fn only_available_simulators_are_candidates() {
    let listed = vec![
        ("AAAA-1".to_string(), "iPhone 17 Pro".to_string(), true),
        ("CCCC-3".to_string(), "Old".to_string(), false),
        ("BBBB-2".to_string(), "iPhone Air".to_string(), true),
    ];
    let c = init_candidates(&listed);
    assert_eq!(c.len(), 2);
    assert_eq!(c[0].udid, "AAAA-1");
    assert_eq!(c[1].name, "iPhone Air");
}

#[test]
fn the_next_step_carries_the_bundle_when_there_is_one() {
    assert_eq!(
        next_steps("dev", Some("com.example.app"))[1],
        "next: smix capsule up dev --bundle com.example.app"
    );
    assert_eq!(
        next_steps("dev", None)[1],
        "next: smix capsule up dev --bundle <your.bundle.id>"
    );
    let r = InitRefusal {
        reason: "why".into(),
        remedy: "how".into(),
    };
    assert_eq!(refusal_text(&r), "why\nhow");
}
