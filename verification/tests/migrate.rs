use smix_cli::migrate::{
    describe_changes, summary, unknown_selector_keys_warning, unknown_verbs_warning,
};

fn r(from: &str, to: &str) -> (String, String) {
    (from.to_string(), to.to_string())
}

#[test]
fn a_file_without_renames_says_so() {
    assert_eq!(describe_changes(&[], 4), "no changes, 4 step(s)");
}

#[test]
fn renames_are_grouped_by_verb_in_order_of_first_appearance() {
    let renamed = vec![
        r("tapOn", "tap"),
        r("assertVisible", "expect.visible"),
        r("tapOn", "tap"),
        r("tapOn", "tap"),
    ];
    assert_eq!(
        describe_changes(&renamed, 9),
        "4 rename(s) in 9 step(s): tapOn → tap ×3, assertVisible → expect.visible"
    );
}

#[test]
fn one_rename_has_no_count() {
    assert_eq!(
        describe_changes(&[r("back", "pressKey.back")], 1),
        "1 rename(s) in 1 step(s): back → pressKey.back"
    );
}

#[test]
fn the_summary_says_only_what_applies() {
    assert_eq!(summary(1, 2, 0, 0, 1), Vec::<String>::new());
    assert_eq!(
        summary(2, 5, 1, 3, 4),
        vec![
            "smix migrate: 2 of 4 file(s) rewritten, 5 rename(s)".to_string(),
            "smix migrate: 1 verb(s) had no smix equivalent and were left as they were — the flow will not parse until you replace them".to_string(),
            "smix migrate: 3 runFlow reference(s) point at files this run did not open — migrate those too".to_string(),
        ]
    );
}

#[test]
fn warnings_name_the_source_and_list_what_was_found() {
    assert_eq!(unknown_verbs_warning(&[], "a.yaml"), None);
    assert_eq!(
        unknown_verbs_warning(&["swipeLeft".to_string(), "travel".to_string()], "a.yaml"),
        Some("smix migrate: WARN a.yaml: unknown verb(s) preserved verbatim: swipeLeft, travel".to_string())
    );
    assert_eq!(unknown_selector_keys_warning(&[], "-"), None);
    assert_eq!(
        unknown_selector_keys_warning(&["childOf".to_string()], "-"),
        Some("smix migrate: WARN -: selector key(s) v2 does not accept: childOf — flows using them fail to parse; remove them or use a supported selector".to_string())
    );
}
