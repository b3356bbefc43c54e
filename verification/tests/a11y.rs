use smix_cli::a11y::{collect_keyed, diff_a11y_trees, suggest_selectors, A11yEntry, Bounds, Suggestion};
use smix_cli::authoring::NodeText;

fn node(id: Option<&str>, text: Option<&str>) -> A11yEntry {
    A11yEntry {
        role: "Button".into(),
        node: NodeText {
            identifier: id.map(String::from),
            text: text.map(String::from),
            value: None,
            title: None,
            label: None,
        },
        bounds: Bounds {
            x: 0,
            y: 0,
            w: 100,
            h: 40,
        },
    }
}

/// A root with no id or text, then its children, in pre-order.
fn tree(children: Vec<A11yEntry>) -> Vec<A11yEntry> {
    let mut t = vec![node(None, None)];
    t.extend(children);
    t
}

#[test]
fn suggest_id_wildcard() {
    let root = tree(vec![
        node(Some("qa-chip-a"), Some("Chip A")),
        node(Some("qa-chip-b"), Some("Chip B")),
        node(Some("other"), Some("Other")),
    ]);
    let out = suggest_selectors(&root, "id: qa-*");
    assert!(out.iter().any(|c| c.spec == "id: qa-chip-a"));
    assert!(out.iter().any(|c| c.spec == "id: qa-chip-b"));
    assert!(!out.iter().any(|c| c.spec == "id: other"));
}

#[test]
fn suggest_text_case_insensitive() {
    let root = tree(vec![node(None, Some("Sign In")), node(None, Some("Log Out"))]);
    let out = suggest_selectors(&root, "sign");
    assert!(out.iter().any(|c| c.spec == "text: \"Sign In\""));
}

#[test]
fn diff_clean_when_identical() {
    let root = tree(vec![node(Some("a"), Some("hi"))]);
    let diff = diff_a11y_trees(&root, &root);
    assert!(diff.is_clean());
}

#[test]
fn diff_reports_missing() {
    let base = tree(vec![node(Some("a"), Some("hi")), node(Some("b"), Some("bye"))]);
    let curr = tree(vec![node(Some("a"), Some("hi"))]);
    let diff = diff_a11y_trees(&base, &curr);
    assert!(!diff.is_clean());
    assert!(diff.missing.iter().any(|k| k.contains("#b")));
}

#[test]
fn diff_reports_drift() {
    let base = tree(vec![node(Some("a"), Some("hi"))]);
    let curr = tree(vec![node(Some("a"), Some("hello"))]);
    let diff = diff_a11y_trees(&base, &curr);
    assert!(!diff.is_clean());
    assert_eq!(diff.drifted.len(), 1);
    assert_eq!(diff.drifted[0].baseline, "hi");
    assert_eq!(diff.drifted[0].current, "hello");
}

#[test]
fn suggestions_carry_their_node_and_come_in_tree_order() {
    let mut labelled = node(Some("qa-x"), None);
    labelled.node.label = Some("Close".into());
    labelled.node.value = Some("v".into());
    let root = tree(vec![labelled, node(Some("qa-y"), Some("Y"))]);
    assert_eq!(
        suggest_selectors(&root, "id: qa-*"),
        vec![
            Suggestion { node: 1, spec: "id: qa-x".into() },
            Suggestion { node: 1, spec: "text: \"v\"".into() },
            Suggestion { node: 1, spec: "label: \"Close\"".into() },
            Suggestion { node: 2, spec: "id: qa-y".into() },
            Suggestion { node: 2, spec: "text: \"Y\"".into() },
        ]
    );
}

#[test]
fn keys_are_sorted_and_a_repeated_key_takes_its_bounds() {
    let mut second = node(Some("a"), Some("two"));
    second.bounds = Bounds { x: -3, y: 7, w: 10, h: 20 };
    let mut labelled = node(None, Some("L"));
    labelled.node.label = Some("lbl".into());
    let t = tree(vec![node(Some("b"), Some("one")), node(Some("a"), Some("one")), second, labelled]);
    assert_eq!(
        collect_keyed(&t),
        vec![
            ("Button".to_string(), String::new()),
            ("Button#a".to_string(), "one".to_string()),
            ("Button#a@bounds(-3,7,10x20)".to_string(), "two".to_string()),
            ("Button#b".to_string(), "one".to_string()),
            ("Button@lbl".to_string(), "L".to_string()),
        ]
    );
}

#[test]
fn the_diff_lists_extra_keys_from_the_current_tree() {
    let base = tree(vec![node(Some("a"), Some("hi"))]);
    let curr = tree(vec![node(Some("c"), None), node(Some("a"), Some("hi"))]);
    let diff = diff_a11y_trees(&base, &curr);
    assert_eq!(diff.extra, vec!["Button#c".to_string()]);
    assert!(diff.missing.is_empty());
}
