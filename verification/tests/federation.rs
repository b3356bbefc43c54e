use smix_cli::federation::{federation_passthrough, node_result, report_of_members, RemoteOutput};
use smix_cli::parallel::{RunFlags, RunPlatform};
use smix_cli::federation::{
    artifact_pull_argv, assign_flows, expand_slots, is_transport_failure, merge_reports,
    parse_report_lines, readiness_argv, remote_argv, shell_quote, validate_nodes, FlowReport,
    MergedNode, NodeResult, NodeSpec, NodesError, ReportError, SlotAssignment, FED_ARTIFACT_DIR,
    SSH_TRANSPORT_EXIT,
};
use smix_cli::parallel::{aggregate_exit, shard_flows};

fn roster(specs: &[(&str, &[&str])]) -> Vec<NodeSpec> {
    specs
        .iter()
        .map(|(name, devices)| NodeSpec {
            name: (*name).to_string(),
            host: (*name).to_string(),
            repo: format!("/repo/{name}"),
            devices: devices.iter().map(|d| (*d).to_string()).collect(),
        })
        .collect()
}

fn mini() -> NodeSpec {
    NodeSpec {
        name: "mini".to_string(),
        host: "mini".to_string(),
        repo: "/Users/doracawl/workspace/goliajp/smix".to_string(),
        devices: vec!["sim-smix-001".to_string()],
    }
}

#[test]
fn slots_flatten_nodes_in_listing_order() {
    let nodes = roster(&[("a", &["a1", "a2"]), ("b", &["b1"])]);
    assert_eq!(
        expand_slots(&nodes),
        vec![
            (0, "a1".to_string()),
            (0, "a2".to_string()),
            (1, "b1".to_string())
        ]
    );
}

#[test]
fn flows_round_robin_over_all_slots_across_nodes() {
    let nodes = roster(&[("a", &["a1", "a2"]), ("b", &["b1"])]);
    let slots = expand_slots(&nodes);
    let assignments = assign_flows(5, &slots);
    assert_eq!(
        assignments,
        vec![
            SlotAssignment {
                node: 0,
                device_ref: "a1".to_string(),
                flows: vec![0, 3]
            },
            SlotAssignment {
                node: 0,
                device_ref: "a2".to_string(),
                flows: vec![1, 4]
            },
            SlotAssignment {
                node: 1,
                device_ref: "b1".to_string(),
                flows: vec![2]
            },
        ]
    );
    let buckets: Vec<Vec<usize>> = assignments.into_iter().map(|a| a.flows).collect();
    assert_eq!(buckets, shard_flows(5, 3));
}

#[test]
fn single_node_single_device_degenerates_to_the_sequential_order() {
    let nodes = roster(&[("a", &["a1"])]);
    let assignments = assign_flows(3, &expand_slots(&nodes));
    assert_eq!(
        assignments,
        vec![SlotAssignment {
            node: 0,
            device_ref: "a1".to_string(),
            flows: vec![0, 1, 2]
        }]
    );
}

#[test]
fn remote_argv_wraps_child_argv_in_ssh_with_explicit_json_format() {
    let node = mini();
    let argv = remote_argv(
        &node,
        &["a.yaml".to_string()],
        "sim-smix-001",
        &["--no-launch".to_string()],
    );
    assert_eq!(
        argv,
        vec![
            "-o".to_string(),
            "BatchMode=yes".to_string(),
            "mini".to_string(),
            "cd '/Users/doracawl/workspace/goliajp/smix' && target/release/smix \
             run 'a.yaml' --device 'sim-smix-001' --no-launch --format json"
                .to_string(),
        ]
    );
    let remote = &argv[3];
    assert!(remote.contains("--format json"));
    assert!(!remote.contains("--parallel"));
    assert!(!remote.contains("--also-device"));
}

#[test]
fn shell_quoting_survives_spaces_and_single_quotes() {
    assert_eq!(shell_quote("flows/a b.yaml"), "'flows/a b.yaml'");
    assert_eq!(shell_quote("it's"), "'it'\\''s'");
    assert_eq!(shell_quote(""), "''");
    assert_eq!(shell_quote("a.yaml"), "'a.yaml'");
}

#[test]
fn transport_failure_255_wins_the_aggregate() {
    assert!(is_transport_failure(SSH_TRANSPORT_EXIT));
    for smix_code in [0u8, 1, 2, 3, 4, 5, 6, 130, 143] {
        assert!(!is_transport_failure(smix_code));
    }
    assert_eq!(aggregate_exit(&[0, 255, 2]), 255);
}

#[test]
fn readiness_argv_pins_the_gate_command() {
    let node = mini();
    assert_eq!(
        readiness_argv(&node),
        vec![
            "-o".to_string(),
            "BatchMode=yes".to_string(),
            "mini".to_string(),
            "cd '/Users/doracawl/workspace/goliajp/smix' && \
             test -f target/.smix-fed-stamp && \
             test -x target/release/smix && \
             [ -z \"$(find crates -name '*.rs' -newer target/.smix-fed-stamp)\" ]"
                .to_string(),
        ]
    );
}

#[test]
fn artifact_pull_argv_pins_the_rsync_command() {
    let node = mini();
    assert_eq!(
        artifact_pull_argv(&node, FED_ARTIFACT_DIR, "/tmp/pull"),
        vec![
            "-a".to_string(),
            "mini:'/Users/doracawl/workspace/goliajp/smix/.smix/fed-c4-artifacts/'".to_string(),
            "/tmp/pull/mini/".to_string(),
        ]
    );
}

#[test]
fn parses_one_report_line_per_flow() {
    let stdout = String::from("{\"flow\":\"scripts/release/stress-corpus/launch-and-capture.yaml\",\"runOutcome\":\"success\",\"warnings\":[],\"steps\":[]}\n{\"flow\":\"scripts/release/stress-corpus/screenshot-twice.yaml\",\"runOutcome\":\"failure\",\"failure\":{\"code\":\"NotVisible\",\"message\":\"no match\",\"selector\":null,\"suggestions\":[],\"visibleCount\":3}}\n");
    let reports = parse_report_lines(&stdout).unwrap();
    assert_eq!(reports.len(), 2);
    assert_eq!(
        reports[0].flow,
        "scripts/release/stress-corpus/launch-and-capture.yaml"
    );
    assert_eq!(reports[0].outcome, "success");
    assert_eq!(
        reports[1].flow,
        "scripts/release/stress-corpus/screenshot-twice.yaml"
    );
    assert_eq!(reports[1].outcome, "failure");
    let raw: serde_json::Value = serde_json::from_str(&reports[1].raw).unwrap();
    assert_eq!(raw["failure"]["code"], "NotVisible");
}

#[test]
fn rejects_a_non_json_stdout_line() {
    let stdout = String::from("{\"flow\":\"a.yaml\",\"runOutcome\":\"success\",\"warnings\":[],\"steps\":[]}\n\nkevy: AOF 3 entries replayed\n");
    let err = parse_report_lines(&stdout).unwrap_err();
    assert!(
        matches!(&err, ReportError::NotJson { line } if line == "kevy: AOF 3 entries replayed")
    );
}

#[test]
fn a_report_line_without_an_outcome_names_the_field() {
    let err = parse_report_lines("{\"flow\":\"a.yaml\"}\n").unwrap_err();
    assert_eq!(
        err,
        ReportError::MissingField {
            field: "runOutcome",
            line: "{\"flow\":\"a.yaml\"}".to_string()
        }
    );
    let err = parse_report_lines("[1,2]").unwrap_err();
    assert!(matches!(err, ReportError::MissingField { field: "flow", .. }));
}

#[test]
fn crlf_and_blank_lines_are_not_violations() {
    let stdout = "\r\n  \n{\"flow\":\"a.yaml\",\"runOutcome\":\"success\"}\r\n";
    let reports = parse_report_lines(stdout).unwrap();
    assert_eq!(
        reports,
        vec![FlowReport {
            flow: "a.yaml".to_string(),
            outcome: "success".to_string(),
            raw: "{\"flow\":\"a.yaml\",\"runOutcome\":\"success\"}".to_string(),
        }]
    );
}

fn one_report(line: &str) -> Vec<FlowReport> {
    parse_report_lines(line).unwrap()
}

#[test]
fn transport_255_node_merges_empty_and_wins_the_aggregate() {
    let leaf = r#"{"flow":"a.yaml","runOutcome":"success","warnings":[],"steps":[]}"#;
    let results = vec![
        NodeResult {
            name: "a".to_string(),
            exit: 0,
            reports: one_report(leaf),
        },
        NodeResult {
            name: "b".to_string(),
            exit: SSH_TRANSPORT_EXIT,
            reports: vec![],
        },
    ];
    let merged = merge_reports(&results);
    assert_eq!(merged.nodes.len(), 2);
    assert_eq!(merged.nodes[1].node, "b");
    assert_eq!(merged.nodes[1].flows, Vec::<String>::new());
    assert_eq!(merged.aggregate_exit, 255);
    assert!(is_transport_failure(merged.aggregate_exit));
}

#[test]
fn a_node_with_all_failed_flows_keeps_failure_leaves_verbatim() {
    let stdout = String::from("{\"flow\":\"a.yaml\",\"runOutcome\":\"failure\",\"failure\":{\"code\":\"NotVisible\",\"message\":\"no match\",\"selector\":null,\"suggestions\":[],\"visibleCount\":3}}\n{\"flow\":\"b.yaml\",\"runOutcome\":\"failure\",\"failure\":{\"code\":\"Timeout\",\"message\":\"gave up\",\"selector\":null,\"suggestions\":[],\"visibleCount\":0}}\n");
    let results = vec![NodeResult {
        name: "mini".to_string(),
        exit: 3,
        reports: parse_report_lines(&stdout).unwrap(),
    }];
    let merged = merge_reports(&results);
    assert_eq!(merged.nodes[0].flows.len(), 2);
    let first: serde_json::Value = serde_json::from_str(&merged.nodes[0].flows[0]).unwrap();
    let second: serde_json::Value = serde_json::from_str(&merged.nodes[0].flows[1]).unwrap();
    assert_eq!(first["failure"]["code"], "NotVisible");
    assert_eq!(second["failure"]["code"], "Timeout");
    assert_eq!(merged.aggregate_exit, 3);
}

#[test]
fn empty_inputs_merge_to_exit_zero() {
    let merged = merge_reports(&[]);
    assert_eq!(merged.nodes, Vec::<MergedNode>::new());
    assert_eq!(merged.aggregate_exit, 0);
    let merged = merge_reports(&[NodeResult {
        name: "idle".to_string(),
        exit: 0,
        reports: vec![],
    }]);
    assert_eq!(merged.nodes.len(), 1);
    assert_eq!(merged.nodes[0].flows, Vec::<String>::new());
    assert_eq!(merged.aggregate_exit, 0);
}

#[test]
fn rejects_a_node_without_devices() {
    let mut nodes = roster(&[("mini", &[])]);
    nodes[0].repo = "/Users/doracawl/workspace/goliajp/smix".to_string();
    let err = validate_nodes(nodes).unwrap_err();
    assert!(matches!(&err, NodesError::EmptyDevices { node } if node == "mini"));
}

#[test]
fn rejects_duplicate_node_names() {
    let nodes = vec![
        NodeSpec {
            name: "mini".to_string(),
            host: "mini-a".to_string(),
            repo: "/a".to_string(),
            devices: vec!["sim-1".to_string()],
        },
        NodeSpec {
            name: "mini".to_string(),
            host: "mini-b".to_string(),
            repo: "/b".to_string(),
            devices: vec!["sim-2".to_string()],
        },
    ];
    let err = validate_nodes(nodes).unwrap_err();
    assert!(matches!(&err, NodesError::DuplicateName { name } if name == "mini"));
}

#[test]
fn an_empty_roster_is_refused_and_a_good_one_kept() {
    assert_eq!(validate_nodes(vec![]).unwrap_err(), NodesError::Empty);
    let nodes = roster(&[("a", &["a1"]), ("b", &["b1", "b2"])]);
    assert_eq!(validate_nodes(nodes.clone()).unwrap(), nodes);
}

#[test]
fn federation_flags_are_quoted_and_artifacts_stay_on_the_node() {
    let f = RunFlags {
        bundle_id: Some("com.x".into()),
        no_launch: false,
        animations: false,
        activate: false,
        verbose: false,
        fail_fast: false,
        retry: 1,
        platform: RunPlatform::Ios,
        apps_config: None,
        env: vec![("GREETING".into(), "it's me".into())],
    };
    assert_eq!(
        federation_passthrough(&f, true),
        vec![
            "'--bundle-id'".to_string(),
            "'com.x'".to_string(),
            "'--platform'".to_string(),
            "'ios'".to_string(),
            "'--debug-output'".to_string(),
            format!("'{FED_ARTIFACT_DIR}'"),
            "'--env'".to_string(),
            "'GREETING=it'\\''s me'".to_string(),
        ]
    );
    assert_eq!(federation_passthrough(&f, false).len(), 6);
}

fn remote(exit: u8, stdout: &str) -> RemoteOutput {
    RemoteOutput { exit, stdout: stdout.to_string(), stderr: String::new() }
}

#[test]
fn a_slot_result_carries_its_exit_and_parsed_reports() {
    let line = r#"{"flow":"a.yaml","runOutcome":"failure"}"#;
    let out = remote(2, &format!("{line}\n\n"));
    let r = node_result("mini", &out).unwrap();
    assert_eq!(r.name, "mini");
    assert_eq!(r.exit, 2);
    assert_eq!(r.reports.len(), 1);
    assert_eq!(r.reports[0].flow, "a.yaml");
    assert_eq!(r.reports[0].outcome, "failure");
    assert_eq!(r.reports[0].raw, line);
}

#[test]
fn a_transport_lost_slot_carries_no_reports() {
    let out = remote(SSH_TRANSPORT_EXIT, "ssh: connect to host mini: Connection refused");
    let r = node_result("mini", &out).unwrap();
    assert_eq!(r.exit, 255);
    assert!(r.reports.is_empty());
}

#[test]
fn a_slot_with_a_non_json_stdout_is_refused() {
    let out = remote(0, "not json at all");
    match node_result("mini", &out) {
        Err(ReportError::NotJson { line }) => assert_eq!(line, "not json at all"),
        other => panic!("unexpected: {other:?}"),
    }
}

#[test]
fn a_line_report_is_built_from_its_two_members() {
    let line = r#"{"flow":"a.yaml","runOutcome":"success"}"#;
    let r = report_of_members(line, Some(Some("a.yaml".to_string())), Some(Some("success".to_string())))
        .unwrap()
        .unwrap();
    assert_eq!((r.flow.as_str(), r.outcome.as_str(), r.raw.as_str()), ("a.yaml", "success", line));
    assert_eq!(report_of_members("   ", None, None).unwrap(), None);
    assert_eq!(
        report_of_members("noise", None, None).unwrap_err(),
        ReportError::NotJson { line: "noise".to_string() }
    );
    assert_eq!(
        report_of_members("{}", Some(None), Some(None)).unwrap_err(),
        ReportError::MissingField { field: "flow", line: "{}".to_string() }
    );
    assert_eq!(
        report_of_members("{\"flow\":\"a\"}", Some(Some("a".to_string())), Some(None)).unwrap_err(),
        ReportError::MissingField { field: "runOutcome", line: "{\"flow\":\"a\"}".to_string() }
    );
}

#[test]
fn noise_after_a_blank_line_refuses_the_whole_stdout() {
    let stdout = "{\"flow\":\"a.yaml\",\"runOutcome\":\"success\"}\n\nkevy: AOF 3 entries replayed\n";
    assert_eq!(
        parse_report_lines(stdout).unwrap_err(),
        ReportError::NotJson { line: "kevy: AOF 3 entries replayed".to_string() }
    );
}
