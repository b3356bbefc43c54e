use smix_cli::parallel::{aggregate_exit, child_argv, effective_sim_count, exit_byte, shard_flows};

#[test]
fn one_sim_keeps_the_sequential_order() {
    assert_eq!(shard_flows(3, 1), vec![vec![0, 1, 2]]);
}

#[test]
fn two_sims_round_robin() {
    assert_eq!(shard_flows(3, 2), vec![vec![0, 2], vec![1]]);
}

#[test]
fn more_sims_than_flows_leaves_idle_sims_with_empty_buckets() {
    assert_eq!(shard_flows(2, 3), vec![vec![0], vec![1], vec![]]);
}

#[test]
fn every_flow_is_assigned_exactly_once() {
    let buckets = shard_flows(7, 3);
    let mut all: Vec<usize> = buckets.into_iter().flatten().collect();
    all.sort_unstable();
    assert_eq!(all, (0..7).collect::<Vec<_>>());
}

#[test]
fn no_sims_assigns_nothing_rather_than_panicking() {
    assert_eq!(shard_flows(5, 0), Vec::<Vec<usize>>::new());
}

#[test]
fn parallelism_is_capped_by_available_sims() {
    assert_eq!(effective_sim_count(3, 2), 2);
    assert_eq!(effective_sim_count(1, 4), 1);
    assert_eq!(effective_sim_count(4, 4), 4);
    assert_eq!(effective_sim_count(2, 0), 1);
}

#[test]
fn a_failed_shard_fails_the_whole_run() {
    assert_eq!(aggregate_exit(&[0, 0, 0]), 0);
    assert_eq!(aggregate_exit(&[0, 2, 0]), 2);
    assert_eq!(aggregate_exit(&[]), 0);
}

#[test]
fn child_argv_pins_the_sim_and_forwards_passthrough() {
    let argv = child_argv(
        &["a.yaml".into(), "b.yaml".into()],
        "UDID-1",
        &["--bundle-id".into(), "com.x".into(), "--no-launch".into()],
    );
    assert_eq!(
        argv,
        vec![
            "run",
            "a.yaml",
            "b.yaml",
            "--device",
            "UDID-1",
            "--bundle-id",
            "com.x",
            "--no-launch"
        ]
    );
    assert!(
        !argv
            .iter()
            .any(|a| a == "--parallel" || a == "--also-device")
    );
}

#[test]
fn zero_parallel_still_uses_one_sim() {
    assert_eq!(effective_sim_count(0, 3), 1);
    assert_eq!(effective_sim_count(0, 0), 1);
}

#[test]
fn flow_i_lands_on_sim_i_mod_n_at_position_i_div_n() {
    let buckets = shard_flows(11, 4);
    for f in 0..11 {
        assert_eq!(buckets[f % 4][f / 4], f);
    }
    assert_eq!(buckets.iter().map(Vec::len).sum::<usize>(), 11);
}

#[test]
fn a_shard_exit_code_is_held_to_one_byte() {
    assert_eq!(exit_byte(None), 1);
    assert_eq!(exit_byte(Some(0)), 0);
    assert_eq!(exit_byte(Some(3)), 3);
    assert_eq!(exit_byte(Some(-9)), 0);
    assert_eq!(exit_byte(Some(300)), 255);
}

#[test]
fn the_aggregate_is_the_largest_code() {
    assert_eq!(aggregate_exit(&[3, 130, 1]), 130);
    assert_eq!(aggregate_exit(&[255]), 255);
}

use smix_cli::parallel::{run_passthrough, shard_assignments, RunFlags, RunPlatform};

fn flags() -> RunFlags {
    RunFlags {
        bundle_id: None,
        no_launch: false,
        animations: false,
        activate: false,
        verbose: false,
        fail_fast: false,
        retry: 1,
        platform: RunPlatform::Ios,
        apps_config: None,
        env: Vec::new(),
    }
}

#[test]
fn a_plain_run_hands_on_only_its_platform() {
    assert_eq!(run_passthrough(&flags(), None), vec!["--platform", "ios"]);
}

#[test]
fn every_switch_is_handed_on_in_order() {
    let f = RunFlags {
        bundle_id: Some("com.example.app".into()),
        no_launch: true,
        animations: true,
        activate: true,
        verbose: true,
        fail_fast: true,
        retry: 3,
        platform: RunPlatform::Android,
        apps_config: Some("apps.yaml".into()),
        env: vec![("A".into(), "1".into()), ("B".into(), "x=y".into())],
    };
    assert_eq!(
        run_passthrough(&f, Some("/tmp/out")),
        vec![
            "--bundle-id", "com.example.app", "--no-launch", "--animations", "--activate",
            "--verbose", "--fail-fast", "--retry", "3", "--platform", "android",
            "--apps-config", "apps.yaml", "--debug-output", "/tmp/out", "--env", "A=1",
            "--env", "B=x=y",
        ]
    );
}

#[test]
fn shards_pair_devices_with_their_round_robin_flows() {
    let devices = vec!["S1".to_string(), "S2".to_string(), "S3".to_string()];
    let flows: Vec<String> = ["a", "b", "c"].iter().map(|s| s.to_string()).collect();
    assert_eq!(
        shard_assignments(&devices, &flows, 2),
        vec![
            ("S1".to_string(), vec!["a".to_string(), "c".to_string()]),
            ("S2".to_string(), vec!["b".to_string()]),
        ]
    );
    assert_eq!(shard_assignments(&devices, &flows, 0), Vec::new());
}

#[test]
fn each_bucket_is_the_flows_of_one_residue_class() {
    let n = 3;
    let buckets = shard_flows(10, n);
    for (d, bucket) in buckets.iter().enumerate() {
        let expected: Vec<usize> = (0..10).filter(|i| i % n == d).collect();
        assert_eq!(*bucket, expected);
    }
    let sizes: Vec<usize> = buckets.iter().map(Vec::len).collect();
    assert!(sizes.iter().max().unwrap() - sizes.iter().min().unwrap() <= 1);
}
