use smix_cli::health::{
    find_body_start, health_reply_ok, runner_version_of, schemas_from, version_from,
    wire_schemas_of,
};

const HEADERS: &str = "HTTP/1.1 200 OK\r\nContent-Type: application/json\r\n\r\n";

fn reply(body: &str) -> Vec<u8> {
    format!("{HEADERS}{body}").into_bytes()
}

#[test]
fn a_200_reply_is_up_and_anything_else_is_not() {
    assert!(health_reply_ok(&reply("{\"ok\":true}")));
    assert!(!health_reply_ok(b"HTTP/1.1 503 Service Unavailable\r\n\r\n"));
    assert!(!health_reply_ok(&[0xff, b' ', b'2', b'0', b'0']));
    assert!(!health_reply_ok(b""));
}

#[test]
fn the_body_starts_after_the_first_blank_line() {
    assert_eq!(find_body_start(b"ab\r\n\r\ncd"), Some(6));
    assert_eq!(find_body_start(b"\r\n\r\n"), Some(4));
    assert_eq!(find_body_start(b"ab\r\ncd"), None);
    assert_eq!(find_body_start(b""), None);
}

#[test]
fn the_extended_body_reports_its_version() {
    assert_eq!(
        runner_version_of(&reply("{\"ok\":true,\"runnerVersion\":\"0.1.0\"}")),
        Some("0.1.0".to_string())
    );
}

#[test]
fn an_older_runner_does_not_say() {
    assert_eq!(runner_version_of(&reply("{\"ok\":true}")), None);
    assert_eq!(runner_version_of(&reply("{\"runnerVersion\":\"\"}")), None);
    assert_eq!(runner_version_of(&reply("{\"runnerVersion\":7}")), None);
    assert_eq!(runner_version_of(&reply("not json")), None);
    assert_eq!(
        runner_version_of(b"HTTP/1.1 500 Oops\r\n\r\n{\"runnerVersion\":\"0.1.0\"}"),
        None
    );
}

#[test]
fn the_wire_schemas_are_the_u32s_it_lists() {
    assert_eq!(
        wire_schemas_of(&reply("{\"wireSchema\":{\"supports\":[1,2,\"x\",4294967296,3]}}")),
        vec![1, 2, 3]
    );
    assert_eq!(wire_schemas_of(&reply("{\"ok\":true}")), Vec::<u32>::new());
    assert_eq!(wire_schemas_of(&reply("[")), Vec::<u32>::new());
}

#[test]
fn a_member_read_is_turned_into_the_answer() {
    assert_eq!(version_from(Some(Some("2".into()))), Some("2".into()));
    assert_eq!(version_from(Some(Some(String::new()))), None);
    assert_eq!(version_from(Some(None)), None);
    assert_eq!(version_from(None), None);
    assert_eq!(
        schemas_from(Some(Some(vec![Some(5), None, Some(u64::MAX), Some(6)]))),
        vec![5, 6]
    );
    assert_eq!(schemas_from(Some(None)), Vec::<u32>::new());
}
