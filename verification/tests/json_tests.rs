use dino::engine::{marshal_req, unmarshal_res, Req};
use dino::errors::AppError;
use dino::strutil::{from_chars, to_chars};

fn req_with(body: Option<&str>) -> Req {
    Req {
        query: vec![("q".to_string(), "1".to_string())],
        params: vec![("id".to_string(), "42".to_string())],
        headers: vec![("host".to_string(), "localhost".to_string())],
        method: "GET".to_string(),
        url: "/api/hello/42".to_string(),
        body: body.map(|s| s.to_string()),
    }
}

#[test]
fn marshal_writes_the_canonical_object() {
    let text = from_chars(&marshal_req(&req_with(None)));
    assert_eq!(
        text,
        r#"{"query":{"q":"1"},"params":{"id":"42"},"headers":{"host":"localhost"},"method":"GET","url":"/api/hello/42","body":null}"#
    );
}

#[test]
fn marshal_escapes_quotes_backslashes_and_controls() {
    let mut r = req_with(Some("line1\nline2"));
    r.headers = vec![("x".to_string(), "a\"b\\c".to_string())];
    r.query = Vec::new();
    r.params = Vec::new();
    let text = from_chars(&marshal_req(&r));
    assert_eq!(
        text,
        "{\"query\":{},\"params\":{},\"headers\":{\"x\":\"a\\\"b\\\\c\"},\"method\":\"GET\",\"url\":\"/api/hello/42\",\"body\":\"line1\\u000aline2\"}"
    );
}

fn unmarshal(text: &str) -> Result<dino::engine::Res, AppError> {
    unmarshal_res(&to_chars(text))
}

#[test]
fn unmarshal_accepts_any_member_order() {
    let res = unmarshal(r#"{"body":"hi","headers":{"a":"b"},"status":207}"#).unwrap();
    assert_eq!(res.status, 207);
    assert_eq!(res.headers, vec![("a".to_string(), "b".to_string())]);
    assert_eq!(res.body.as_deref(), Some("hi"));
}

#[test]
fn unmarshal_takes_body_null_and_missing_body_as_absent() {
    let res = unmarshal(r#"{"status":200,"headers":{},"body":null}"#).unwrap();
    assert!(res.body.is_none());
    let res = unmarshal(r#"{"status":200,"headers":{}}"#).unwrap();
    assert!(res.body.is_none());
}

#[test]
fn unmarshal_decodes_string_escapes() {
    let res = unmarshal(r#"{"status":200,"headers":{"k":"a\"b\\c\n\tA"},"body":null}"#)
        .unwrap();
    assert_eq!(res.headers[0].1, "a\"b\\c\n\tA");
}

#[test]
fn unmarshal_skips_unknown_members_of_any_kind() {
    let res = unmarshal(
        r#"{"x":[1,2,[3]],"y":{"n":{"m":false}},"z":null,"w":12.5,"status":200,"headers":{},"v":true}"#,
    )
    .unwrap();
    assert_eq!(res.status, 200);
}

#[test]
fn unmarshal_keeps_the_last_occurrence_of_a_member() {
    let res = unmarshal(r#"{"status":200,"status":503,"headers":{},"body":null}"#).unwrap();
    assert_eq!(res.status, 503);
}

#[test]
fn unmarshal_requires_status_and_headers() {
    assert!(matches!(
        unmarshal(r#"{"headers":{},"body":null}"#),
        Err(AppError::WorkerShape(_))
    ));
    assert!(matches!(
        unmarshal(r#"{"status":200,"body":null}"#),
        Err(AppError::WorkerShape(_))
    ));
    assert!(matches!(unmarshal(r#"{}"#), Err(AppError::WorkerShape(_))));
    assert!(matches!(unmarshal("[1,2]"), Err(AppError::WorkerShape(_))));
    assert!(matches!(unmarshal("null"), Err(AppError::WorkerShape(_))));
}

#[test]
fn unmarshal_refuses_statuses_without_a_u16_value() {
    assert!(matches!(
        unmarshal(r#"{"status":65536,"headers":{},"body":null}"#),
        Err(AppError::WorkerShape(_))
    ));
    assert!(matches!(
        unmarshal(r#"{"status":-1,"headers":{},"body":null}"#),
        Err(AppError::WorkerShape(_))
    ));
    assert!(matches!(
        unmarshal(r#"{"status":20.5,"headers":{},"body":null}"#),
        Err(AppError::WorkerShape(_))
    ));
    let ok = unmarshal(r#"{"status":65535,"headers":{},"body":null}"#).unwrap();
    assert_eq!(ok.status, 65535);
    let ok = unmarshal(r#"{"status":0,"headers":{},"body":null}"#).unwrap();
    assert_eq!(ok.status, 0);
}

#[test]
fn unmarshal_refuses_trailing_text() {
    assert!(matches!(
        unmarshal(r#"{"status":200,"headers":{},"body":null}  "#),
        Err(AppError::WorkerShape(_))
    ));
}

#[test]
fn marshalled_request_round_trips_through_text() {
    // The marshal side of the round-trip law, on concrete records: the
    // rendered text carries every field verbatim and parses back through
    // the engine's own echo path (see the engine tests for the JS leg).
    let r1 = req_with(Some("abc"));
    let r2 = req_with(Some("abc"));
    assert_eq!(from_chars(&marshal_req(&r1)), from_chars(&marshal_req(&r2)));
    let r3 = req_with(Some("abd"));
    assert_ne!(from_chars(&marshal_req(&r1)), from_chars(&marshal_req(&r3)));
}

#[test]
fn unmarshal_of_marshal_is_identity() {
    for body in [None, Some("payload"), Some("with \"quotes\" and \\ and \n")] {
        let r = req_with(body);
        let text = marshal_req(&r);
        let back = dino::codec::unmarshal_req(&text).unwrap();
        assert_eq!(back.query, r.query);
        assert_eq!(back.params, r.params);
        assert_eq!(back.headers, r.headers);
        assert_eq!(back.method, r.method);
        assert_eq!(back.url, r.url);
        assert_eq!(back.body, r.body);
    }
}

#[test]
fn unmarshal_req_refuses_non_canonical_text() {
    let text = dino::strutil::to_chars(r#"{"status":200}"#);
    assert!(matches!(
        dino::codec::unmarshal_req(&text),
        Err(AppError::WorkerShape(_))
    ));
}
