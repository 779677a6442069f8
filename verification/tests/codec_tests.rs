use rust_tunnel::dispatch::{empty_success_body, error_body, success_body};
use rust_tunnel::error::TunnelError;
use rust_tunnel::json::{decode_line, encode_value, JsonValue};
use rust_tunnel::protocol::{
    decode_request, decode_response, encode_request, encode_response, RequestContext,
    WorkerError, WorkerRequest, WorkerResponse,
};

fn obj(members: Vec<(&str, JsonValue)>) -> JsonValue {
    JsonValue::Obj(members.into_iter().map(|(k, v)| (k.to_string(), v)).collect())
}

fn s(text: &str) -> JsonValue {
    JsonValue::Str(text.to_string())
}

#[test]
fn test_encode_scalars() {
    assert_eq!(encode_value(&JsonValue::Null), "null");
    assert_eq!(encode_value(&JsonValue::Bool(true)), "true");
    assert_eq!(encode_value(&JsonValue::Bool(false)), "false");
    assert_eq!(encode_value(&JsonValue::Int(0)), "0");
    assert_eq!(encode_value(&JsonValue::Int(-7)), "-7");
    assert_eq!(encode_value(&JsonValue::Int(i64::MAX)), "9223372036854775807");
    assert_eq!(encode_value(&JsonValue::Int(i64::MIN)), "-9223372036854775808");
}

#[test]
fn test_encode_composites() {
    let v = obj(vec![
        ("a", JsonValue::Int(5)),
        ("b", JsonValue::Arr(vec![JsonValue::Int(1), JsonValue::Null, s("x")])),
    ]);
    assert_eq!(encode_value(&v), "{\"a\":5,\"b\":[1,null,\"x\"]}");
    assert_eq!(encode_value(&JsonValue::Arr(vec![])), "[]");
    assert_eq!(encode_value(&JsonValue::Obj(vec![])), "{}");
}

#[test]
fn test_encode_string_escapes() {
    let v = s("a\"b\\c\nd\u{1}e");
    assert_eq!(encode_value(&v), "\"a\\\"b\\\\c\\u000ad\\u0001e\"");
}

#[test]
fn test_decode_scalars() {
    assert_eq!(decode_line("null"), Some(JsonValue::Null));
    assert_eq!(decode_line("true"), Some(JsonValue::Bool(true)));
    assert_eq!(decode_line("false"), Some(JsonValue::Bool(false)));
    assert_eq!(decode_line("42"), Some(JsonValue::Int(42)));
    assert_eq!(decode_line("-42"), Some(JsonValue::Int(-42)));
}

#[test]
fn test_decode_short_escapes() {
    assert_eq!(decode_line("\"a\\n\\t\\\"\\\\b\\/\""), Some(s("a\n\t\"\\b/")));
}

#[test]
fn test_decode_unicode_escape() {
    assert_eq!(decode_line("\"\\u0041\""), Some(s("A")));
    // A surrogate pair for a character beyond the basic plane.
    assert_eq!(decode_line("\"\\ud83d\\ude00\""), Some(s("\u{1F600}")));
    // A lone surrogate is malformed.
    assert_eq!(decode_line("\"\\ud83d\""), None);
}

#[test]
fn test_decode_malformed() {
    assert_eq!(decode_line(""), None);
    assert_eq!(decode_line("nul"), None);
    assert_eq!(decode_line("{\"a\":}"), None);
    assert_eq!(decode_line("[1,]"), None);
    assert_eq!(decode_line("\"unterminated"), None);
    // Trailing garbage after a complete value.
    assert_eq!(decode_line("null x"), None);
    // Fractional numbers are not representable and are malformed.
    assert_eq!(decode_line("1.5"), None);
    // Values outside the signed 64-bit range are malformed.
    assert_eq!(decode_line("9223372036854775808"), None);
    assert_eq!(decode_line("-9223372036854775809"), None);
}

#[test]
fn test_decode_whitespace_between_tokens() {
    assert_eq!(decode_line("  null "), Some(JsonValue::Null));
    assert_eq!(
        decode_line("{ \"a\" : 1 , \"b\" : [ 1 , 2 ] }"),
        Some(obj(vec![
            ("a", JsonValue::Int(1)),
            ("b", JsonValue::Arr(vec![JsonValue::Int(1), JsonValue::Int(2)])),
        ]))
    );
    assert_eq!(decode_line("[ ]"), Some(JsonValue::Arr(vec![])));
    assert_eq!(decode_line("{ }"), Some(JsonValue::Obj(vec![])));
    // Whitespace inside a number still splits it.
    assert_eq!(decode_line("1 2"), None);
}

#[test]
fn test_spaced_request_body() {
    let body = "{\"input\": {\"a\": 5, \"b\": 3}}";
    let req = rust_tunnel::dispatch::parse_task_request(body).unwrap();
    assert_eq!(req.input.get("a"), Some(&JsonValue::Int(5)));
}

#[test]
fn test_decode_leading_zeros_value() {
    assert_eq!(decode_line("0007"), Some(JsonValue::Int(7)));
}

#[test]
fn test_value_round_trip() {
    let cases = vec![
        JsonValue::Null,
        JsonValue::Bool(false),
        JsonValue::Int(-123456789),
        s(""),
        s("héllo wörld \u{1F600} \"quoted\"\n"),
        JsonValue::Arr(vec![]),
        obj(vec![]),
        obj(vec![
            ("nested", JsonValue::Arr(vec![obj(vec![("k", JsonValue::Int(1))]), s("two")])),
            ("null", JsonValue::Null),
        ]),
    ];
    for v in cases {
        let line = encode_value(&v);
        assert_eq!(decode_line(&line), Some(v));
    }
}

#[test]
fn test_request_round_trip() {
    let ctx = RequestContext {
        method: "POST".to_string(),
        path: "/__runner/task/app.tasks.add".to_string(),
        headers: vec![("x-runner-token".to_string(), "secret".to_string())],
        query: vec![],
    };
    let cases = vec![
        WorkerRequest::Shutdown { id: 9 },
        WorkerRequest::Auth { id: 1, context: ctx },
        WorkerRequest::Task {
            id: 2,
            task_id: "app.tasks.add".to_string(),
            input: obj(vec![("a", JsonValue::Int(5)), ("b", JsonValue::Int(3))]),
            context: None,
        },
        WorkerRequest::Event {
            id: 3,
            event_id: "app.events.notify".to_string(),
            payload: s("Hello"),
            context: None,
        },
    ];
    for req in cases {
        let line = encode_request(&req);
        assert_eq!(decode_request(&line), Some(req));
    }
}

#[test]
fn test_request_wire_shape() {
    let req = WorkerRequest::Task {
        id: 2,
        task_id: "app.tasks.add".to_string(),
        input: obj(vec![("a", JsonValue::Int(5))]),
        context: None,
    };
    assert_eq!(
        encode_request(&req),
        "{\"type\":\"task\",\"id\":2,\"taskId\":\"app.tasks.add\",\"input\":{\"a\":5}}"
    );
}

#[test]
fn test_response_round_trip() {
    let cases = vec![
        WorkerResponse { id: 1, ok: true, result: Some(JsonValue::Int(8)), error: None },
        WorkerResponse { id: 2, ok: true, result: None, error: None },
        WorkerResponse {
            id: 3,
            ok: false,
            result: None,
            error: Some(WorkerError {
                message: "boom".to_string(),
                code: 500,
                code_name: "INTERNAL_ERROR".to_string(),
            }),
        },
        WorkerResponse { id: 4, ok: true, result: Some(JsonValue::Arr(vec![])), error: None },
    ];
    for resp in cases {
        let line = encode_response(&resp);
        assert_eq!(decode_response(&line), Some(resp));
    }
}

#[test]
fn test_decode_response_shape() {
    let r = decode_response("{\"id\":5,\"ok\":true,\"result\":42}").unwrap();
    assert_eq!(r.id, 5);
    assert!(r.ok);
    assert_eq!(r.result, Some(JsonValue::Int(42)));
    assert!(r.error.is_none());
    assert_eq!(decode_response("{\"ok\":true}"), None);
    assert_eq!(decode_response("not json"), None);
}

#[test]
fn test_success_response_serialization() {
    let value = obj(vec![("value", JsonValue::Int(123))]);
    let serialized = success_body(&value);
    assert!(serialized.contains("\"ok\":true"));
    assert!(serialized.contains("\"value\":123"));
}

#[test]
fn test_empty_success_body() {
    assert_eq!(empty_success_body(), "{\"ok\":true}");
}

#[test]
fn test_error_body_wire_shape() {
    let body = error_body(&TunnelError::Unauthorized);
    assert_eq!(
        body,
        "{\"ok\":false,\"error\":{\"code\":401,\"codeName\":\"UNAUTHORIZED\",\"message\":\"Invalid or missing token\"}}"
    );
    let body = error_body(&TunnelError::InvalidJson("bad".to_string()));
    assert!(body.contains("\"code\":400"));
    assert!(body.contains("\"codeName\":\"INVALID_JSON\""));
    assert!(body.contains("\"message\":\"bad\""));
}

#[test]
fn test_task_request_deserialization() {
    let body = "{\"input\":{\"a\":5,\"b\":3}}";
    let req = rust_tunnel::dispatch::parse_task_request(body).unwrap();
    assert_eq!(req.input.get("a"), Some(&JsonValue::Int(5)));
    assert_eq!(req.input.get("b"), Some(&JsonValue::Int(3)));
}

#[test]
fn test_event_request_deserialization() {
    let body = "{\"payload\":{\"message\":\"Hello\"}}";
    let req = rust_tunnel::dispatch::parse_event_request(body).unwrap();
    assert_eq!(req.payload.get("message"), Some(&s("Hello")));
}

#[test]
fn test_parse_body_rejections() {
    assert!(matches!(
        rust_tunnel::dispatch::parse_task_request("{}"),
        Err(TunnelError::InvalidJson(_))
    ));
    assert!(matches!(
        rust_tunnel::dispatch::parse_task_request("not json"),
        Err(TunnelError::InvalidJson(_))
    ));
    assert!(matches!(
        rust_tunnel::dispatch::parse_event_request("{\"input\":1}"),
        Err(TunnelError::InvalidJson(_))
    ));
}

#[test]
fn test_json_value_duplicate_and_get() {
    let v = obj(vec![("k", JsonValue::Arr(vec![JsonValue::Int(1), s("x")]))]);
    let d = v.duplicate();
    assert_eq!(d, v);
    assert_eq!(v.get("k"), Some(&JsonValue::Arr(vec![JsonValue::Int(1), s("x")])));
    assert_eq!(v.get("missing"), None);
    assert_eq!(JsonValue::Int(1).get("k"), None);
}
