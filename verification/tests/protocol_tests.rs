use device_connect_edge::json::{JsonNumber, JsonValue};
use device_connect_edge::protocol::subjects;
use device_connect_edge::protocol::{
    build_registration_request, default_on_late, event_payload_with_defaults,
    registration_request_with_nonce, with_event_defaults, EventNotification, JsonRpcRequest,
    JsonRpcResponse, ERR_METHOD_NOT_FOUND, JSONRPC_VERSION,
};

fn member<'a>(v: &'a JsonValue, key: &str) -> Option<&'a JsonValue> {
    match v {
        JsonValue::Object(es) => es.iter().find(|(k, _)| k == key).map(|(_, x)| x),
        _ => None,
    }
}

fn text(s: &str) -> JsonValue {
    JsonValue::String(s.to_string())
}

fn float(x: f64) -> JsonValue {
    JsonValue::Number(JsonNumber::FloatBits(x.to_bits()))
}

#[test]
fn subjects_match_python_conventions() {
    assert_eq!(subjects::command("default", "sensor-001"), "device-connect.default.sensor-001.cmd");
    assert_eq!(
        subjects::event("default", "sensor-001", "reading"),
        "device-connect.default.sensor-001.event.reading"
    );
    assert_eq!(subjects::presence_wildcard("alpha"), "device-connect.alpha.*.presence");
}

#[test]
fn every_subject_builder_has_python_shape() {
    assert_eq!(subjects::registry("t"), "device-connect.t.registry");
    assert_eq!(subjects::heartbeat("t", "d"), "device-connect.t.d.heartbeat");
    assert_eq!(subjects::presence("t", "d"), "device-connect.t.d.presence");
    assert_eq!(subjects::broadcast("t"), "device-connect.t.broadcast");
    assert_eq!(subjects::async_reply("t", "d", "c1"), "device-connect.t.d.event.async_reply.c1");
    assert_eq!(subjects::async_reply("t", "d", "c1"), subjects::event("t", "d", "async_reply.c1"));
    assert_eq!(subjects::discovery_probe("t"), "device-connect.t.discovery.probe");
}

#[test]
fn json_rpc_shapes_match_python() {
    let ok = JsonRpcResponse::success("7", JsonValue::Object(vec![("temperature".to_string(), float(22.5))]));
    let expected = JsonValue::Object(vec![
        ("jsonrpc".to_string(), text("2.0")),
        ("id".to_string(), text("7")),
        ("result".to_string(), JsonValue::Object(vec![("temperature".to_string(), float(22.5))])),
    ]);
    assert_eq!(ok.to_json(), expected);
    let err = JsonRpcResponse::error(Some("7".to_string()), ERR_METHOD_NOT_FOUND, "Unknown method: nope");
    let value = err.to_json();
    let code = member(member(&value, "error").unwrap(), "code").unwrap();
    assert_eq!(code, &JsonValue::Number(JsonNumber::NegInt(ERR_METHOD_NOT_FOUND)));
}

#[test]
fn error_response_without_id_serializes_null() {
    let err = JsonRpcResponse::error(None, -32700, "bad");
    let value = err.to_json();
    assert_eq!(member(&value, "id"), Some(&JsonValue::Null));
    assert_eq!(member(&value, "jsonrpc"), Some(&text(JSONRPC_VERSION)));
    let body = member(&value, "error").unwrap();
    assert_eq!(member(body, "message"), Some(&text("bad")));
    let pos = JsonRpcResponse::error(None, 5, "x").to_json();
    assert_eq!(
        member(member(&pos, "error").unwrap(), "code"),
        Some(&JsonValue::Number(JsonNumber::PosInt(5)))
    );
}

#[test]
fn event_payload_gets_python_defaults() {
    let payload = event_payload_with_defaults(JsonValue::Object(vec![(
        "value".to_string(),
        JsonValue::Number(JsonNumber::PosInt(1)),
    )]));
    assert!(member(&payload, "event_id").is_some());
    assert!(member(&payload, "ts").is_some());
    assert_eq!(member(&payload, "value"), Some(&JsonValue::Number(JsonNumber::PosInt(1))));
}

#[test]
fn event_defaults_keep_existing_members() {
    let payload = JsonValue::Object(vec![
        ("event_id".to_string(), text("mine")),
        ("x".to_string(), JsonValue::Bool(true)),
    ]);
    let out = with_event_defaults(payload, "abcd1234".to_string(), "T".to_string());
    assert_eq!(
        out,
        JsonValue::Object(vec![
            ("event_id".to_string(), text("mine")),
            ("ts".to_string(), text("T")),
            ("x".to_string(), JsonValue::Bool(true)),
        ])
    );
    let sorted = with_event_defaults(
        JsonValue::Object(vec![("a".to_string(), JsonValue::Null), ("value".to_string(), JsonValue::Null)]),
        "abcd1234".to_string(),
        "T".to_string(),
    );
    assert_eq!(
        sorted,
        JsonValue::Object(vec![
            ("a".to_string(), JsonValue::Null),
            ("event_id".to_string(), text("abcd1234")),
            ("ts".to_string(), text("T")),
            ("value".to_string(), JsonValue::Null),
        ])
    );
}

#[test]
fn event_defaults_wrap_non_objects() {
    let out = with_event_defaults(JsonValue::Number(JsonNumber::PosInt(3)), "abcd1234".to_string(), "T".to_string());
    assert_eq!(
        out,
        JsonValue::Object(vec![
            ("event_id".to_string(), text("abcd1234")),
            ("ts".to_string(), text("T")),
            ("value".to_string(), JsonValue::Number(JsonNumber::PosInt(3))),
        ])
    );
    let generated = event_payload_with_defaults(JsonValue::Null);
    match member(&generated, "event_id") {
        Some(JsonValue::String(id)) => {
            assert_eq!(id.len(), 8);
            assert!(id.chars().all(|c| c.is_ascii_hexdigit() && !c.is_ascii_uppercase()));
        },
        other => panic!("unexpected {:?}", other),
    }
    assert_eq!(member(&generated, "value"), Some(&JsonValue::Null));
}

#[test]
fn requests_carry_fresh_ids() {
    let a = JsonRpcRequest::new("ping", JsonValue::Null);
    let b = JsonRpcRequest::new("ping", JsonValue::Null);
    assert!(a.id.starts_with("rs-") && a.id.len() == 35);
    assert_ne!(a.id, b.id);
    assert_eq!(a.jsonrpc, "2.0");
    let v = JsonRpcRequest::with_nonce("m", JsonValue::Null, "n1").to_json();
    assert_eq!(
        v,
        JsonValue::Object(vec![
            ("jsonrpc".to_string(), text("2.0")),
            ("id".to_string(), text("rs-n1")),
            ("method".to_string(), text("m")),
            ("params".to_string(), JsonValue::Null),
        ])
    );
}

#[test]
fn registration_request_shape() {
    let r = registration_request_with_nonce("dev-1", None, "n");
    assert_eq!(r.id, "reg-dev-1-n");
    assert_eq!(r.method, "registerDevice");
    assert_eq!(r.params, JsonValue::Object(vec![]));
    let fresh = build_registration_request("dev-1", Some(JsonValue::Bool(true)));
    assert!(fresh.id.starts_with("reg-dev-1-") && fresh.id.len() == "reg-dev-1-".len() + 32);
    assert_eq!(fresh.params, JsonValue::Bool(true));
}

#[test]
fn notification_shape() {
    let n = EventNotification::new("reading", JsonValue::Null).to_json();
    assert_eq!(
        n,
        JsonValue::Object(vec![
            ("jsonrpc".to_string(), text("2.0")),
            ("method".to_string(), text("reading")),
            ("params".to_string(), JsonValue::Null),
        ])
    );
    assert_eq!(default_on_late(), "skip");
}
