use device_connect_edge::discovery::PRESENCE_INTERVAL_SECS;
use device_connect_edge::runtime::{default_tenant, DEFAULT_TTL_SECS, REGISTRY_TIMEOUT_SECS};
use device_connect_edge::driver::{default_identity, registration_identity, DeviceDefinition};
use device_connect_edge::errors::DeviceConnectError;
use device_connect_edge::json::{JsonNumber, JsonValue};
use device_connect_edge::protocol::subjects;
use device_connect_edge::protocol::{JsonRpcRequest, JsonRpcResponse, ERR_DRIVER, ERR_METHOD_NOT_FOUND, ERR_PARSE};
use device_connect_edge::runtime::{
    broadcast_outcome, default_device_id, default_heartbeat_secs, handle_command,
    invocation_response, parse_error_response, plan_broadcast, prepare_event, prepare_remote_call,
    registration_response, remote_call_with_nonce, resolve_device_id, BroadcastPlan, CommandStep,
    FireTiming,
};
use device_connect_edge::types::{DeviceIdentity, EventDef, FunctionDef};

fn text(s: &str) -> JsonValue {
    JsonValue::String(s.to_string())
}

fn sensor_functions() -> Vec<FunctionDef> {
    DeviceDefinition::builder("sensor").function(FunctionDef::new("get_reading")).build().capabilities.functions
}

fn request(method: &str) -> JsonRpcRequest {
    JsonRpcRequest::with_nonce(method, JsonValue::Object(vec![]), "1")
}

#[test]
fn unknown_methods_return_python_error_code() {
    let request = JsonRpcRequest {
        jsonrpc: "2.0".to_string(),
        id: "1".to_string(),
        method: "nope".to_string(),
        params: JsonValue::Object(vec![]),
    };
    match handle_command(request, &sensor_functions()) {
        CommandStep::Reply(response) => match response.to_json() {
            JsonValue::Object(es) => {
                let error = es.iter().find(|(k, _)| k == "error").map(|(_, v)| v).unwrap();
                match error {
                    JsonValue::Object(body) => {
                        let code = body.iter().find(|(k, _)| k == "code").map(|(_, v)| v).unwrap();
                        assert_eq!(code, &JsonValue::Number(JsonNumber::NegInt(ERR_METHOD_NOT_FOUND)));
                    },
                    _ => panic!("error member is not an object"),
                }
            },
            _ => panic!("response is not an object"),
        },
        _ => panic!("expected a reply"),
    }
}

#[test]
fn unknown_method_is_refused_with_method_not_found() {
    match handle_command(request("nope"), &sensor_functions()) {
        CommandStep::Reply(JsonRpcResponse::Error { id, error, .. }) => {
            assert_eq!(id, Some("rs-1".to_string()));
            assert_eq!(error.code, ERR_METHOD_NOT_FOUND);
            assert_eq!(error.message, "Unknown method: nope");
        },
        _ => panic!("expected a refusal"),
    }
}

#[test]
fn declared_method_goes_to_driver() {
    match handle_command(request("get_reading"), &sensor_functions()) {
        CommandStep::Invoke { id, method, params } => {
            assert_eq!(id, "rs-1");
            assert_eq!(method, "get_reading");
            assert_eq!(params, JsonValue::Object(vec![]));
        },
        _ => panic!("expected an invocation"),
    }
}

#[test]
fn registration_request_is_recognised() {
    match handle_command(request("requestRegistration"), &vec![]) {
        CommandStep::Registration { id } => assert_eq!(id, "rs-1"),
        _ => panic!("expected registration"),
    }
    match registration_response("9".to_string(), None) {
        JsonRpcResponse::Success { id, result, .. } => {
            assert_eq!(id, "9");
            assert_eq!(result, JsonValue::Object(vec![]));
        },
        _ => panic!("expected success"),
    }
}

#[test]
fn driver_failure_uses_driver_code() {
    let r = invocation_response("3".to_string(), Err(DeviceConnectError::Driver("unknown x".to_string())));
    match r {
        JsonRpcResponse::Error { id, error, .. } => {
            assert_eq!(id, Some("3".to_string()));
            assert_eq!(error.code, ERR_DRIVER);
            assert_eq!(error.message, "driver error: unknown x");
        },
        _ => panic!("expected error"),
    }
    let r = invocation_response("4".to_string(), Err(DeviceConnectError::Serialization("bad json".to_string())));
    match r {
        JsonRpcResponse::Error { error, .. } => {
            assert_eq!(error.code, ERR_DRIVER);
            assert_eq!(error.message, "serialization error: bad json");
        },
        _ => panic!("expected error"),
    }
    let ok = invocation_response("3".to_string(), Ok(JsonValue::Bool(true)));
    assert_eq!(ok, JsonRpcResponse::success("3", JsonValue::Bool(true)));
    match parse_error_response("missing field `id`") {
        JsonRpcResponse::Error { id, error, .. } => {
            assert_eq!(id, None);
            assert_eq!(error.code, ERR_PARSE);
        },
        _ => panic!("expected error"),
    }
}

#[test]
fn broadcast_targets_and_timing() {
    let none: Vec<String> = vec![];
    let me = vec!["a".to_string(), "sensor-001".to_string()];
    let other = vec!["b".to_string()];
    assert_eq!(plan_broadcast(&other, "sensor-001", false, FireTiming::Unscheduled, "skip"), BroadcastPlan::NotTargeted);
    assert_eq!(plan_broadcast(&me, "sensor-001", false, FireTiming::Unscheduled, "skip"), BroadcastPlan::Fire { wait: false });
    assert_eq!(plan_broadcast(&none, "x", true, FireTiming::Unscheduled, "skip"), BroadcastPlan::WherePredicateUnsupported);
    assert_eq!(plan_broadcast(&none, "x", false, FireTiming::Late, "skip"), BroadcastPlan::SkipLate);
    assert_eq!(plan_broadcast(&none, "x", false, FireTiming::Late, "fire"), BroadcastPlan::Fire { wait: false });
    assert_eq!(plan_broadcast(&none, "x", false, FireTiming::Ahead, "skip"), BroadcastPlan::Fire { wait: true });
    assert_eq!(plan_broadcast(&none, "x", false, FireTiming::Due, "skip"), BroadcastPlan::Fire { wait: false });
}

#[test]
fn broadcast_outcomes() {
    let ok = broadcast_outcome(Ok(JsonValue::Null));
    assert!(ok.success && ok.result == Some(JsonValue::Null) && ok.error.is_none());
    let bad = broadcast_outcome(Err(DeviceConnectError::Driver("x".to_string())));
    assert!(!bad.success && bad.result.is_none());
    assert_eq!(
        bad.error,
        Some(JsonValue::Object(vec![
            ("code".to_string(), text("invoke_failed")),
            ("message".to_string(), text("driver error: x")),
        ]))
    );
    let bad = broadcast_outcome(Err(DeviceConnectError::Serialization("EOF".to_string())));
    assert_eq!(
        bad.error,
        Some(JsonValue::Object(vec![
            ("code".to_string(), text("invoke_failed")),
            ("message".to_string(), text("serialization error: EOF")),
        ]))
    );
}

#[test]
fn emits_python_event_notification_shape() {
    let (subject, note) = prepare_event(
        "default",
        "sensor-001",
        "reading",
        JsonValue::Object(vec![("temperature".to_string(), JsonValue::Number(JsonNumber::FloatBits(22.5f64.to_bits())))]),
    )
    .unwrap();
    assert_eq!(subject, "device-connect.default.sensor-001.event.reading");
    assert_eq!(note.jsonrpc, "2.0");
    assert_eq!(note.method, "reading");
    match &note.params {
        JsonValue::Object(es) => assert!(es.iter().any(|(k, v)| k == "event_id" && matches!(v, JsonValue::String(_)))),
        _ => panic!("expected object"),
    }
    assert!(prepare_event("default", "sensor-001", "bad/name", JsonValue::Null).is_err());
}

#[test]
fn remote_calls_name_their_source() {
    let (subject, req) = remote_call_with_nonce(
        "default",
        "me",
        "peer",
        "get",
        JsonValue::Object(vec![("a".to_string(), JsonValue::Bool(true))]),
        "n",
    );
    assert_eq!(subject, "device-connect.default.peer.cmd");
    assert_eq!(req.id, "rs-n");
    assert_eq!(
        req.params,
        JsonValue::Object(vec![
            ("_dc_meta".to_string(), JsonValue::Object(vec![("source_device".to_string(), text("me"))])),
            ("a".to_string(), JsonValue::Bool(true)),
        ])
    );
    let (_, replaced) = remote_call_with_nonce("t", "me", "p", "f", JsonValue::Object(vec![("_dc_meta".to_string(), JsonValue::Null)]), "n");
    assert_eq!(
        replaced.params,
        JsonValue::Object(vec![(
            "_dc_meta".to_string(),
            JsonValue::Object(vec![("source_device".to_string(), text("me"))])
        )])
    );
    let (_, array) = prepare_remote_call("t", "me", "p", "f", JsonValue::Array(vec![]));
    assert_eq!(array.params, JsonValue::Array(vec![]));
}

#[test]
fn device_ids_are_resolved() {
    assert_eq!(resolve_device_id(Some("sensor-001".to_string())).unwrap(), "sensor-001");
    assert!(resolve_device_id(Some("-bad".to_string())).is_err());
    let made = resolve_device_id(None).unwrap();
    assert!(made.starts_with("device-") && made.len() == 15);
    assert!(device_connect_edge::types::validate_device_id(&made).is_ok());
    assert_eq!(default_device_id("0123abcd"), "device-0123abcd");
}

#[test]
fn heartbeat_default_is_third_of_ttl() {
    assert_eq!(default_heartbeat_secs(15), 5);
    assert_eq!(default_heartbeat_secs(2), 1);
    assert_eq!(default_heartbeat_secs(0), 1);
}

#[test]
fn definitions_and_identities() {
    let def = DeviceDefinition::builder("sensor")
        .description("a sensor")
        .function(FunctionDef::new("f1"))
        .event(EventDef::new("e1").unwrap())
        .build();
    assert_eq!(def.device_type, "sensor");
    assert_eq!(def.capabilities.description, "a sensor");
    assert_eq!(def.capabilities.functions.len(), 1);
    assert_eq!(def.capabilities.events[0].name, "e1");
    let ident = default_identity(&def);
    assert_eq!(ident.device_type.as_deref(), Some("sensor"));
    let mut own = DeviceIdentity::default();
    own.model = Some("m".to_string());
    let filled = registration_identity(own, &def);
    assert_eq!(filled.device_type.as_deref(), Some("sensor"));
    assert_eq!(filled.model.as_deref(), Some("m"));
    let mut typed = DeviceIdentity::default();
    typed.device_type = Some("custom".to_string());
    assert_eq!(registration_identity(typed, &def).device_type.as_deref(), Some("custom"));
}

#[test]
fn preparing_call_params_twice_changes_nothing() {
    let (_, once) = remote_call_with_nonce("t", "me", "p", "f", JsonValue::Object(vec![("k".to_string(), JsonValue::Null)]), "n");
    let (_, twice) = remote_call_with_nonce("t", "me", "p", "f", once.params.clone(), "n");
    assert_eq!(once.params, twice.params);
}

#[test]
fn stamping_an_event_payload_twice_changes_nothing() {
    let once = device_connect_edge::protocol::with_event_defaults(JsonValue::Bool(false), "abcdef01".to_string(), "T1".to_string());
    let twice = device_connect_edge::protocol::with_event_defaults(once.clone(), "12345678".to_string(), "T2".to_string());
    assert_eq!(once, twice);
}

#[test]
fn command_subjects_differ_between_devices() {
    assert_ne!(subjects::command("t", "a"), subjects::command("t", "b"));
    assert_ne!(subjects::command("t", "a.b"), subjects::command("t", "a"));
}

#[test]
fn runtime_defaults() {
    assert_eq!(default_tenant(), "default");
    assert_eq!(DEFAULT_TTL_SECS, 15);
    assert_eq!(REGISTRY_TIMEOUT_SECS, 15);
    assert_eq!(PRESENCE_INTERVAL_SECS, 5);
    assert_eq!(default_heartbeat_secs(DEFAULT_TTL_SECS), 5);
}
