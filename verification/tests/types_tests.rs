use device_connect_edge::errors::DeviceConnectError;
use device_connect_edge::json::JsonValue;
use device_connect_edge::types::{
    default_availability, default_online, empty_params_schema, rfc3339_or_epoch,
    validate_device_id, validate_event_name, DeviceCapabilities, DeviceIdentity, EventDef,
    FunctionDef,
};

#[test]
fn validates_event_names_like_python() {
    assert!(validate_event_name("reading_changed").is_ok());
    assert!(validate_event_name("motion-1").is_ok());
    assert!(validate_event_name("event/motion").is_err());
}

#[test]
fn validates_device_ids_like_python() {
    assert!(validate_device_id("sensor-001").is_ok());
    assert!(validate_device_id("robot.1_a").is_ok());
    assert!(validate_device_id("-bad").is_err());
    assert!(validate_device_id("bad space").is_err());
}

#[test]
fn function_def_serializes_python_shape() {
    let def = FunctionDef::new("get_reading");
    assert_eq!(def.parameters, empty_params_schema());
    assert!(def.tags.is_empty());
}

#[test]
fn device_id_length_limit_is_255() {
    let ok = "a".repeat(255);
    let too_long = "a".repeat(256);
    assert!(validate_device_id(&ok).is_ok());
    assert!(validate_device_id(&too_long).is_err());
    assert!(validate_device_id("").is_err());
    assert!(validate_device_id("9").is_ok());
}

#[test]
fn device_id_rejects_non_ascii_and_reports_the_id() {
    match validate_device_id("caf\u{e9}") {
        Err(DeviceConnectError::InvalidDeviceId(s)) => assert_eq!(s, "caf\u{e9}"),
        other => panic!("unexpected {:?}", other),
    }
    assert!(validate_device_id("\u{e9}x").is_err());
}

#[test]
fn event_name_rules() {
    assert!(validate_event_name("").is_err());
    assert!(validate_event_name("a.b").is_err());
    assert!(validate_event_name("_").is_ok());
    match validate_event_name("bad name") {
        Err(DeviceConnectError::InvalidEventName(s)) => assert_eq!(s, "bad name"),
        other => panic!("unexpected {:?}", other),
    }
}

#[test]
fn error_messages_match_display_text() {
    let e = DeviceConnectError::InvalidDeviceId("bad id".to_string());
    assert_eq!(
        e.message(),
        "invalid device id \"bad id\"; must match ^[a-zA-Z0-9][a-zA-Z0-9._-]{0,254}$"
    );
    let e = DeviceConnectError::InvalidEventName("x/y".to_string());
    assert_eq!(e.message(), "invalid event name \"x/y\"; must match ^[A-Za-z0-9_-]+$");
    assert_eq!(DeviceConnectError::Transport("down".to_string()).message(), "transport error: down");
    assert_eq!(DeviceConnectError::RequestTimeout.message(), "request timed out");
    assert_eq!(DeviceConnectError::Driver("boom".to_string()).message(), "driver error: boom");
    assert_eq!(DeviceConnectError::Unsupported("Zenoh publish").message(), "unsupported operation: Zenoh publish");
    let parse_err = serde_json::from_str::<serde_json::Value>("{").unwrap_err();
    let text = parse_err.to_string();
    let e = DeviceConnectError::Serialization(text.clone());
    assert_eq!(e.message(), format!("serialization error: {}", text));
    let e = DeviceConnectError::Serialization("EOF while parsing".to_string());
    assert_eq!(e.message(), "serialization error: EOF while parsing");
}

#[test]
fn empty_params_schema_has_python_shape() {
    let expected = JsonValue::Object(vec![
        ("properties".to_string(), JsonValue::Object(vec![])),
        ("required".to_string(), JsonValue::Array(vec![])),
        ("type".to_string(), JsonValue::String("object".to_string())),
    ]);
    assert_eq!(empty_params_schema(), expected);
}

#[test]
fn function_def_builders_set_fields() {
    let schema = JsonValue::Object(vec![("type".to_string(), JsonValue::String("object".to_string()))]);
    let def = FunctionDef::new("move").description("Move the arm").parameters(schema.clone());
    assert_eq!(def.name, "move");
    assert_eq!(def.description, "Move the arm");
    assert_eq!(def.parameters, schema);
    assert!(def.labels.is_none());
}

#[test]
fn event_def_requires_valid_name() {
    let ev = EventDef::new("reading").unwrap();
    assert_eq!(ev.name, "reading");
    assert_eq!(ev.description, "");
    assert!(ev.payload_schema.is_none());
    assert!(EventDef::new("bad/name").is_err());
}

#[test]
fn defaults_are_empty() {
    let caps = DeviceCapabilities::default();
    assert!(caps.functions.is_empty() && caps.events.is_empty() && caps.description.is_empty());
    let id = DeviceIdentity::default();
    assert!(id.device_type.is_none() && id.extra.is_empty());
    assert_eq!(default_availability(), "idle");
    assert!(default_online());
}

#[test]
fn clock_fallback_is_epoch() {
    assert_eq!(rfc3339_or_epoch(None), "1970-01-01T00:00:00Z");
    assert_eq!(rfc3339_or_epoch(Some("2024-01-01T00:00:00Z".to_string())), "2024-01-01T00:00:00Z");
    let now = device_connect_edge::types::now_rfc3339();
    assert!(now.len() >= 20 && now.ends_with('Z'));
    assert_eq!(&now[10..11], "T");
    assert_eq!(&now[4..5], "-");
}
