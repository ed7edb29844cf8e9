//! The decisions of a device runtime: how a command is answered, whether a
//! broadcast is acted on, what an emitted event and a remote call look like,
//! and the settings a runtime starts with.

use vstd::prelude::*;
use vstd::string::*;

use crate::errors::{error_message, DeviceConnectError};
use crate::ids::{is_lower_hex, is_lower_hex_text, random_hex8, simple_uuid};
use crate::json::{
    entries_view, lemma_entries_view_insert, lemma_object_view, lemma_view_insert_finds,
    lemma_view_insert_idempotent, lemma_view_insert_unique, object_insert, unique_keys, view_insert,
    view_key_index, JsonValue, JsonView,
};
use crate::json::JsonNumber;
use crate::protocol::subjects::{command, command_subject, event, event_subject};
use crate::protocol::{
    error_body_json_view, event_payload_view, event_payload_with_defaults, jsonrpc_version,
    response_json_view, EventNotification, JsonRpcRequest, JsonRpcResponse, ERR_DRIVER,
    ERR_METHOD_NOT_FOUND, ERR_PARSE,
};
use crate::text::text_eq;
use crate::types::{
    is_utc_rfc3339, is_valid_device_id, is_valid_event_name, validate_device_id, validate_event_name, FunctionDef,
};

verus! {

/// The method by which a peer asks a device for its registration.
pub open spec fn registration_method() -> Seq<char> {
    "requestRegistration"@
}

/// Some function of the list has the name `method`.
pub open spec fn declares_function(functions: Seq<FunctionDef>, method: Seq<char>) -> bool {
    exists|i: int| 0 <= i < functions.len() && #[trigger] functions[i].name@ == method
}

/// What a command turns into, before any driver is asked.
pub enum CommandStep {
    /// The answer is known: publish it.
    Reply(JsonRpcResponse),
    /// The peer asks for the registration: answer it with
    /// [`registration_response`].
    Registration { id: String },
    /// A declared function is called: hand it to the driver and answer with
    /// [`invocation_response`].
    Invoke { id: String, method: String, params: JsonValue },
}

/// The message of a reply to an unknown method.
pub open spec fn unknown_method_message(method: Seq<char>) -> Seq<char> {
    "Unknown method: "@ + method
}

/// `r` is an error response with the given id, code and message.
pub open spec fn is_error_response(r: JsonRpcResponse, id: Option<Seq<char>>, code: i64, message: Seq<char>) -> bool {
    &&& r matches JsonRpcResponse::Error { jsonrpc, id: rid, error }
    &&& jsonrpc@ == jsonrpc_version()
    &&& match rid {
        Some(s) => id == Some(s@),
        None => id is None,
    }
    &&& error.code == code
    &&& error.message@ == message
}

/// `r` is a success response with the given id and result.
pub open spec fn is_success_response(r: JsonRpcResponse, id: Seq<char>, result: JsonView) -> bool {
    &&& r matches JsonRpcResponse::Success { jsonrpc, id: rid, result: res }
    &&& jsonrpc@ == jsonrpc_version()
    &&& rid@ == id
    &&& res@ == result
}

/// Decides what a parsed command turns into: a registration request is
/// answered with the registration, a method that no declared function has is
/// refused with `ERR_METHOD_NOT_FOUND`, and any other call goes to the
/// driver.
pub fn handle_command(request: JsonRpcRequest, functions: &Vec<FunctionDef>) -> (r: CommandStep)
    ensures
        request.method@ == registration_method() ==> (r matches CommandStep::Registration { id }
            && id@ == request.id@),
        request.method@ != registration_method() && !declares_function(functions@, request.method@)
            ==> (r matches CommandStep::Reply(resp) && is_error_response(
            resp,
            Some(request.id@),
            ERR_METHOD_NOT_FOUND,
            unknown_method_message(request.method@),
        )),
        request.method@ != registration_method() && declares_function(functions@, request.method@)
            ==> (r matches CommandStep::Invoke { id, method, params } && id@ == request.id@
            && method@ == request.method@ && params == request.params),
{
    let reg = String::from_str("requestRegistration");
    if text_eq(&request.method, &reg) {
        return CommandStep::Registration { id: request.id };
    }
    let n = functions.len();
    let mut i: usize = 0;
    while i < n
        invariant
            0 <= i <= n,
            n == functions@.len(),
            request.method@ != registration_method(),
            forall|j: int| 0 <= j < i ==> #[trigger] functions@[j].name@ != request.method@,
        decreases n - i,
    {
        if text_eq(&functions[i].name, &request.method) {
            return CommandStep::Invoke { id: request.id, method: request.method, params: request.params };
        }
        i = i + 1;
    }
    CommandStep::Reply(unknown_method_response(request.id, request.method.as_str()))
}

/// The refusal of a method that the device does not offer.
pub fn unknown_method_response(id: String, method: &str) -> (r: JsonRpcResponse)
    ensures
        is_error_response(r, Some(id@), ERR_METHOD_NOT_FOUND, unknown_method_message(method@)),
{
    let mut message = String::from_str("Unknown method: ");
    message.append(method);
    JsonRpcResponse::error(Some(id), ERR_METHOD_NOT_FOUND, message.as_str())
}

/// The answer to a call that the driver handled: its result, or its error
/// with `ERR_DRIVER` and the error's message.
pub fn invocation_response(id: String, outcome: Result<JsonValue, DeviceConnectError>) -> (r: JsonRpcResponse)
    ensures
        outcome matches Ok(v) ==> is_success_response(r, id@, v@),
        outcome matches Err(e) ==> (r matches JsonRpcResponse::Error { jsonrpc, id: rid, error }
            && jsonrpc@ == jsonrpc_version() && rid == Some(id) && error.code == ERR_DRIVER
            && error.message@ == error_message(e)),
{
    match outcome {
        Ok(v) => {
            let r = JsonRpcResponse::success(id.as_str(), v);
            r
        },
        Err(e) => {
            let message = e.message();
            JsonRpcResponse::error(Some(id), ERR_DRIVER, message.as_str())
        },
    }
}

/// The answer to a registration request: the serialized registration, or an
/// empty object when serializing it failed.
pub fn registration_response(id: String, params: Option<JsonValue>) -> (r: JsonRpcResponse)
    ensures
        is_success_response(
            r,
            id@,
            match params {
                Some(p) => p@,
                None => JsonView::Object(Seq::empty()),
            },
        ),
{
    let v = match params {
        Some(p) => p,
        None => {
            let e = JsonValue::Object(Vec::new());
            proof {
                assert(e@->Object_0 =~= Seq::<(Seq<char>, JsonView)>::empty());
            }
            e
        },
    };
    JsonRpcResponse::success(id.as_str(), v)
}

/// The answer to a command that could not be parsed: no id, `ERR_PARSE`, and
/// the parser's message.
pub fn parse_error_response(message: &str) -> (r: JsonRpcResponse)
    ensures
        is_error_response(r, None, ERR_PARSE, message@),
{
    JsonRpcResponse::error(None, ERR_PARSE, message)
}


/// When a broadcast was asked to fire, measured against the clock when it
/// arrives.
#[derive(Clone, Copy, Debug, PartialEq, Eq, Structural)]
pub enum FireTiming {
    /// The broadcast names no firing time.
    Unscheduled,
    /// The firing time has passed.
    Late,
    /// The firing time is now (or the delay compares neither way).
    Due,
    /// The firing time lies ahead.
    Ahead,
}

/// What a device does with a broadcast.
#[derive(Clone, Copy, Debug, PartialEq, Eq, Structural)]
pub enum BroadcastPlan {
    /// The broadcast names targets and this device is not one of them.
    NotTargeted,
    /// The broadcast carries a `where` predicate, which is not supported.
    WherePredicateUnsupported,
    /// The broadcast is late and asks late receivers to skip it.
    SkipLate,
    /// Call the function; first wait until the firing time when `wait`.
    Fire { wait: bool },
}

/// This device is addressed: no targets are named, or it is one of them.
pub open spec fn is_targeted(targets: Seq<String>, device_id: Seq<char>) -> bool {
    targets.len() == 0 || exists|i: int| 0 <= i < targets.len() && #[trigger] targets[i]@ == device_id
}

/// The plan for a broadcast, given whom it targets, whether it carries a
/// `where` predicate, its timing and its `on_late` policy.
pub open spec fn broadcast_plan(
    targets: Seq<String>,
    device_id: Seq<char>,
    has_where_clause: bool,
    timing: FireTiming,
    on_late: Seq<char>,
) -> BroadcastPlan {
    if !is_targeted(targets, device_id) {
        BroadcastPlan::NotTargeted
    } else if has_where_clause {
        BroadcastPlan::WherePredicateUnsupported
    } else if timing == FireTiming::Late && on_late == "skip"@ {
        BroadcastPlan::SkipLate
    } else {
        BroadcastPlan::Fire { wait: timing == FireTiming::Ahead }
    }
}

/// Decides what to do with a broadcast; see [`broadcast_plan`].
pub fn plan_broadcast(
    targets: &Vec<String>,
    device_id: &str,
    has_where_clause: bool,
    timing: FireTiming,
    on_late: &str,
) -> (r: BroadcastPlan)
    ensures
        r == broadcast_plan(targets@, device_id@, has_where_clause, timing, on_late@),
{
    let me = device_id.to_string();
    let n = targets.len();
    let mut targeted = n == 0;
    let mut i: usize = 0;
    while i < n && !targeted
        invariant
            0 <= i <= n,
            n == targets@.len(),
            me@ == device_id@,
            targeted == (n == 0 || exists|j: int| 0 <= j < i && #[trigger] targets@[j]@ == device_id@),
        decreases n - i,
    {
        if text_eq(&targets[i], &me) {
            targeted = true;
        }
        i = i + 1;
    }
    if !targeted {
        return BroadcastPlan::NotTargeted;
    }
    if has_where_clause {
        return BroadcastPlan::WherePredicateUnsupported;
    }
    let skip = String::from_str("skip");
    let policy = on_late.to_string();
    let late = match timing {
        FireTiming::Late => true,
        _ => false,
    };
    if late && text_eq(&policy, &skip) {
        return BroadcastPlan::SkipLate;
    }
    let wait = match timing {
        FireTiming::Ahead => true,
        _ => false,
    };
    BroadcastPlan::Fire { wait }
}

/// The part of a broadcast reply that depends on how the call went.
pub struct BroadcastOutcome {
    pub success: bool,
    pub result: Option<JsonValue>,
    pub error: Option<JsonValue>,
}

/// The error member of a failed broadcast call:
/// `{"code": "invoke_failed", "message": ...}`.
pub open spec fn invoke_failed_view(message: Seq<char>) -> JsonView {
    JsonView::Object(
        seq![("code"@, JsonView::Str("invoke_failed"@)), ("message"@, JsonView::Str(message))],
    )
}

/// The outcome reported for a broadcast call: its result, or the error's
/// message under the code `invoke_failed`.
pub fn broadcast_outcome(result: Result<JsonValue, DeviceConnectError>) -> (r: BroadcastOutcome)
    ensures
        result matches Ok(v) ==> r.success && r.result == Some(v) && r.error is None,
        result matches Err(e) ==> !r.success && r.result is None && (r.error matches Some(ev)
            && ev@ == invoke_failed_view(error_message(e))),
{
    match result {
        Ok(v) => BroadcastOutcome { success: true, result: Some(v), error: None },
        Err(e) => {
            let message = e.message();
            let ghost m = message@;
            let mut es: Vec<(String, JsonValue)> = Vec::new();
            es.push((String::from_str("code"), JsonValue::String(String::from_str("invoke_failed"))));
            es.push((String::from_str("message"), JsonValue::String(message)));
            let ev = JsonValue::Object(es);
            proof {
                lemma_object_view(es);
                assert(entries_view(es@) =~= invoke_failed_view(m)->Object_0);
            }
            BroadcastOutcome { success: false, result: None, error: Some(ev) }
        },
    }
}

/// The subject and notification of an event that a device emits; an invalid
/// event name is refused.
pub fn prepare_event(tenant: &str, device_id: &str, event_name: &str, payload: JsonValue) -> (r: Result<
    (String, EventNotification),
    DeviceConnectError,
>)
    ensures
        r is Ok <==> is_valid_event_name(event_name@),
        r matches Err(e) ==> (e matches DeviceConnectError::InvalidEventName(s) && s@ == event_name@),
        r matches Ok((subject, note)) ==> {
            &&& subject@ == event_subject(tenant@, device_id@, event_name@)
            &&& note.jsonrpc@ == jsonrpc_version()
            &&& note.method@ == event_name@
            &&& exists|id: Seq<char>, ts: Seq<char>|
                id.len() == 8 && is_lower_hex_text(id) && is_utc_rfc3339(ts) && note.params@ == event_payload_view(
                    payload@,
                    id,
                    ts,
                )
        },
{
    validate_event_name(event_name)?;
    let params = event_payload_with_defaults(payload);
    let note = EventNotification::new(event_name, params);
    Ok((event(tenant, device_id, event_name), note))
}

/// The params of a call to another device: an object gains `_dc_meta`,
/// `{"source_device": ...}`, naming the caller; other params are unchanged.
pub open spec fn call_params_view(params: JsonView, source_device: Seq<char>) -> JsonView {
    match params {
        JsonView::Object(es) => JsonView::Object(
            view_insert(
                es,
                "_dc_meta"@,
                JsonView::Object(seq![("source_device"@, JsonView::Str(source_device))]),
            ),
        ),
        other => other,
    }
}

/// The subject and request of a call from device `source_device` to
/// `target_device`, with a fresh request id.
pub fn prepare_remote_call(
    tenant: &str,
    source_device: &str,
    target_device: &str,
    function: &str,
    params: JsonValue,
) -> (r: (String, JsonRpcRequest))
    ensures
        r.0@ == command_subject(tenant@, target_device@),
        r.1.jsonrpc@ == jsonrpc_version(),
        r.1.method@ == function@,
        r.1.params@ == call_params_view(params@, source_device@),
        r.1.id@.len() == 35,
        r.1.id@.subrange(0, 3) == "rs-"@,
        is_lower_hex_text(r.1.id@.subrange(3, 35)),
{
    let nonce = simple_uuid();
    let r = remote_call_with_nonce(tenant, source_device, target_device, function, params, nonce.as_str());
    proof {
        reveal_strlit("rs-");
        assert(r.1.id@.subrange(0, 3) =~= "rs-"@);
        assert(r.1.id@.subrange(3, 35) =~= nonce@);
    }
    r
}

/// The call of [`prepare_remote_call`] whose request id is `rs-` followed by
/// `nonce`.
pub fn remote_call_with_nonce(
    tenant: &str,
    source_device: &str,
    target_device: &str,
    function: &str,
    params: JsonValue,
    nonce: &str,
) -> (r: (String, JsonRpcRequest))
    ensures
        r.0@ == command_subject(tenant@, target_device@),
        r.1.jsonrpc@ == jsonrpc_version(),
        r.1.method@ == function@,
        r.1.params@ == call_params_view(params@, source_device@),
        r.1.id@ == "rs-"@ + nonce@,
{
    let ghost pv = params@;
    let p = match params {
        JsonValue::Object(mut es) => {
            let ghost es0 = es@;
            proof {
                lemma_object_view(es);
            }
            let src = JsonValue::String(source_device.to_string());
            let mut meta_es: Vec<(String, JsonValue)> = Vec::new();
            meta_es.push((String::from_str("source_device"), src));
            let meta = JsonValue::Object(meta_es);
            proof {
                lemma_object_view(meta_es);
                assert(entries_view(meta_es@) =~= seq![("source_device"@, JsonView::Str(source_device@))]);
            }
            let key = String::from_str("_dc_meta");
            let ghost (kg, mg) = (key, meta);
            object_insert(&mut es, key, meta);
            proof {
                lemma_entries_view_insert(es0, kg, mg);
                lemma_object_view(es);
            }
            JsonValue::Object(es)
        },
        other => other,
    };
    let req = JsonRpcRequest::with_nonce(function, p, nonce);
    (command(tenant, target_device), req)
}

/// The prefix of a device id made up when none is given.
pub open spec fn default_device_id_prefix() -> Seq<char> {
    "device-"@
}

/// The device id a runtime uses: the requested one, which must be valid, or
/// `device-` followed by 8 random hex digits, which always is.
pub fn resolve_device_id(requested: Option<String>) -> (r: Result<String, DeviceConnectError>)
    ensures
        requested matches Some(id) ==> {
            &&& (r is Ok <==> is_valid_device_id(id@))
            &&& r matches Ok(v) ==> v@ == id@
            &&& r matches Err(e) ==> (e matches DeviceConnectError::InvalidDeviceId(s) && s@ == id@)
        },
        requested is None ==> (r matches Ok(v) && v@.len() == 15 && v@.subrange(0, 7)
            == default_device_id_prefix() && is_lower_hex_text(v@.subrange(7, 15))
            && is_valid_device_id(v@)),
{
    match requested {
        Some(id) => {
            validate_device_id(id.as_str())?;
            Ok(id)
        },
        None => {
            let suffix = random_hex8();
            let id = default_device_id(suffix.as_str());
            proof {
                reveal_strlit("device-");
                assert(id@.subrange(0, 7) =~= "device-"@);
                assert(id@.subrange(7, 15) =~= suffix@);
            }
            Ok(id)
        },
    }
}

/// `device-` followed by `suffix`; valid whenever the suffix is 8 lowercase
/// hex digits.
pub fn default_device_id(suffix: &str) -> (r: String)
    ensures
        r@ == default_device_id_prefix() + suffix@,
        suffix@.len() == 8 && is_lower_hex_text(suffix@) ==> is_valid_device_id(r@),
{
    let mut r = String::from_str("device-");
    r.append(suffix);
    proof {
        reveal_strlit("device-");
        if suffix@.len() == 8 && is_lower_hex_text(suffix@) {
            assert forall|i: int| 1 <= i < r@.len() implies #[trigger] crate::types::is_device_id_char(r@[i]) by {
                if i >= 7 {
                    assert(r@[i] == suffix@[i - 7]);
                    assert(is_lower_hex(suffix@[i - 7]));
                }
            }
        }
    }
    r
}

/// The tenant a runtime joins when none is configured.
pub open spec fn default_tenant_view() -> Seq<char> {
    "default"@
}

/// The tenant a runtime joins when none is configured: `default`.
pub fn default_tenant() -> (r: String)
    ensures
        r@ == default_tenant_view(),
{
    String::from_str("default")
}

/// The device time-to-live in seconds when none is configured.
pub const DEFAULT_TTL_SECS: u64 = 15;

/// How long the registry is given to answer a registration, in seconds.
pub const REGISTRY_TIMEOUT_SECS: u64 = 15;

/// The heartbeat period in seconds when none is configured: a third of the
/// TTL, at least one second.
pub fn default_heartbeat_secs(ttl: u64) -> (r: u64)
    ensures
        r == if ttl / 3 >= 1 { ttl / 3 } else { 1 },
{
    let third = ttl / 3;
    if third >= 1 {
        third
    } else {
        1
    }
}


/// The caller named in a call's params: the `_dc_meta` member that an object
/// carries after the call is prepared is `{"source_device": caller}`,
/// preparing the params a second time for the same caller changes nothing,
/// and keys that were unique stay unique.
pub proof fn lemma_call_params_name_caller(params: JsonView, source_device: Seq<char>)
    ensures
        params is Object ==> ({
            let es = call_params_view(params, source_device)->Object_0;
            let i = view_key_index(es, "_dc_meta"@);
            i >= 0 && es[i].1 == JsonView::Object(seq![("source_device"@, JsonView::Str(source_device))])
        }),
        !(params is Object) ==> call_params_view(params, source_device) == params,
        call_params_view(call_params_view(params, source_device), source_device) == call_params_view(
            params,
            source_device,
        ),
        params matches JsonView::Object(es) && unique_keys(es) ==> unique_keys(
            call_params_view(params, source_device)->Object_0,
        ),
{
    if let JsonView::Object(es) = params {
        let meta = JsonView::Object(seq![("source_device"@, JsonView::Str(source_device))]);
        lemma_view_insert_finds(es, "_dc_meta"@, meta);
        lemma_view_insert_idempotent(es, "_dc_meta"@, meta);
        if unique_keys(es) {
            lemma_view_insert_unique(es, "_dc_meta"@, meta);
        }
    }
}


/// A JSON string, or `null` when absent.
pub open spec fn optional_text_view(s: Option<Seq<char>>) -> JsonView {
    match s {
        Some(t) => JsonView::Str(t),
        None => JsonView::Null,
    }
}

/// On the wire, an error response is `{"jsonrpc": "2.0", "id": ..., "error":
/// {"code": ..., "message": ...}}`; in particular a refused method is sent
/// with code -32601 and the id of the request that named it.
pub proof fn lemma_error_response_on_the_wire(r: JsonRpcResponse, id: Option<Seq<char>>, code: i64, message: Seq<char>)
    requires
        is_error_response(r, id, code, message),
    ensures
        response_json_view(r) == JsonView::Object(
            seq![
                ("jsonrpc"@, JsonView::Str("2.0"@)),
                ("id"@, optional_text_view(id)),
                ("error"@, error_body_json_view(code, message)),
            ],
        ),
        code == ERR_METHOD_NOT_FOUND ==> error_body_json_view(code, message) == JsonView::Object(
            seq![("code"@, JsonView::Number(JsonNumber::NegInt(-32601i64))), ("message"@, JsonView::Str(message))],
        ),
{
    if let JsonRpcResponse::Error { jsonrpc, id: rid, error } = r {
        let idv = optional_text_view(id);
        let ridv = match rid {
            Some(s) => JsonView::Str(s@),
            None => JsonView::Null,
        };
        assert(idv == ridv);
        assert(response_json_view(r)->Object_0 =~= seq![
            ("jsonrpc"@, JsonView::Str("2.0"@)),
            ("id"@, idv),
            ("error"@, error_body_json_view(code, message)),
        ]);
        assert(response_json_view(r) == JsonView::Object(seq![
            ("jsonrpc"@, JsonView::Str("2.0"@)),
            ("id"@, idv),
            ("error"@, error_body_json_view(code, message)),
        ]));
    }
}

/// A device named anywhere in the targets is addressed: the plan is never
/// `NotTargeted`, and with no `where` predicate and no late skip it fires.
pub proof fn lemma_named_target_is_addressed(
    targets: Seq<String>,
    device_id: Seq<char>,
    i: int,
    has_where_clause: bool,
    timing: FireTiming,
    on_late: Seq<char>,
)
    requires
        0 <= i < targets.len(),
        targets[i]@ == device_id,
    ensures
        broadcast_plan(targets, device_id, has_where_clause, timing, on_late) != BroadcastPlan::NotTargeted,
        !has_where_clause && !(timing == FireTiming::Late && on_late == "skip"@) ==> broadcast_plan(
            targets,
            device_id,
            has_where_clause,
            timing,
            on_late,
        ) == (BroadcastPlan::Fire { wait: timing == FireTiming::Ahead }),
{
}

/// A broadcast with no targets addresses every device; one whose targets do
/// not name the device is ignored by it.
pub proof fn lemma_targeting(
    targets: Seq<String>,
    device_id: Seq<char>,
    has_where_clause: bool,
    timing: FireTiming,
    on_late: Seq<char>,
)
    ensures
        targets.len() == 0 ==> broadcast_plan(targets, device_id, has_where_clause, timing, on_late)
            != BroadcastPlan::NotTargeted,
        (targets.len() > 0 && forall|j: int| 0 <= j < targets.len() ==> #[trigger] targets[j]@ != device_id)
            ==> broadcast_plan(targets, device_id, has_where_clause, timing, on_late) == BroadcastPlan::NotTargeted,
{
}

/// Among addressed devices, a `where` predicate is refused as unsupported,
/// and a late broadcast is skipped exactly when it asks for `skip`; any other
/// broadcast fires, waiting only when its firing time is still ahead.
pub proof fn lemma_addressed_broadcast_plan(
    targets: Seq<String>,
    device_id: Seq<char>,
    has_where_clause: bool,
    timing: FireTiming,
    on_late: Seq<char>,
)
    requires
        targets.len() == 0 || exists|i: int| 0 <= i < targets.len() && #[trigger] targets[i]@ == device_id,
    ensures
        has_where_clause ==> broadcast_plan(targets, device_id, has_where_clause, timing, on_late)
            == BroadcastPlan::WherePredicateUnsupported,
        !has_where_clause && timing == FireTiming::Late && on_late == "skip"@ ==> broadcast_plan(
            targets,
            device_id,
            has_where_clause,
            timing,
            on_late,
        ) == BroadcastPlan::SkipLate,
        !has_where_clause && timing != FireTiming::Late ==> broadcast_plan(
            targets,
            device_id,
            has_where_clause,
            timing,
            on_late,
        ) == (BroadcastPlan::Fire { wait: timing == FireTiming::Ahead }),
        !has_where_clause && on_late != "skip"@ ==> broadcast_plan(targets, device_id, has_where_clause, timing, on_late)
            == (BroadcastPlan::Fire { wait: timing == FireTiming::Ahead }),
{
}

} // verus!
