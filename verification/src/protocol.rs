//! The Device Connect wire protocol: subjects and JSON-RPC envelopes.

pub mod subjects;

use vstd::prelude::*;
use vstd::string::*;

use crate::ids::{is_lower_hex_text, random_hex8, simple_uuid};
use crate::json::{
    entries_view, int_number, lemma_entries_view_insert_absent, lemma_object_view,
    lemma_view_insert_keeps_others, number_from_i64, object_insert_absent, view_has_key,
    view_insert_absent, lemma_view_insert_unique, unique_keys, JsonValue, JsonView,
};
use crate::types::{is_utc_rfc3339, now_rfc3339};

verus! {

pub const JSONRPC_VERSION: &'static str = "2.0";

pub const ERR_PARSE: i64 = -32700;

pub const ERR_INVALID_REQUEST: i64 = -32600;

pub const ERR_METHOD_NOT_FOUND: i64 = -32601;

pub const ERR_INVALID_PARAMS: i64 = -32602;

pub const ERR_INTERNAL: i64 = -32603;

pub const ERR_DRIVER: i64 = -32000;

/// The JSON-RPC version text.
pub open spec fn jsonrpc_version() -> Seq<char> {
    "2.0"@
}

fn version_string() -> (r: String)
    ensures
        r@ == jsonrpc_version(),
{
    String::from_str("2.0")
}

/// A JSON-RPC request.
#[derive(Clone, Debug, PartialEq)]
pub struct JsonRpcRequest {
    pub jsonrpc: String,
    pub id: String,
    pub method: String,
    pub params: JsonValue,
}

/// The JSON form of a request: `{"jsonrpc", "id", "method", "params"}`.
pub open spec fn request_json_view(jsonrpc: Seq<char>, id: Seq<char>, method: Seq<char>, params: JsonView) -> JsonView {
    JsonView::Object(
        seq![
            ("jsonrpc"@, JsonView::Str(jsonrpc)),
            ("id"@, JsonView::Str(id)),
            ("method"@, JsonView::Str(method)),
            ("params"@, params),
        ],
    )
}

impl JsonRpcRequest {
    /// A request with a fresh id `rs-` followed by 32 random hex digits.
    pub fn new(method: &str, params: JsonValue) -> (r: Self)
        ensures
            r.jsonrpc@ == jsonrpc_version(),
            r.method@ == method@,
            r.params == params,
            r.id@.len() == 35,
            r.id@.subrange(0, 3) == "rs-"@,
            is_lower_hex_text(r.id@.subrange(3, 35)),
    {
        let nonce = simple_uuid();
        let r = Self::with_nonce(method, params, nonce.as_str());
        proof {
            reveal_strlit("rs-");
            assert(r.id@.subrange(0, 3) =~= "rs-"@);
            assert(r.id@.subrange(3, 35) =~= nonce@);
        }
        r
    }

    /// A request whose id is `rs-` followed by `nonce`.
    pub fn with_nonce(method: &str, params: JsonValue, nonce: &str) -> (r: Self)
        ensures
            r.jsonrpc@ == jsonrpc_version(),
            r.id@ == "rs-"@ + nonce@,
            r.method@ == method@,
            r.params == params,
    {
        let mut id = String::from_str("rs-");
        id.append(nonce);
        JsonRpcRequest { jsonrpc: version_string(), id, method: method.to_string(), params }
    }

    /// The request as a JSON object.
    pub fn to_json(self) -> (r: JsonValue)
        ensures
            r@ == request_json_view(self.jsonrpc@, self.id@, self.method@, self.params@),
    {
        let ghost p = self.params@;
        let ghost (j, i, m) = (self.jsonrpc@, self.id@, self.method@);
        let mut es: Vec<(String, JsonValue)> = Vec::new();
        es.push((String::from_str("jsonrpc"), JsonValue::String(self.jsonrpc)));
        es.push((String::from_str("id"), JsonValue::String(self.id)));
        es.push((String::from_str("method"), JsonValue::String(self.method)));
        es.push((String::from_str("params"), self.params));
        proof {
            lemma_object_view(es);
            assert(entries_view(es@) =~= request_json_view(j, i, m, p)->Object_0);
        }
        JsonValue::Object(es)
    }
}

/// The error member of a JSON-RPC error response.
#[derive(Clone, Debug, PartialEq, Eq)]
pub struct JsonRpcErrorBody {
    pub code: i64,
    pub message: String,
}

/// A JSON-RPC response: a result or an error.
#[allow(inconsistent_fields)]
#[derive(Clone, Debug, PartialEq)]
pub enum JsonRpcResponse {
    Success { jsonrpc: String, id: String, result: JsonValue },
    Error { jsonrpc: String, id: Option<String>, error: JsonRpcErrorBody },
}

/// The JSON form of an error member: `{"code", "message"}`.
pub open spec fn error_body_json_view(code: i64, message: Seq<char>) -> JsonView {
    JsonView::Object(
        seq![("code"@, JsonView::Number(int_number(code))), ("message"@, JsonView::Str(message))],
    )
}

/// The JSON form of a response, without a tag: a success is
/// `{"jsonrpc", "id", "result"}` and an error `{"jsonrpc", "id", "error"}`,
/// its id `null` when absent.
pub open spec fn response_json_view(r: JsonRpcResponse) -> JsonView {
    match r {
        JsonRpcResponse::Success { jsonrpc, id, result } => JsonView::Object(
            seq![
                ("jsonrpc"@, JsonView::Str(jsonrpc@)),
                ("id"@, JsonView::Str(id@)),
                ("result"@, result@),
            ],
        ),
        JsonRpcResponse::Error { jsonrpc, id, error } => JsonView::Object(
            seq![
                ("jsonrpc"@, JsonView::Str(jsonrpc@)),
                (
                    "id"@,
                    match id {
                        Some(s) => JsonView::Str(s@),
                        None => JsonView::Null,
                    },
                ),
                ("error"@, error_body_json_view(error.code, error.message@)),
            ],
        ),
    }
}

impl JsonRpcErrorBody {
    /// The error member as a JSON object.
    pub fn to_json(self) -> (r: JsonValue)
        ensures
            r@ == error_body_json_view(self.code, self.message@),
    {
        let ghost m = self.message@;
        let mut es: Vec<(String, JsonValue)> = Vec::new();
        es.push((String::from_str("code"), JsonValue::Number(number_from_i64(self.code))));
        es.push((String::from_str("message"), JsonValue::String(self.message)));
        proof {
            lemma_object_view(es);
            assert(entries_view(es@) =~= error_body_json_view(self.code, m)->Object_0);
        }
        JsonValue::Object(es)
    }
}

impl JsonRpcResponse {
    /// A successful response carrying `result`.
    pub fn success(id: &str, result: JsonValue) -> (r: Self)
        ensures
            r matches JsonRpcResponse::Success { jsonrpc, id: rid, result: res } && jsonrpc@
                == jsonrpc_version() && rid@ == id@ && res == result,
    {
        JsonRpcResponse::Success { jsonrpc: version_string(), id: id.to_string(), result }
    }

    /// An error response with the given code and message.
    pub fn error(id: Option<String>, code: i64, message: &str) -> (r: Self)
        ensures
            r matches JsonRpcResponse::Error { jsonrpc, id: rid, error } && jsonrpc@
                == jsonrpc_version() && rid == id && error.code == code && error.message@
                == message@,
    {
        JsonRpcResponse::Error {
            jsonrpc: version_string(),
            id,
            error: JsonRpcErrorBody { code, message: message.to_string() },
        }
    }

    /// The response as a JSON object.
    pub fn to_json(self) -> (r: JsonValue)
        ensures
            r@ == response_json_view(self),
    {
        let ghost old_self = self;
        match self {
            JsonRpcResponse::Success { jsonrpc, id, result } => {
                let mut es: Vec<(String, JsonValue)> = Vec::new();
                es.push((String::from_str("jsonrpc"), JsonValue::String(jsonrpc)));
                es.push((String::from_str("id"), JsonValue::String(id)));
                es.push((String::from_str("result"), result));
                proof {
                    lemma_object_view(es);
                    assert(entries_view(es@) =~= response_json_view(old_self)->Object_0);
                }
                JsonValue::Object(es)
            },
            JsonRpcResponse::Error { jsonrpc, id, error } => {
                let idv = match id {
                    Some(s) => JsonValue::String(s),
                    None => JsonValue::Null,
                };
                let ev = error.to_json();
                let mut es: Vec<(String, JsonValue)> = Vec::new();
                es.push((String::from_str("jsonrpc"), JsonValue::String(jsonrpc)));
                es.push((String::from_str("id"), idv));
                es.push((String::from_str("error"), ev));
                proof {
                    lemma_object_view(es);
                    assert(entries_view(es@) =~= response_json_view(old_self)->Object_0);
                }
                JsonValue::Object(es)
            },
        }
    }
}

/// A JSON-RPC notification announcing an event.
#[derive(Clone, Debug, PartialEq)]
pub struct EventNotification {
    pub jsonrpc: String,
    pub method: String,
    pub params: JsonValue,
}

/// The JSON form of a notification: `{"jsonrpc", "method", "params"}`.
pub open spec fn notification_json_view(jsonrpc: Seq<char>, method: Seq<char>, params: JsonView) -> JsonView {
    JsonView::Object(
        seq![
            ("jsonrpc"@, JsonView::Str(jsonrpc)),
            ("method"@, JsonView::Str(method)),
            ("params"@, params),
        ],
    )
}

impl EventNotification {
    /// A notification of the event `method` with `params`.
    pub fn new(method: &str, params: JsonValue) -> (r: Self)
        ensures
            r.jsonrpc@ == jsonrpc_version(),
            r.method@ == method@,
            r.params == params,
    {
        EventNotification { jsonrpc: version_string(), method: method.to_string(), params }
    }

    /// The notification as a JSON object.
    pub fn to_json(self) -> (r: JsonValue)
        ensures
            r@ == notification_json_view(self.jsonrpc@, self.method@, self.params@),
    {
        let ghost p = self.params@;
        let ghost (j, m) = (self.jsonrpc@, self.method@);
        let mut es: Vec<(String, JsonValue)> = Vec::new();
        es.push((String::from_str("jsonrpc"), JsonValue::String(self.jsonrpc)));
        es.push((String::from_str("method"), JsonValue::String(self.method)));
        es.push((String::from_str("params"), self.params));
        proof {
            lemma_object_view(es);
            assert(entries_view(es@) =~= notification_json_view(j, m, p)->Object_0);
        }
        JsonValue::Object(es)
    }
}

/// The method name of a registration request.
pub open spec fn register_method() -> Seq<char> {
    "registerDevice"@
}

/// The request that registers a device, with id `reg-{device_id}-` followed
/// by 32 random hex digits. `params` is the serialized registration, or
/// `None` when serializing it failed, in which case an empty object is sent.
pub fn build_registration_request(device_id: &str, params: Option<JsonValue>) -> (r: JsonRpcRequest)
    ensures
        r.jsonrpc@ == jsonrpc_version(),
        r.method@ == register_method(),
        r.params@ == match params {
            Some(p) => p@,
            None => JsonView::Object(Seq::empty()),
        },
        r.id@.len() == device_id@.len() + 37,
        r.id@.subrange(0, device_id@.len() + 5int) == "reg-"@ + device_id@ + "-"@,
        is_lower_hex_text(r.id@.subrange(device_id@.len() + 5int, device_id@.len() + 37int)),
{
    let nonce = simple_uuid();
    let r = registration_request_with_nonce(device_id, params, nonce.as_str());
    proof {
        reveal_strlit("reg-");
        reveal_strlit("-");
        let n: int = device_id@.len() as int;
        assert(r.id@.subrange(0, n + 5) =~= "reg-"@ + device_id@ + "-"@);
        assert(r.id@.subrange(n + 5, n + 37) =~= nonce@);
    }
    r
}

/// The registration request whose id ends with `nonce`.
pub fn registration_request_with_nonce(device_id: &str, params: Option<JsonValue>, nonce: &str) -> (r: JsonRpcRequest)
    ensures
        r.jsonrpc@ == jsonrpc_version(),
        r.method@ == register_method(),
        r.params@ == match params {
            Some(p) => p@,
            None => JsonView::Object(Seq::empty()),
        },
        r.id@ == "reg-"@ + device_id@ + "-"@ + nonce@,
{
    let mut id = String::from_str("reg-");
    id.append(device_id);
    id.append("-");
    id.append(nonce);
    let p = match params {
        Some(p) => p,
        None => {
            let e = JsonValue::Object(Vec::new());
            proof {
                assert(e@->Object_0 =~= Seq::<(Seq<char>, JsonView)>::empty());
            }
            e
        },
    };
    JsonRpcRequest { jsonrpc: version_string(), id, method: String::from_str("registerDevice"), params: p }
}

/// The payload of an event after the defaults are added: an object gains
/// `event_id` and `ts` where it lacks them, each at its key's position
/// (see [`view_insert_absent`]); any other value is wrapped as
/// `{"event_id", "ts", "value"}`.
pub open spec fn event_payload_view(payload: JsonView, event_id: Seq<char>, ts: Seq<char>) -> JsonView {
    match payload {
        JsonView::Object(es) => {
            let es1 = view_insert_absent(es, "event_id"@, JsonView::Str(event_id));
            let es2 = view_insert_absent(es1, "ts"@, JsonView::Str(ts));
            JsonView::Object(es2)
        },
        other => JsonView::Object(
            seq![
                ("event_id"@, JsonView::Str(event_id)),
                ("ts"@, JsonView::Str(ts)),
                ("value"@, other),
            ],
        ),
    }
}

/// Adds an event id (8 random hex digits) and the current time, as a UTC
/// RFC 3339 timestamp, to a payload, as [`with_event_defaults`] states.
pub fn event_payload_with_defaults(payload: JsonValue) -> (r: JsonValue)
    ensures
        exists|id: Seq<char>, ts: Seq<char>|
            id.len() == 8 && is_lower_hex_text(id) && is_utc_rfc3339(ts) && r@ == event_payload_view(
                payload@,
                id,
                ts,
            ),
{
    let id = random_hex8();
    let ts = now_rfc3339();
    let r = with_event_defaults(payload, id, ts);
    r
}

/// Adds `event_id` and `ts` to a payload; see [`event_payload_view`].
pub fn with_event_defaults(payload: JsonValue, event_id: String, ts: String) -> (r: JsonValue)
    ensures
        r@ == event_payload_view(payload@, event_id@, ts@),
{
    let ghost pv = payload@;
    match payload {
        JsonValue::Object(mut es) => {
            let ghost es0 = es@;
            proof {
                lemma_object_view(es);
            }
            let ghost idv = event_id@;
            let ghost tsv = ts@;
            let k1 = String::from_str("event_id");
            let v1 = JsonValue::String(event_id);
            let ghost e1 = (k1, v1);
            object_insert_absent(&mut es, k1, v1);
            proof {
                lemma_entries_view_insert_absent(es0, e1.0, e1.1);
            }
            let ghost es1 = es@;
            let k2 = String::from_str("ts");
            let v2 = JsonValue::String(ts);
            let ghost e2 = (k2, v2);
            object_insert_absent(&mut es, k2, v2);
            proof {
                lemma_entries_view_insert_absent(es1, e2.0, e2.1);
                lemma_object_view(es);
            }
            JsonValue::Object(es)
        },
        other => {
            let ghost ov = other@;
            let mut es: Vec<(String, JsonValue)> = Vec::new();
            es.push((String::from_str("event_id"), JsonValue::String(event_id)));
            es.push((String::from_str("ts"), JsonValue::String(ts)));
            es.push((String::from_str("value"), other));
            proof {
                lemma_object_view(es);
                assert(entries_view(es@) =~= event_payload_view(pv, event_id@, ts@)->Object_0);
            }
            JsonValue::Object(es)
        },
    }
}

/// What a device does with a broadcast that arrives after its `fire_at`,
/// when the envelope does not say.
pub fn default_on_late() -> (r: String)
    ensures
        r@ == "skip"@,
{
    String::from_str("skip")
}


/// The payload of an emitted event always has an `event_id` and a `ts`, and
/// an object payload keeps every one of its members.
pub proof fn lemma_event_payload_members(payload: JsonView, event_id: Seq<char>, ts: Seq<char>)
    ensures
        event_payload_view(payload, event_id, ts) is Object,
        view_has_key(event_payload_view(payload, event_id, ts)->Object_0, "event_id"@),
        view_has_key(event_payload_view(payload, event_id, ts)->Object_0, "ts"@),
        payload matches JsonView::Object(es) ==> forall|j: int|
            0 <= j < es.len() ==> event_payload_view(payload, event_id, ts)->Object_0.contains(
                #[trigger] es[j],
            ),
{
    let r = event_payload_view(payload, event_id, ts);
    match payload {
        JsonView::Object(es) => {
            let e1 = JsonView::Str(event_id);
            let e2 = JsonView::Str(ts);
            let es1 = view_insert_absent(es, "event_id"@, e1);
            let es2 = view_insert_absent(es1, "ts"@, e2);
            lemma_view_insert_keeps_others(es, "event_id"@, e1);
            lemma_view_insert_keeps_others(es1, "ts"@, e2);
            let i = choose|i: int| 0 <= i < es1.len() && #[trigger] es1[i].0 == "event_id"@;
            assert(es2.contains(es1[i]));
            let i2 = choose|i2: int| 0 <= i2 < es2.len() && es2[i2] == es1[i];
            assert(es2[i2].0 == "event_id"@);
            assert forall|j: int| 0 <= j < es.len() implies es2.contains(#[trigger] es[j]) by {
                assert(es1.contains(es[j]));
                let m = choose|m: int| 0 <= m < es1.len() && es1[m] == es[j];
                assert(es2.contains(es1[m]));
            }
        },
        _ => {
            assert(r->Object_0[0].0 == "event_id"@);
            assert(r->Object_0[1].0 == "ts"@);
        },
    }
}

/// Adding the defaults to a payload that already went through them changes
/// nothing: a payload is stamped once.
pub proof fn lemma_event_payload_idempotent(
    payload: JsonView,
    event_id: Seq<char>,
    ts: Seq<char>,
    event_id2: Seq<char>,
    ts2: Seq<char>,
)
    ensures
        event_payload_view(event_payload_view(payload, event_id, ts), event_id2, ts2)
            == event_payload_view(payload, event_id, ts),
{
    lemma_event_payload_members(payload, event_id, ts);
}

/// Stamping keeps keys unique: an object payload without repeated keys
/// gives one without repeated keys, and a wrapped value has three distinct
/// keys.
pub proof fn lemma_event_payload_unique_keys(payload: JsonView, event_id: Seq<char>, ts: Seq<char>)
    requires
        payload matches JsonView::Object(es) ==> unique_keys(es),
    ensures
        unique_keys(event_payload_view(payload, event_id, ts)->Object_0),
{
    match payload {
        JsonView::Object(es) => {
            let es1 = view_insert_absent(es, "event_id"@, JsonView::Str(event_id));
            lemma_view_insert_unique(es, "event_id"@, JsonView::Str(event_id));
            lemma_view_insert_unique(es1, "ts"@, JsonView::Str(ts));
        },
        _ => {
            reveal_strlit("event_id");
            reveal_strlit("ts");
            reveal_strlit("value");
            let r = event_payload_view(payload, event_id, ts)->Object_0;
            assert(r[0].0.len() == 8 && r[1].0.len() == 2 && r[2].0.len() == 5);
        },
    }
}

/// A success response on the wire always carries its result, whatever it is
/// (`null` included), beside `jsonrpc` and `id`, and nothing else.
pub proof fn lemma_success_response_carries_result(jsonrpc: String, id: String, result: JsonValue)
    ensures
        response_json_view(JsonRpcResponse::Success { jsonrpc, id, result }) matches JsonView::Object(es) && {
            &&& es.len() == 3
            &&& es.contains(("jsonrpc"@, JsonView::Str(jsonrpc@)))
            &&& es.contains(("id"@, JsonView::Str(id@)))
            &&& es.contains(("result"@, result@))
        },
{
    let v = response_json_view(JsonRpcResponse::Success { jsonrpc, id, result });
    let es = v->Object_0;
    assert(es[0] == ("jsonrpc"@, JsonView::Str(jsonrpc@)));
    assert(es[1] == ("id"@, JsonView::Str(id@)));
    assert(es[2] == ("result"@, result@));
}

/// An error response on the wire carries its error member beside `jsonrpc`
/// and `id` (`null` when there is none), and nothing else.
pub proof fn lemma_error_response_carries_error(jsonrpc: String, id: Option<String>, error: JsonRpcErrorBody)
    ensures
        response_json_view(JsonRpcResponse::Error { jsonrpc, id, error }) matches JsonView::Object(es) && {
            &&& es.len() == 3
            &&& es.contains(("jsonrpc"@, JsonView::Str(jsonrpc@)))
            &&& id matches Some(s) ==> es.contains(("id"@, JsonView::Str(s@)))
            &&& id is None ==> es.contains(("id"@, JsonView::Null))
            &&& es.contains(("error"@, error_body_json_view(error.code, error.message@)))
        },
{
    let v = response_json_view(JsonRpcResponse::Error { jsonrpc, id, error });
    let es = v->Object_0;
    assert(es[0] == ("jsonrpc"@, JsonView::Str(jsonrpc@)));
    assert(es[1].0 == "id"@);
    assert(es[2] == ("error"@, error_body_json_view(error.code, error.message@)));
}

/// A payload that is not an object survives stamping unchanged: it is the
/// `value` member of the stamped object, beside `event_id` and `ts`.
pub proof fn lemma_wrapped_payload_kept(payload: JsonView, event_id: Seq<char>, ts: Seq<char>)
    requires
        !(payload is Object),
    ensures
        event_payload_view(payload, event_id, ts) matches JsonView::Object(es) && {
            &&& es.len() == 3
            &&& es.contains(("event_id"@, JsonView::Str(event_id)))
            &&& es.contains(("ts"@, JsonView::Str(ts)))
            &&& es.contains(("value"@, payload))
        },
{
    let es = event_payload_view(payload, event_id, ts)->Object_0;
    assert(es[0] == ("event_id"@, JsonView::Str(event_id)));
    assert(es[1] == ("ts"@, JsonView::Str(ts)));
    assert(es[2] == ("value"@, payload));
}

} // verus!
