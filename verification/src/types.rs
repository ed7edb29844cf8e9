//! Device metadata types and the validation of identifiers.


use std::collections::BTreeMap;
use vstd::prelude::*;
use vstd::string::*;

use crate::errors::DeviceConnectError;
use crate::json::{JsonValue, JsonView};
use crate::text::{ascii_alnum, chars_of, is_ascii_alnum, lemma_ascii_alnum_classes};

verus! {

/// A character that may follow the first one in a device id.
pub open spec fn is_device_id_char(c: char) -> bool {
    is_ascii_alnum(c) || c == '.' || c == '_' || c == '-'
}

/// A character of an event name.
pub open spec fn is_event_name_char(c: char) -> bool {
    is_ascii_alnum(c) || c == '_' || c == '-'
}

/// `s` matches `^[a-zA-Z0-9][a-zA-Z0-9._-]{0,254}$`.
pub open spec fn is_valid_device_id(s: Seq<char>) -> bool {
    &&& 1 <= s.len() <= 255
    &&& is_ascii_alnum(s[0])
    &&& forall|i: int| 1 <= i < s.len() ==> #[trigger] is_device_id_char(s[i])
}

/// `s` matches `^[A-Za-z0-9_-]+$`.
pub open spec fn is_valid_event_name(s: Seq<char>) -> bool {
    &&& s.len() >= 1
    &&& forall|i: int| 0 <= i < s.len() ==> #[trigger] is_event_name_char(s[i])
}

/// Checks a device id; the error carries the rejected id.
pub fn validate_device_id(device_id: &str) -> (r: Result<(), DeviceConnectError>)
    ensures
        r is Ok <==> is_valid_device_id(device_id@),
        r matches Err(e) ==> (e matches DeviceConnectError::InvalidDeviceId(s) && s@ == device_id@),
{
    let cs = chars_of(device_id);
    let n = cs.len();
    if n == 0 || n > 255 || !ascii_alnum(cs[0]) {
        return Err(DeviceConnectError::InvalidDeviceId(device_id.to_string()));
    }
    let mut i: usize = 1;
    while i < n
        invariant
            1 <= i <= n,
            n == cs@.len(),
            cs@ == device_id@,
            forall|j: int| 1 <= j < i ==> #[trigger] is_device_id_char(cs@[j]),
        decreases n - i,
    {
        let c = cs[i];
        if !(ascii_alnum(c) || c == '.' || c == '_' || c == '-') {
            assert(!is_device_id_char(device_id@[i as int]));
            return Err(DeviceConnectError::InvalidDeviceId(device_id.to_string()));
        }
        i = i + 1;
    }
    Ok(())
}

/// Checks an event name; the error carries the rejected name.
pub fn validate_event_name(name: &str) -> (r: Result<(), DeviceConnectError>)
    ensures
        r is Ok <==> is_valid_event_name(name@),
        r matches Err(e) ==> (e matches DeviceConnectError::InvalidEventName(s) && s@ == name@),
{
    let cs = chars_of(name);
    let n = cs.len();
    if n == 0 {
        return Err(DeviceConnectError::InvalidEventName(name.to_string()));
    }
    let mut i: usize = 0;
    while i < n
        invariant
            0 <= i <= n,
            n == cs@.len(),
            cs@ == name@,
            forall|j: int| 0 <= j < i ==> #[trigger] is_event_name_char(cs@[j]),
        decreases n - i,
    {
        let c = cs[i];
        if !(ascii_alnum(c) || c == '_' || c == '-') {
            assert(!is_event_name_char(name@[i as int]));
            return Err(DeviceConnectError::InvalidEventName(name.to_string()));
        }
        i = i + 1;
    }
    Ok(())
}


/// A valid device id is ASCII, so its UTF-8 length, which `str::len` gives,
/// is its number of characters: the limit of 255 characters is the limit of
/// 255 bytes.
pub proof fn lemma_valid_device_id_byte_len(device_id: &str)
    requires
        is_valid_device_id(device_id@),
    ensures
        device_id.spec_bytes().len() == device_id@.len(),
{
    let s = device_id@;
    assert(vstd::utf8::is_ascii_chars(s)) by {
        assert forall|i: int| 0 <= i < s.len() implies '\0' <= #[trigger] s[i] <= '\u{7f}' by {
            if i > 0 {
                assert(is_device_id_char(s[i]));
            }
        }
    }
    vstd::utf8::is_ascii_chars_encode_utf8(s);
}

/// A label value: one string or a list of strings.
#[derive(Clone, Debug, PartialEq, Eq)]
pub enum LabelValue {
    One(String),
    Many(Vec<String>),
}

/// Labels attached to a device, function or event, ordered by key.
pub type Labels = BTreeMap<String, LabelValue>;

/// The model of the default parameter schema of a function:
/// `{"properties": {}, "required": [], "type": "object"}`.
pub open spec fn empty_params_schema_view() -> JsonView {
    JsonView::Object(
        seq![
            ("properties"@, JsonView::Object(Seq::empty())),
            ("required"@, JsonView::Array(Seq::empty())),
            ("type"@, JsonView::Str("object"@)),
        ],
    )
}

/// The JSON schema of a function that takes no parameters.
pub fn empty_params_schema() -> (r: JsonValue)
    ensures
        r@ == empty_params_schema_view(),
{
    let props = JsonValue::Object(Vec::new());
    let required = JsonValue::Array(Vec::new());
    let ty = JsonValue::String(String::from_str("object"));
    proof {
        assert(props@->Object_0 =~= Seq::empty());
        assert(required@->Array_0 =~= Seq::empty());
        assert(props@ == JsonView::Object(Seq::empty()));
        assert(required@ == JsonView::Array(Seq::empty()));
        assert(ty@ == JsonView::Str("object"@));
    }
    let mut es: Vec<(String, JsonValue)> = Vec::new();
    es.push((String::from_str("properties"), props));
    es.push((String::from_str("required"), required));
    es.push((String::from_str("type"), ty));
    let r = JsonValue::Object(es);
    proof {
        let o = r@->Object_0;
        assert(o.len() == 3);
        assert(o[0] == ("properties"@, JsonView::Object(Seq::empty())));
        assert(o[1] == ("required"@, JsonView::Array(Seq::empty())));
        assert(o[2] == ("type"@, JsonView::Str("object"@)));
        assert(o =~= empty_params_schema_view()->Object_0);
    }
    r
}

/// A function that a device offers over JSON-RPC.
#[derive(Clone, Debug, PartialEq)]
pub struct FunctionDef {
    pub name: String,
    pub description: String,
    pub parameters: JsonValue,
    pub labels: Option<Labels>,
    pub tags: Vec<String>,
}

impl FunctionDef {
    /// A function with the given name, no description, the empty parameter
    /// schema, no labels and no tags.
    pub fn new(name: &str) -> (r: Self)
        ensures
            r.name@ == name@,
            r.description@ == Seq::<char>::empty(),
            r.parameters@ == empty_params_schema_view(),
            r.labels is None,
            r.tags@.len() == 0,
    {
        FunctionDef {
            name: name.to_string(),
            description: String::new(),
            parameters: empty_params_schema(),
            labels: None,
            tags: Vec::new(),
        }
    }

    /// The same function with the given description.
    pub fn description(self, description: &str) -> (r: Self)
        ensures
            r.description@ == description@,
            r.name == self.name,
            r.parameters == self.parameters,
            r.labels == self.labels,
            r.tags == self.tags,
    {
        FunctionDef { description: description.to_string(), ..self }
    }

    /// The same function with the given parameter schema.
    pub fn parameters(self, parameters: JsonValue) -> (r: Self)
        ensures
            r.parameters == parameters,
            r.name == self.name,
            r.description == self.description,
            r.labels == self.labels,
            r.tags == self.tags,
    {
        FunctionDef { parameters, ..self }
    }
}

/// An event that a device may emit.
#[derive(Clone, Debug, PartialEq)]
pub struct EventDef {
    pub name: String,
    pub description: String,
    pub payload_schema: Option<JsonValue>,
    pub labels: Option<Labels>,
    pub tags: Vec<String>,
}

impl EventDef {
    /// An event with the given name, which must be a valid event name.
    pub fn new(name: &str) -> (r: Result<Self, DeviceConnectError>)
        ensures
            r is Ok <==> is_valid_event_name(name@),
            r matches Ok(d) ==> {
                &&& d.name@ == name@
                &&& d.description@ == Seq::<char>::empty()
                &&& d.payload_schema is None
                &&& d.labels is None
                &&& d.tags@.len() == 0
            },
            r matches Err(e) ==> (e matches DeviceConnectError::InvalidEventName(s) && s@ == name@),
    {
        validate_event_name(name)?;
        Ok(EventDef {
            name: name.to_string(),
            description: String::new(),
            payload_schema: None,
            labels: None,
            tags: Vec::new(),
        })
    }
}

/// What a device can do: its functions and events.
#[derive(Clone, Debug, PartialEq)]
pub struct DeviceCapabilities {
    pub description: String,
    pub functions: Vec<FunctionDef>,
    pub events: Vec<EventDef>,
    pub labels: Option<Labels>,
}

impl Default for DeviceCapabilities {
    fn default() -> (r: Self)
        ensures
            r.description@ == Seq::<char>::empty(),
            r.functions@.len() == 0,
            r.events@.len() == 0,
            r.labels is None,
    {
        DeviceCapabilities {
            description: String::new(),
            functions: Vec::new(),
            events: Vec::new(),
            labels: None,
        }
    }
}

/// Who a device is. Fields beyond the named ones travel in `extra`.
#[derive(Clone, Debug, PartialEq)]
pub struct DeviceIdentity {
    pub device_type: Option<String>,
    pub manufacturer: Option<String>,
    pub model: Option<String>,
    pub serial_number: Option<String>,
    pub firmware_version: Option<String>,
    pub arch: Option<String>,
    pub description: Option<String>,
    pub commissioning_comment: Option<String>,
    /// The further fields, in order, as object entries: their keys are
    /// unique when read from JSON text (see `unique_keys`), and where a key
    /// repeats its first entry is the one that counts.
    pub extra: Vec<(String, JsonValue)>,
}

/// An identity with no field set.
pub open spec fn is_empty_identity(d: DeviceIdentity) -> bool {
    &&& d.device_type is None
    &&& d.manufacturer is None
    &&& d.model is None
    &&& d.serial_number is None
    &&& d.firmware_version is None
    &&& d.arch is None
    &&& d.description is None
    &&& d.commissioning_comment is None
    &&& d.extra@.len() == 0
}

impl Default for DeviceIdentity {
    fn default() -> (r: Self)
        ensures
            is_empty_identity(r),
    {
        DeviceIdentity {
            device_type: None,
            manufacturer: None,
            model: None,
            serial_number: None,
            firmware_version: None,
            arch: None,
            description: None,
            commissioning_comment: None,
            extra: Vec::new(),
        }
    }
}

/// The timestamp used when the clock cannot be formatted.
pub open spec fn epoch_rfc3339() -> Seq<char> {
    "1970-01-01T00:00:00Z"@
}

/// An ASCII decimal digit.
pub open spec fn is_ascii_digit(c: char) -> bool {
    '0' <= c && c <= '9'
}

/// `s` is a UTC timestamp in RFC 3339 form: `YYYY-MM-DDTHH:MM:SS`, then an
/// optional fraction `.` followed by digits, then `Z`.
pub open spec fn is_utc_rfc3339(s: Seq<char>) -> bool {
    &&& s.len() >= 20
    &&& forall|i: int|
        0 <= i < 19 && i != 4 && i != 7 && i != 10 && i != 13 && i != 16 ==> #[trigger] is_ascii_digit(
            s[i],
        )
    &&& s[4] == '-' && s[7] == '-' && s[10] == 'T' && s[13] == ':' && s[16] == ':'
    &&& s[s.len() - 1] == 'Z'
    &&& s.len() > 20 ==> s[19] == '.' && forall|i: int| 20 <= i < s.len() - 1 ==> #[trigger] is_ascii_digit(s[i])
}

/// Calls `time::OffsetDateTime::now_utc` and formats it with `Rfc3339`
/// (`OffsetDateTime::format`). The crate's formatter writes a four-digit
/// year, two-digit month, day, hour, minute and second with `-`, `T` and
/// `:` between them, a fraction `.` and digits only when the nanoseconds are
/// not zero, and `Z` for the UTC offset; its formatter refuses (here
/// `None`) years outside 0..=9999, though the conversion from the system
/// clock before it panics on such instants, a failure of the environment
/// rather than of any input. Which instant is written depends on the clock
/// and is not stated.
#[verifier::external_body]
fn format_now_rfc3339() -> (r: Option<String>)
    ensures
        r matches Some(s) ==> is_utc_rfc3339(s@),
{
    time::OffsetDateTime::now_utc().format(&time::format_description::well_known::Rfc3339).ok()
}

/// The epoch timestamp is itself a UTC RFC 3339 timestamp.
pub proof fn lemma_epoch_is_utc_rfc3339()
    ensures
        is_utc_rfc3339(epoch_rfc3339()),
{
    reveal_strlit("1970-01-01T00:00:00Z");
    let s = epoch_rfc3339();
    assert(s.len() == 20);
    assert forall|i: int|
        0 <= i < 19 && i != 4 && i != 7 && i != 10 && i != 13 && i != 16 implies #[trigger] is_ascii_digit(s[i]) by {
        assert(is_ascii_digit(s[i]));
    }
}

/// The formatted time, or the epoch when formatting failed.
pub fn rfc3339_or_epoch(formatted: Option<String>) -> (r: String)
    ensures
        r@ == match formatted {
            Some(s) => s@,
            None => epoch_rfc3339(),
        },
{
    match formatted {
        Some(s) => s,
        None => String::from_str("1970-01-01T00:00:00Z"),
    }
}

/// The current UTC time in RFC 3339 form, `YYYY-MM-DDTHH:MM:SS[.fraction]Z`;
/// the epoch `1970-01-01T00:00:00Z` when the clock cannot be formatted.
pub fn now_rfc3339() -> (r: String)
    ensures
        is_utc_rfc3339(r@),
{
    let formatted = format_now_rfc3339();
    proof {
        lemma_epoch_is_utc_rfc3339();
    }
    rfc3339_or_epoch(formatted)
}

/// The availability that a status reports by default.
pub fn default_availability() -> (r: String)
    ensures
        r@ == "idle"@,
{
    String::from_str("idle")
}

/// Whether a status reports the device online by default.
pub fn default_online() -> (r: bool)
    ensures
        r,
{
    true
}

/// A device id is valid exactly when it matches
/// `^[a-zA-Z0-9][a-zA-Z0-9._-]{0,254}$`: one to 255 characters, the first an
/// ASCII letter (of either case) or digit, each other one a letter, digit,
/// `.`, `_` or `-`.
pub proof fn lemma_device_id_pattern(s: Seq<char>)
    ensures
        is_valid_device_id(s) <==> {
            &&& 1 <= s.len() <= 255
            &&& ('0' <= s[0] && s[0] <= '9') || ('a' <= s[0] && s[0] <= 'z') || ('A' <= s[0] && s[0] <= 'Z')
            &&& forall|i: int|
                1 <= i < s.len() ==> ('0' <= #[trigger] s[i] && s[i] <= '9') || ('a' <= s[i] && s[i] <= 'z') || (
                'A' <= s[i] && s[i] <= 'Z') || s[i] == '.' || s[i] == '_' || s[i] == '-'
        },
{
    if s.len() >= 1 {
        lemma_ascii_alnum_classes(s[0]);
    }
    let rest = forall|i: int|
        1 <= i < s.len() ==> ('0' <= #[trigger] s[i] && s[i] <= '9') || ('a' <= s[i] && s[i] <= 'z') || (
        'A' <= s[i] && s[i] <= 'Z') || s[i] == '.' || s[i] == '_' || s[i] == '-';
    if rest {
        assert forall|i: int| 1 <= i < s.len() implies #[trigger] is_device_id_char(s[i]) by {
            lemma_ascii_alnum_classes(s[i]);
        }
    }
    if is_valid_device_id(s) {
        assert forall|i: int| 1 <= i < s.len() implies ('0' <= #[trigger] s[i] && s[i] <= '9') || ('a' <= s[i]
            && s[i] <= 'z') || ('A' <= s[i] && s[i] <= 'Z') || s[i] == '.' || s[i] == '_' || s[i] == '-' by {
            assert(is_device_id_char(s[i]));
            lemma_ascii_alnum_classes(s[i]);
        }
    }
}

/// An event name is valid exactly when it matches `^[A-Za-z0-9_-]+$`: at
/// least one character, of any length, each an ASCII letter (of either
/// case), digit, `_` or `-`.
pub proof fn lemma_event_name_pattern(s: Seq<char>)
    ensures
        is_valid_event_name(s) <==> {
            &&& s.len() >= 1
            &&& forall|i: int|
                0 <= i < s.len() ==> ('0' <= #[trigger] s[i] && s[i] <= '9') || ('a' <= s[i] && s[i] <= 'z') || (
                'A' <= s[i] && s[i] <= 'Z') || s[i] == '_' || s[i] == '-'
        },
{
    let pattern = forall|i: int|
        0 <= i < s.len() ==> ('0' <= #[trigger] s[i] && s[i] <= '9') || ('a' <= s[i] && s[i] <= 'z') || (
        'A' <= s[i] && s[i] <= 'Z') || s[i] == '_' || s[i] == '-';
    if pattern {
        assert forall|i: int| 0 <= i < s.len() implies #[trigger] is_event_name_char(s[i]) by {
            lemma_ascii_alnum_classes(s[i]);
        }
    }
    if is_valid_event_name(s) {
        assert forall|i: int| 0 <= i < s.len() implies ('0' <= #[trigger] s[i] && s[i] <= '9') || ('a' <= s[i]
            && s[i] <= 'z') || ('A' <= s[i] && s[i] <= 'Z') || s[i] == '_' || s[i] == '-' by {
            assert(is_event_name_char(s[i]));
            lemma_ascii_alnum_classes(s[i]);
        }
    }
}

} // verus!
