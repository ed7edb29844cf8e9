//! The error type of the SDK and the text that it reports.

use vstd::prelude::*;
use vstd::string::*;

verus! {

/// Errors reported by the SDK.
#[derive(Debug)]
pub enum DeviceConnectError {
    InvalidDeviceId(String),
    InvalidEventName(String),
    Transport(String),
    RequestTimeout,
    /// A value could not be serialized or parsed as JSON; holds the JSON
    /// library's description of what went wrong.
    Serialization(String),
    Driver(String),
    Unsupported(&'static str),
}

/// What `format!("{:?}", s)` gives for a string slice: `s` quoted, with
/// escapes as std's `Debug` for `str` writes them.
pub uninterp spec fn debug_quoted(s: Seq<char>) -> Seq<char>;

/// Calls std's `Debug` formatting of a `str`; the contract names the
/// result `debug_quoted` of the characters.
#[verifier::external_body]
fn debug_quote(s: &str) -> (r: String)
    ensures
        r@ == debug_quoted(s@),
{
    format!("{:?}", s)
}

/// The message of each error.
pub open spec fn error_message(e: DeviceConnectError) -> Seq<char> {
    match e {
        DeviceConnectError::InvalidDeviceId(s) => "invalid device id "@ + debug_quoted(s@)
            + "; must match ^[a-zA-Z0-9][a-zA-Z0-9._-]{0,254}$"@,
        DeviceConnectError::InvalidEventName(s) => "invalid event name "@ + debug_quoted(s@)
            + "; must match ^[A-Za-z0-9_-]+$"@,
        DeviceConnectError::Transport(s) => "transport error: "@ + s@,
        DeviceConnectError::RequestTimeout => "request timed out"@,
        DeviceConnectError::Serialization(s) => "serialization error: "@ + s@,
        DeviceConnectError::Driver(s) => "driver error: "@ + s@,
        DeviceConnectError::Unsupported(s) => "unsupported operation: "@ + s@,
    }
}

impl DeviceConnectError {
    /// The human-readable message of the error (what `to_string` gives).
    pub fn message(&self) -> (r: String)
        ensures
            r@ == error_message(*self),
    {
        match self {
            DeviceConnectError::InvalidDeviceId(s) => {
                let mut r = String::from_str("invalid device id ");
                let q = debug_quote(s.as_str());
                r.append(q.as_str());
                r.append("; must match ^[a-zA-Z0-9][a-zA-Z0-9._-]{0,254}$");
                assert(r@ == error_message(*self));
                r
            },
            DeviceConnectError::InvalidEventName(s) => {
                let mut r = String::from_str("invalid event name ");
                let q = debug_quote(s.as_str());
                r.append(q.as_str());
                r.append("; must match ^[A-Za-z0-9_-]+$");
                assert(r@ == error_message(*self));
                r
            },
            DeviceConnectError::Transport(s) => {
                let mut r = String::from_str("transport error: ");
                r.append(s.as_str());
                r
            },
            DeviceConnectError::RequestTimeout => String::from_str("request timed out"),
            DeviceConnectError::Serialization(s) => {
                let mut r = String::from_str("serialization error: ");
                r.append(s.as_str());
                r
            },
            DeviceConnectError::Driver(s) => {
                let mut r = String::from_str("driver error: ");
                r.append(s.as_str());
                r
            },
            DeviceConnectError::Unsupported(s) => {
                let mut r = String::from_str("unsupported operation: ");
                r.append(*s);
                r
            },
        }
    }
}

} // verus!
