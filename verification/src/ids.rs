//! Random identifiers drawn from `uuid`.

use vstd::prelude::*;
use vstd::string::*;

verus! {

/// A lowercase hexadecimal digit.
pub open spec fn is_lower_hex(c: char) -> bool {
    ('0' <= c && c <= '9') || ('a' <= c && c <= 'f')
}

/// `s` is made of lowercase hexadecimal digits only.
pub open spec fn is_lower_hex_text(s: Seq<char>) -> bool {
    forall|i: int| 0 <= i < s.len() ==> #[trigger] is_lower_hex(s[i])
}

/// Calls `uuid::Uuid::new_v4` and formats the result with `Uuid::simple`
/// (`Display` of `Simple`, which writes the 16 bytes as 32 lowercase hex
/// digits). Which digits come out is random.
#[verifier::external_body]
pub(crate) fn simple_uuid() -> (r: String)
    ensures
        r@.len() == 32,
        is_lower_hex_text(r@),
{
    uuid::Uuid::new_v4().simple().to_string()
}

/// A fresh random short identifier: the first 8 hex digits of a v4 UUID.
pub fn random_hex8() -> (r: String)
    ensures
        r@.len() == 8,
        is_lower_hex_text(r@),
{
    let full = simple_uuid();
    let s = full.as_str();
    let head = s.substring_char(0, 8);
    head.to_string()
}

} // verus!
