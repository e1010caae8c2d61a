//! Identifiers and clock readings, taken from the `uuid` and `chrono` crates.

use vstd::prelude::*;

verus! {

/// The version nibble of a UUID value is 4 and its variant bits are `10`.
pub open spec fn is_v4_uuid(u: u128) -> bool {
    u & 0xF000_C000_0000_0000_0000u128 == 0x4000_8000_0000_0000_0000u128
}

/// Calls `uuid::Uuid::new_v4` and returns the UUID as its 128-bit big-endian
/// value (`Uuid::as_u128`). The value is random; claimed of it only what the
/// crate's source sets on every outcome: the version nibble is 4 and the
/// variant bits are `10`.
#[verifier::external_body]
pub(crate) fn new_uuid() -> (r: u128)
    ensures
        is_v4_uuid(r),
{
    uuid::Uuid::new_v4().as_u128()
}

/// Calls `chrono::Utc::now` and returns `DateTime::timestamp_millis`, the
/// milliseconds since the Unix epoch. Nothing is claimed of the value: it is
/// the time at which the call runs.
#[verifier::external_body]
pub(crate) fn now_millis() -> (r: i64) {
    chrono::Utc::now().timestamp_millis()
}

/// What `uuid::Uuid::parse_str` gives for a text with these characters, as
/// the UUID's 128-bit value, or `None` where the text is not a UUID.
pub uninterp spec fn uuid_parse(s: Seq<char>) -> Option<u128>;

/// The text (`Display`) of the `uuid::Error` that `Uuid::parse_str` returns
/// for a text with these characters.
pub uninterp spec fn uuid_error_text(s: Seq<char>) -> Seq<char>;

/// Calls `uuid::Uuid::parse_str`. Claimed of it: success and the parsed value
/// are `uuid_parse` of the input's characters, and the error's text is
/// `uuid_error_text` of them; both depend on the input alone.
#[verifier::external_body]
pub(crate) fn parse_uuid(s: &str) -> (r: Result<u128, String>)
    ensures
        match r {
            Ok(v) => uuid_parse(s@) == Some(v),
            Err(e) => uuid_parse(s@) is None && e@ == uuid_error_text(s@),
        },
{
    match uuid::Uuid::parse_str(s) {
        Ok(u) => Ok(u.as_u128()),
        Err(e) => Err(e.to_string()),
    }
}

} // verus!
