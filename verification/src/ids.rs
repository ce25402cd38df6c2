//! Identifiers: 128-bit UUID values and their canonical text.

use vstd::prelude::*;
use crate::text::hex_lower;

verus! {

/// The 16 bytes of a UUID, most significant first.
pub open spec fn uuid_bytes(id: u128) -> Seq<u8> {
    Seq::new(16, |i: int| ((id >> ((120 - 8 * i) as u128)) & 0xff) as u8)
}

/// The hyphenated lowercase form `xxxxxxxx-xxxx-xxxx-xxxx-xxxxxxxxxxxx`.
pub open spec fn uuid_text(id: u128) -> Seq<char> {
    let b = uuid_bytes(id);
    hex_lower(b.subrange(0, 4)) + seq!['-'] + hex_lower(b.subrange(4, 6)) + seq!['-'] + hex_lower(
        b.subrange(6, 8),
    ) + seq!['-'] + hex_lower(b.subrange(8, 10)) + seq!['-'] + hex_lower(b.subrange(10, 16))
}

/// `uuid::Uuid::from_u128(id).to_string()`: the uuid crate's `Display` writes
/// the hyphenated lowercase hex form of the big-endian bytes.
#[verifier::external_body]
pub(crate) fn uuid_string(id: u128) -> (s: String)
    ensures
        s@ == uuid_text(id),
{
    uuid::Uuid::from_u128(id).to_string()
}

/// `uuid::Uuid::now_v7()`: a fresh time-ordered identifier. Nothing is stated
/// of its value: it depends on the clock and on randomness.
#[verifier::external_body]
pub(crate) fn new_uuid_v7() -> (id: u128) {
    uuid::Uuid::now_v7().as_u128()
}

/// The value `uuid::Uuid::parse_str` reads from a text, if it reads one.
pub uninterp spec fn uuid_parse(s: Seq<char>) -> Option<u128>;

/// `uuid::Uuid::parse_str(s).ok()`: the crate accepts the simple,
/// hyphenated, braced and URN spellings, in either case. Stated: the result
/// is the named parse of `s`, and the canonical hyphenated text of a value
/// reads back as that value. Which other texts are accepted is left to the
/// name.
#[verifier::external_body]
pub(crate) fn parse_uuid(s: &str) -> (r: Option<u128>)
    ensures
        r == uuid_parse(s@),
        forall|x: u128| s@ == uuid_text(x) ==> r == Some(x),
{
    match uuid::Uuid::parse_str(s) {
        Ok(id) => Some(id.as_u128()),
        Err(_) => None,
    }
}

} // verus!
