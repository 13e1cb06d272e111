//! Identifiers: the 128 bits of a UUID.

use crate::json;
use vstd::prelude::*;

verus! {

/// The last hexadecimal digits of a number, in lower case.
pub open spec fn hex_text(n: nat, digits: nat) -> Seq<char>
    decreases digits,
{
    if digits == 0 {
        Seq::empty()
    } else {
        hex_text(n / 16, (digits - 1) as nat).push(json::hex_char((n % 16) as int))
    }
}

/// The text of an identifier: its 32 hexadecimal digits in five groups.
pub open spec fn uuid_text(bits: u128) -> Seq<char> {
    let digits = hex_text(bits as nat, 32);
    digits.subrange(0, 8) + seq!['-'] + digits.subrange(8, 12) + seq!['-'] + digits.subrange(12, 16)
        + seq!['-'] + digits.subrange(16, 20) + seq!['-'] + digits.subrange(20, 32)
}

/// The identifier that `uuid` reads in a text, if it reads one.
pub uninterp spec fn uuid_parsed(text: Seq<char>) -> Option<u128>;

/// Whether the version and the variant of an identifier say that its bits are random.
pub open spec fn is_random_uuid(bits: u128) -> bool {
    &&& (bits as nat / 0x1000_0000_0000_0000_0000) % 16 == 4
    &&& (bits as nat / 0x4000_0000_0000_0000) % 4 == 2
}

/// `Display` of `uuid::Uuid` writes an identifier in the hyphenated notation, in lower case.
#[verifier::external_body]
pub(crate) fn uuid_to_text(bits: u128) -> (r: String)
    ensures
        r@ == uuid_text(bits),
{
    uuid::Uuid::from_u128(bits).to_string()
}

/// `uuid::Uuid::parse_str` reads an identifier in one of its notations, among them the one that
/// identifiers are written in.
#[verifier::external_body]
pub(crate) fn parse_uuid(s: &str) -> (r: Option<u128>)
    ensures
        r == uuid_parsed(s@),
        forall|bits: u128| #[trigger] uuid_text(bits) == s@ ==> r == Some(bits),
{
    uuid::Uuid::parse_str(s).ok().map(|id| id.as_u128())
}

/// What `uuid` and `serde_json` make of the value that stands first in a text where an identifier is
/// asked for.
pub uninterp spec fn json_uuid(text: Seq<char>) -> Result<u128, Seq<char>>;

/// What came of reading an identifier.
pub open spec fn uuid_or_reason(r: Result<u128, String>) -> Result<u128, Seq<char>> {
    match r {
        Ok(bits) => Ok(bits),
        Err(reason) => Err(reason@),
    }
}

/// Whether this is what reading an identifier comes to: one that is written is read back.
pub open spec fn uuid_reads_back(text: Seq<char>, outcome: Result<u128, Seq<char>>) -> bool {
    forall|pad: Seq<char>, bits: u128, rest: Seq<char>|
        #[trigger] (pad + json::quoted(uuid_text(bits)) + rest) == text && json::is_blank(pad)
            ==> outcome == Ok::<u128, Seq<char>>(bits)
}

/// `Uuid::deserialize` on the `Deserializer` of `serde_json` reads an identifier in a string, or says
/// why it cannot and where. What follows the string is not looked at.
#[verifier::external_body]
pub(crate) fn uuid_first(text: &str) -> (r: Result<u128, String>)
    ensures
        uuid_or_reason(r) == json_uuid(text@),
        uuid_reads_back(text@, uuid_or_reason(r)),
{
    serde::Deserialize::deserialize(&mut serde_json::Deserializer::from_str(text))
        .map(|id: uuid::Uuid| id.as_u128())
        .map_err(|e: serde_json::Error| e.to_string())
}

/// `uuid::Uuid::new_v4` makes an identifier of random bits.
#[verifier::external_body]
pub(crate) fn fresh_uuid() -> (r: u128)
    ensures
        is_random_uuid(r),
{
    uuid::Uuid::new_v4().as_u128()
}

} // verus!
