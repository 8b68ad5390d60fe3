//! Page identifiers: 128-bit numbers, drawn at random and written as UUIDs.

use vstd::prelude::*;
use crate::error::Error;

verus! {

/// The identifier that `uuid::Uuid::parse_str` reads out of `text`, as the
/// number `uuid::Uuid::as_u128` gives for it; `None` where the text is
/// refused.
pub uninterp spec fn page_id_of_text(text: Seq<char>) -> Option<u128>;

/// The version and variant fields of a random (version 4) identifier.
pub open spec fn is_random_id(id: u128) -> bool {
    id & 0xF000_C000_0000_0000_0000u128 == 0x4000_8000_0000_0000_0000u128
}

/// `uuid::Uuid::parse_str`, followed by `uuid::Uuid::as_u128`: reads a UUID
/// in any of the notations the parser accepts. The result is the parser's,
/// whatever it is; the same text always gives the same result.
#[verifier::external_body]
fn parse_uuid(text: &str) -> (r: Option<u128>)
    ensures
        r == page_id_of_text(text@),
{
    match uuid::Uuid::parse_str(text) {
        Ok(id) => Some(id.as_u128()),
        Err(_) => None,
    }
}

/// `uuid::Uuid::new_v4`, followed by `uuid::Uuid::as_u128`: 122 random bits
/// around the fixed version and variant fields. Only those fields are
/// claimed: two draws may well be equal. The call aborts where the operating
/// system has no source of randomness to offer.
#[verifier::external_body]
pub(crate) fn random_page_id() -> (id: u128)
    ensures
        is_random_id(id),
{
    uuid::Uuid::new_v4().as_u128()
}

/// Turns the answer of the UUID parser into a page identifier: what was
/// refused is `InvalidInput`, and nothing else is.
pub fn accept_page_id(parsed: Option<u128>) -> (r: Result<u128, Error>)
    ensures
        r == match parsed {
            Some(id) => Ok::<u128, Error>(id),
            None => Err::<u128, Error>(Error::InvalidInput),
        },
{
    match parsed {
        Some(id) => Ok(id),
        None => Err(Error::InvalidInput),
    }
}

/// Reads a page identifier from the text of a request path.
///
/// This is the strict parse step in front of the engine: it runs before any
/// store is asked anything.
pub fn parse_page_id(text: &str) -> (r: Result<u128, Error>)
    ensures
        r == match page_id_of_text(text@) {
            Some(id) => Ok::<u128, Error>(id),
            None => Err::<u128, Error>(Error::InvalidInput),
        },
{
    accept_page_id(parse_uuid(text))
}

} // verus!
