//! Page addresses: absolute URLs in their canonical spelling.

use vstd::prelude::*;
use crate::error::Error;

verus! {

/// The canonical spelling that `url::Url::parse` gives to `input`, or `None`
/// where `input` is no well-formed absolute URL.
pub uninterp spec fn canonical_form(input: Seq<char>) -> Option<Seq<char>>;

/// `url::Url::parse`, followed by the conversion of the parsed URL into its
/// serialization (`String::from`). The result is the parser's, whatever it
/// is; the same text always gives the same result.
#[verifier::external_body]
fn parse_url(input: &str) -> (r: Option<String>)
    ensures
        match r {
            Some(text) => canonical_form(input@) == Some(text@),
            None => canonical_form(input@) is None,
        },
{
    match url::Url::parse(input) {
        Ok(parsed) => Some(String::from(parsed)),
        Err(_) => None,
    }
}

/// Turns the answer of the URL parser into an address: what was refused is
/// `InvalidInput`, and nothing else is.
pub fn accept_address(parsed: Option<String>) -> (r: Result<String, Error>)
    ensures
        match parsed {
            Some(text) => r is Ok && r->Ok_0@ == text@,
            None => r is Err && r->Err_0 == Error::InvalidInput,
        },
{
    match parsed {
        Some(text) => Ok(text),
        None => Err(Error::InvalidInput),
    }
}

/// Validates a URL and returns its canonical spelling, under which a page is
/// filed. Anything that does not parse as an absolute URL is `InvalidInput`.
pub fn canonical_url(input: &str) -> (r: Result<String, Error>)
    ensures
        match canonical_form(input@) {
            Some(text) => r is Ok && r->Ok_0@ == text,
            None => r is Err && r->Err_0 == Error::InvalidInput,
        },
{
    accept_address(parse_url(input))
}

} // verus!
