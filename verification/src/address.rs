//! Canonical addresses: the key under which a page is fetched once.

use crate::text::same_text;
use url::{Position, Url};
use vstd::prelude::*;

verus! {

/// What the crawler reads of a parsed address: its serialization, and the
/// leading part of that serialization that ends with the path.
pub struct ParsedAddress {
    pub text: String,
    pub stem: String,
}

/// The serialization of the address that `url::Url::parse` reads from `input`;
/// `None` where it reports an error.
pub uninterp spec fn parsed_text(input: Seq<char>) -> Option<Seq<char>>;

/// Of the address that `url::Url::parse` reads from `input`, the slice
/// `[..Position::AfterPath]`: scheme, authority and path, without the query
/// and the fragment.
pub uninterp spec fn parsed_stem(input: Seq<char>) -> Seq<char>;

/// The serialization of the address that `url::Url::join` resolves
/// `reference` to against the address parsed from `base`; `None` where
/// either step reports an error.
pub uninterp spec fn joined_text(base: Seq<char>, reference: Seq<char>) -> Option<Seq<char>>;

/// Whether `text` is canonical: it parses to itself, and it ends with its
/// path, so that it has neither query nor fragment.
pub open spec fn is_canonical(text: Seq<char>) -> bool {
    parsed_text(text) == Some(text) && parsed_stem(text) == text
}

/// The canonical form of an address: the stem of the parsed input, parsed
/// once more, where that text is canonical. `None` for input that is no
/// well-formed absolute address, and for input whose stem does not come
/// to a canonical text.
pub open spec fn normalized(input: Seq<char>) -> Option<Seq<char>> {
    if parsed_text(input) is Some {
        match parsed_text(parsed_stem(input)) {
            Some(text) => if is_canonical(text) {
                Some(text)
            } else {
                None
            },
            None => None,
        }
    } else {
        None
    }
}

/// Normalizing is idempotent: the canonical form of an address is its own
/// canonical form.
pub proof fn lemma_normalized_is_fixed(input: Seq<char>)
    ensures
        normalized(input) matches Some(text) ==> normalized(text) == Some(text),
{
}

/// An address is canonical exactly when normalizing leaves it as it is.
pub proof fn lemma_canonical_is_fixed(text: Seq<char>)
    ensures
        is_canonical(text) <==> normalized(text) == Some(text),
{
}

/// Calls `url::Url::parse`, and hands out the serialization of the result
/// (`String::from`) together with its slice up to `Position::AfterPath`.
/// Nothing is believed of the `url` crate but that both are what the two
/// names stand for.
#[verifier::external_body]
pub(crate) fn parse_address(input: &str) -> (parsed: Option<ParsedAddress>)
    ensures
        parsed is Some <==> parsed_text(input@) is Some,
        parsed matches Some(p) ==> {
            &&& p.text@ == parsed_text(input@)->0
            &&& p.stem@ == parsed_stem(input@)
        },
{
    match Url::parse(input) {
        Ok(address) => Some(
            ParsedAddress {
                stem: address[..Position::AfterPath].to_owned(),
                text: String::from(address),
            },
        ),
        Err(_) => None,
    }
}

/// Calls `url::Url::join` on the address parsed from `base`, and hands out
/// the serialization of the result.
#[verifier::external_body]
pub(crate) fn join_address(base: &str, reference: &str) -> (joined: Option<String>)
    ensures
        joined is Some <==> joined_text(base@, reference@) is Some,
        joined matches Some(text) ==> text@ == joined_text(base@, reference@)->0,
{
    match Url::parse(base) {
        Ok(address) => match address.join(reference) {
            Ok(target) => Some(String::from(target)),
            Err(_) => None,
        },
        Err(_) => None,
    }
}

/// Canonicalizes an address: query and fragment are dropped, scheme,
/// authority and path stay. Malformed input gives `None`.
///
/// The input is parsed, its stem is parsed once more, and the text that
/// this gives is the result where it is canonical: parsed a third time it
/// comes back unchanged and is its own stem. So the result is a fixed
/// point: normalizing it again gives the same text. A text that is not
/// stable in this way is no key to fetch a page under, and gives `None`.
pub fn normalize_url(url: &str) -> (canonical: Option<String>)
    ensures
        canonical is Some <==> normalized(url@) is Some,
        canonical matches Some(text) ==> {
            &&& text@ == normalized(url@)->0
            &&& is_canonical(text@)
            &&& normalized(text@) == Some(text@)
        },
{
    let first = match parse_address(url) {
        Some(first) => first,
        None => {
            return None;
        },
    };
    let second = match parse_address(first.stem.as_str()) {
        Some(second) => second,
        None => {
            return None;
        },
    };
    match parse_address(second.text.as_str()) {
        None => None,
        Some(third) => {
            if same_text(third.text.as_str(), second.text.as_str()) && same_text(
                third.stem.as_str(),
                second.text.as_str(),
            ) {
                Some(second.text)
            } else {
                None
            }
        },
    }
}

} // verus!
