//! Absolute URLs, as the `url` crate understands them.

use vstd::prelude::*;

verus! {

/// The path of an absolute URL, as `url::Url::parse` and `url::Url::path`
/// give it, or nothing where the text does not parse as an absolute URL.
pub uninterp spec fn url_path(url: Seq<char>) -> Option<Seq<char>>;

/// The error type of the `url` crate, carried through unread.
#[verifier::external_type_specification]
#[verifier::external_body]
pub struct ExUrlParseError(url::ParseError);

/// Trusted: parses the text with `url::Url::parse` and copies what
/// `url::Url::path` returns. The contract names the outcome, which depends
/// on the text alone.
#[verifier::external_body]
pub(crate) fn path_of_url(url: &str) -> (outcome: Result<String, url::ParseError>)
    ensures
        match outcome {
            Ok(path) => url_path(url@) == Some(path@),
            Err(_) => url_path(url@) is None,
        },
{
    match url::Url::parse(url) {
        Ok(parsed) => Ok(parsed.path().to_string()),
        Err(e) => Err(e),
    }
}

} // verus!
