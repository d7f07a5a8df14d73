//! URLs, which the `url` crate parses.

use crate::protocol::Url;
use vstd::prelude::*;

verus! {

/// What `Url::parse` of the `url` crate makes of a text: nothing where it
/// refuses the text, else the serialization of the URL and the path part
/// of it.
pub uninterp spec fn parsed_url(input: Seq<char>) -> Option<(Seq<char>, Seq<char>)>;

/// Parses an absolute URL with `Url::parse` of the `url` crate, which
/// `lsp_types` hands on, and reads the result with `Url::as_str` and
/// `Url::path`. The parser works on its argument alone, with no base URL
/// and no setting, so the same text always gives the same URL: the contract
/// claims that and no more.
#[verifier::external_body]
pub(crate) fn parse_url(input: &str) -> (url: Option<Url>)
    ensures
        url.deep_view() == parsed_url(input@),
{
    match lsp_types::Url::parse(input) {
        Ok(url) => Some(Url { text: url.as_str().to_owned(), path: url.path().to_owned() }),
        Err(_) => None,
    }
}

} // verus!
