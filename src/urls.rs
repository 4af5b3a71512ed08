//! What the crawler reads from a URL: its normal form and its domain.

use vstd::prelude::*;
use crate::types::opt_view;

verus! {

/// The serialization and the domain (none for an IP address or a URL without
/// host) of the URL that a text parses to; none where the text does not parse
/// as an absolute URL.
pub uninterp spec fn parsed_url(s: Seq<char>) -> Option<(Seq<char>, Option<Seq<char>>)>;

/// Relies on `url::Url::parse`, read through `Url::as_str` and `Url::domain`:
/// whether a text parses, and the serialization and domain of what it parses
/// to, depend on the text alone.
#[verifier::external_body]
pub(crate) fn parse_url(s: &str) -> (r: Result<(String, Option<String>), url::ParseError>)
    ensures
        match r {
            Ok((text, domain)) => parsed_url(s@) == Some((text@, opt_view(domain))),
            Err(_) => parsed_url(s@) is None,
        },
{
    match url::Url::parse(s) {
        Ok(u) => {
            let domain = match u.domain() {
                Some(d) => Some(d.to_string()),
                None => None,
            };
            Ok((u.as_str().to_string(), domain))
        },
        Err(e) => Err(e),
    }
}

/// The domain of the URL a text parses to, if it has one.
pub open spec fn domain_of(s: Seq<char>) -> Option<Seq<char>> {
    match parsed_url(s) {
        Some((_, d)) => d,
        None => None,
    }
}

} // verus!
