//! Which URLs the overlay agrees to open in the browser.
use vstd::prelude::*;
use crate::events::opt_view;

verus! {

/// The scheme of `s` parsed as a URL by `url::Url::parse` (lower case, as
/// the `url` crate reports it), `None` when the `url` crate rejects it.
pub uninterp spec fn url_scheme_of(s: Seq<char>) -> Option<Seq<char>>;

/// Parses `s` with `url::Url::parse` and takes its `scheme()`. The
/// contract claims that the result is what [`url_scheme_of`] names for
/// `s`.
#[verifier::external_body]
fn url_scheme(s: &str) -> (r: Option<String>)
    ensures
        opt_view(r) == url_scheme_of(s@),
{
    match url::Url::parse(s) {
        Ok(u) => Some(u.scheme().to_string()),
        Err(_) => None,
    }
}

/// A URL may be opened when it parses with the `http` or `https` scheme.
pub open spec fn openable(url: Seq<char>) -> bool {
    url_scheme_of(url) == Some("http"@) || url_scheme_of(url) == Some("https"@)
}

/// Whether `url` may be opened in the browser: only well-formed `http`
/// and `https` URLs are; other schemes (`javascript:`, `file:`, `data:`)
/// and malformed text are refused.
pub fn may_open(url: &str) -> (r: bool)
    ensures
        r == openable(url@),
{
    match url_scheme(url) {
        Some(s) => crate::text::str_eq(s.as_str(), "http") || crate::text::str_eq(s.as_str(), "https"),
        None => false,
    }
}

} // verus!
