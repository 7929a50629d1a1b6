//! URLs as the rest of the library reads them: the serialized form, the host
//! and the path, as the `url` crate parses them.

use vstd::prelude::*;

verus! {

/// A parsed absolute URL, kept as plain strings.
#[derive(Debug)]
pub struct UrlParts {
    /// The full serialization (`Url::as_str`).
    pub href: String,
    /// The host, when the URL has one (`Url::host_str`).
    pub host: Option<String>,
    /// The path, without query or fragment (`Url::path`).
    pub path: String,
}

/// The mathematical value of a [`UrlParts`].
pub struct UrlView {
    pub href: Seq<char>,
    pub host: Option<Seq<char>>,
    pub path: Seq<char>,
}

/// The characters of an optional string.
pub open spec fn opt_view(s: Option<String>) -> Option<Seq<char>> {
    match s {
        Some(t) => Some(t@),
        None => None,
    }
}

/// The value of an optional URL.
pub open spec fn opt_url_view(u: Option<UrlParts>) -> Option<UrlView> {
    match u {
        Some(v) => Some(v@),
        None => None,
    }
}

impl View for UrlParts {
    type V = UrlView;

    open spec fn view(&self) -> UrlView {
        UrlView { href: self.href@, host: opt_view(self.host), path: self.path@ }
    }
}

impl Clone for UrlParts {
    fn clone(&self) -> (r: Self)
        ensures
            r@ == self@,
    {
        let host = match &self.host {
            Some(h) => Some(h.clone()),
            None => None,
        };
        UrlParts { href: self.href.clone(), host, path: self.path.clone() }
    }
}

/// What `url::Url::parse` makes of a string: `None` where it is refused.
pub uninterp spec fn parsed_url(s: Seq<char>) -> Option<UrlView>;

/// What `url::Url::join` makes of a reference resolved against the URL whose
/// serialization is `base`: `None` where it is refused.
pub uninterp spec fn joined_url(base: Seq<char>, reference: Seq<char>) -> Option<UrlView>;

/// Relies on `url::Url::parse`; `as_str`, `host_str` and `path` only read the
/// parsed value.
#[verifier::external_body]
fn parse_raw(s: &str) -> (r: Option<UrlParts>)
    ensures
        opt_url_view(r) == parsed_url(s@),
{
    url::Url::parse(s).ok().map(|u| UrlParts {
        href: u.as_str().to_string(),
        host: u.host_str().map(|h| h.to_string()),
        path: u.path().to_string(),
    })
}

/// Parses an absolute URL.
pub fn parse_url(s: &str) -> (r: Option<UrlParts>)
    ensures
        opt_url_view(r) == parsed_url(s@),
{
    parse_raw(s)
}

/// Relies on `url::Url::join`, applied to `base` as `url::Url::parse` reads its
/// serialization; `as_str`, `host_str` and `path` only read the result.
#[verifier::external_body]
fn join_raw(base: &str, reference: &str) -> (r: Option<UrlParts>)
    ensures
        opt_url_view(r) == joined_url(base@, reference@),
{
    let base = url::Url::parse(base).ok()?;
    base.join(reference).ok().map(|u| UrlParts {
        href: u.as_str().to_string(),
        host: u.host_str().map(|h| h.to_string()),
        path: u.path().to_string(),
    })
}

/// Resolves `reference` against `base`, as a browser resolves a link.
pub fn join_url(base: &UrlParts, reference: &str) -> (r: Option<UrlParts>)
    ensures
        opt_url_view(r) == joined_url(base@.href, reference@),
{
    join_raw(base.href.as_str(), reference)
}

} // verus!
