//! The parts of a parsed URL that the library reads, held as plain strings.
use vstd::prelude::*;

verus! {

#[verifier::external_type_specification]
#[verifier::external_body]
pub struct ExUrlParseError(url::ParseError);

/// Whether the URL parser accepts `s` as an absolute URL.
pub uninterp spec fn url_accepts(s: Seq<char>) -> bool;

/// The serialization of the URL parsed from `s`.
pub uninterp spec fn url_serialization(s: Seq<char>) -> Seq<char>;

/// The scheme of the URL parsed from `s`.
pub uninterp spec fn url_scheme(s: Seq<char>) -> Seq<char>;

/// The host of the URL parsed from `s`, as written in its serialization.
pub uninterp spec fn url_host(s: Seq<char>) -> Option<Seq<char>>;

/// The path of the URL parsed from `s`, percent-encoded.
pub uninterp spec fn url_path(s: Seq<char>) -> Seq<char>;

/// The view of an optional string.
pub open spec fn opt_view(o: Option<String>) -> Option<Seq<char>> {
    match o {
        Some(s) => Some(s@),
        None => None,
    }
}

/// An absolute URL, kept as the strings that the library reads from it.
#[derive(Debug, Clone)]
pub struct ParsedUrl {
    /// The whole URL as the parser serializes it.
    pub serialization: String,
    /// The scheme, without `:`.
    pub scheme: String,
    /// The host, if the URL has one.
    pub host: Option<String>,
    /// The path; it starts with `/` unless the URL cannot be a base.
    pub path: String,
}

/// A URL with a host has an empty path or one that starts with `/`.
pub open spec fn path_after_host(u: ParsedUrl) -> bool {
    u.host is Some && u.path@.len() > 0 ==> u.path@[0] == '/'
}

/// `u` holds what the parser made of `s`.
pub open spec fn parsed_from(u: ParsedUrl, s: Seq<char>) -> bool {
    &&& u.serialization@ == url_serialization(s)
    &&& u.scheme@ == url_scheme(s)
    &&& opt_view(u.host) == url_host(s)
    &&& u.path@ == url_path(s)
}

/// Relies on `url::Url::parse`, with `as_str`, `scheme`, `host_str` and
/// `path` of the result: each is determined by the text parsed. A URL with a
/// host is not cannot-be-a-base, and `path` documents that the path of such
/// a URL starts with `/`.
#[verifier::external_body]
fn parse_url(s: &str) -> (r: Result<ParsedUrl, url::ParseError>)
    ensures
        r is Ok <==> url_accepts(s@),
        r matches Ok(u) ==> u.serialization@ == url_serialization(s@),
        r matches Ok(u) ==> u.scheme@ == url_scheme(s@),
        r matches Ok(u) ==> opt_view(u.host) == url_host(s@),
        r matches Ok(u) ==> u.path@ == url_path(s@),
        r matches Ok(u) ==> (u.host is Some && u.path@.len() > 0 ==> u.path@[0] == '/'),
{
    let u = url::Url::parse(s)?;
    Ok(ParsedUrl {
        serialization: u.as_str().to_string(),
        scheme: u.scheme().to_string(),
        host: u.host_str().map(|h| h.to_string()),
        path: u.path().to_string(),
    })
}

impl ParsedUrl {
    /// Parses `s` as an absolute URL.
    pub fn parse(s: &str) -> (r: Result<ParsedUrl, url::ParseError>)
        ensures
            r is Ok <==> url_accepts(s@),
            r matches Ok(u) ==> parsed_from(u, s@) && path_after_host(u),
    {
        parse_url(s)
    }

    /// A copy of this URL.
    pub fn duplicate(&self) -> (r: ParsedUrl)
        ensures
            r == *self,
    {
        let host = match &self.host {
            Some(h) => Some(h.clone()),
            None => None,
        };
        ParsedUrl {
            serialization: self.serialization.clone(),
            scheme: self.scheme.clone(),
            host,
            path: self.path.clone(),
        }
    }

    /// The host, or an empty string where the URL has none.
    pub fn host_or_empty(&self) -> (r: String)
        ensures
            r@ == match self.host {
                Some(h) => h@,
                None => Seq::<char>::empty(),
            },
    {
        match &self.host {
            Some(h) => h.clone(),
            None => String::new(),
        }
    }
}

} // verus!
