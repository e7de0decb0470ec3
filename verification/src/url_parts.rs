//! A parsed URL, modelled as the plain values the policy matcher reads:
//! scheme, host, optional port, and path. Parsing itself is done by the
//! `url` crate behind a trusted wrapper.

use vstd::prelude::*;

verus! {

/// The pieces of a URL that the capability layer inspects.
pub struct UrlParts {
    /// The URL's scheme, e.g. `http`.
    pub scheme: String,
    /// The URL's host, if it has one.
    pub host: Option<String>,
    /// The URL's explicit port; `None` when the URL uses its scheme's
    /// default port.
    pub port: Option<u16>,
    /// The URL's path, `/` when no path was given.
    pub path: String,
}

/// What `url::Url::parse` returns for the given text: the parts of the
/// parsed URL, or the parser's error message.
pub uninterp spec fn url_parse(s: Seq<char>) -> Result<UrlParts, Seq<char>>;

/// Relies on url::Url::parse: the outcome is a function of the input text
/// alone; scheme, host, port and path are read off the parsed URL, and the
/// error case carries the parse error's message. For the special `http`
/// and `https` schemes the parser rejects an empty host, so a parsed URL of
/// either scheme always carries one.
#[verifier::external_body]
pub fn parse_url(text: &str) -> (r: Result<UrlParts, String>)
    ensures
        match r {
            Ok(p) => url_parse(text@) is Ok && p == url_parse(text@)->Ok_0,
            Err(e) => url_parse(text@) is Err && e@ == url_parse(text@)->Err_0,
        },
        r matches Ok(p) ==> ((p.scheme@ == "http"@ || p.scheme@ == "https"@) ==> p.host is Some),
{
    match url::Url::parse(text) {
        Ok(u) => Ok(UrlParts {
            scheme: u.scheme().to_string(),
            host: u.host_str().map(|h| h.to_string()),
            port: u.port(),
            path: u.path().to_string(),
        }),
        Err(e) => Err(e.to_string()),
    }
}

} // verus!
