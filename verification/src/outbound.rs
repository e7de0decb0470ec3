//! The host-side policy step in front of outbound HTTP requests. A
//! component's grant is consulted before any network work: a destination
//! that the allow-list does not admit is rejected with a policy-denial
//! error, so no socket, lookup or byte can be spent on it. Only an admitted
//! request is handed onward in a plain form for the transport layer to
//! send.

use vstd::prelude::*;

use crate::allowed_hosts::{
    any_sentinel, err_msgs, invalid_hosts_message, ok_models, parse_allowed_http_hosts,
    AllowedHttpHost, AllowedHttpHosts, HostsError,
};
use crate::url_parts::{parse_url, url_parse};

verus! {

/// An outbound request's method.
#[derive(Clone, Copy, Debug, PartialEq, Eq)]
pub enum Method {
    Get,
    Post,
    Put,
    Delete,
    Patch,
    Head,
    Options,
}

impl Method {
    /// The method's wire name.
    pub fn as_str(&self) -> (r: &'static str)
        ensures
            r@ == match self {
                Method::Get => "GET"@,
                Method::Post => "POST"@,
                Method::Put => "PUT"@,
                Method::Delete => "DELETE"@,
                Method::Patch => "PATCH"@,
                Method::Head => "HEAD"@,
                Method::Options => "OPTIONS"@,
            },
    {
        match self {
            Method::Get => "GET",
            Method::Post => "POST",
            Method::Put => "PUT",
            Method::Delete => "DELETE",
            Method::Patch => "PATCH",
            Method::Head => "HEAD",
            Method::Options => "OPTIONS",
        }
    }
}

/// An outbound request as the guest hands it over.
pub struct Request {
    /// The request method.
    pub method: Method,
    /// The destination URL, as text.
    pub uri: String,
    /// The request headers, as name/value pairs.
    pub headers: Vec<(String, String)>,
    /// Deprecated query parameters; carried but unused.
    pub params: Vec<(String, String)>,
    /// The request body, if any.
    pub body: Option<Vec<u8>>,
}

/// A response handed back to the guest.
pub struct Response {
    /// The response status code.
    pub status: u16,
    /// The response headers, when the transport could read them.
    pub headers: Option<Vec<(String, String)>>,
    /// The response body, if any.
    pub body: Option<Vec<u8>>,
}

/// The guest-facing error surface of the outbound gate. A policy denial is
/// its own class, never conflated with transport failures.
#[derive(Clone, Copy, Debug, PartialEq, Eq)]
pub enum HttpError {
    /// The grant does not admit the destination. No I/O was performed.
    DestinationNotAllowed,
    /// The destination could not be read as a URL.
    InvalidUrl,
    /// The request could not be built.
    RequestError,
    /// A transport or internal fault.
    RuntimeError,
}

/// Whether `http::HeaderName` accepts the given text as a header name.
pub uninterp spec fn header_name_ok(s: Seq<char>) -> bool;

/// Whether `http::HeaderValue` accepts the given text as a header value.
pub uninterp spec fn header_value_ok(s: Seq<char>) -> bool;

/// Relies on http::header::HeaderName::from_bytes: acceptance depends on
/// the name's text alone.
#[verifier::external_body]
fn header_name_valid(name: &str) -> (r: bool)
    ensures
        r == header_name_ok(name@),
{
    http::header::HeaderName::from_bytes(name.as_bytes()).is_ok()
}

/// Relies on http::header::HeaderValue::from_str: acceptance depends on the
/// value's text alone.
#[verifier::external_body]
fn header_value_valid(value: &str) -> (r: bool)
    ensures
        r == header_value_ok(value@),
{
    http::header::HeaderValue::from_str(value).is_ok()
}

/// Whether every header pair would be accepted by the transport's header
/// map.
pub open spec fn headers_ok(headers: Seq<(String, String)>) -> bool {
    forall|i: int| 0 <= i < headers.len() ==> header_name_ok((#[trigger] headers[i]).0@)
        && header_value_ok(headers[i].1@)
}

fn validate_headers(headers: &Vec<(String, String)>) -> (r: bool)
    ensures
        r == headers_ok(headers@),
{
    let mut i: usize = 0;
    while i < headers.len()
        invariant
            i <= headers@.len(),
            forall|j: int| 0 <= j < i ==> header_name_ok((#[trigger] headers@[j]).0@)
                && header_value_ok(headers@[j].1@),
        decreases headers@.len() - i,
    {
        if !header_name_valid(headers[i].0.as_str()) || !header_value_valid(
            headers[i].1.as_str(),
        ) {
            return false;
        }
        i = i + 1;
    }
    true
}

/// An admitted request, in the plain form the transport layer sends: the
/// grant allows the destination, and every header name and value is one
/// the transport's header map accepts.
pub struct PreparedRequest {
    /// The request method.
    pub method: Method,
    /// The admitted destination.
    pub uri: String,
    /// The validated headers.
    pub headers: Vec<(String, String)>,
    /// The body bytes; an absent body becomes empty.
    pub body: Vec<u8>,
}

/// The outbound-HTTP state of one component instance: the allow-list its
/// grant resolved to. Attached at preparation time and read, never
/// recomputed, on every request.
pub struct OutboundHttp {
    /// The hosts the component may reach.
    pub allowed_hosts: AllowedHttpHosts,
}

impl Default for OutboundHttp {
    /// A fresh instance state permits nothing.
    fn default() -> (r: Self)
        ensures
            r.allowed_hosts matches AllowedHttpHosts::AllowSpecific(v) && v@.len() == 0,
    {
        OutboundHttp { allowed_hosts: AllowedHttpHosts::default() }
    }
}

impl OutboundHttp {
    /// Checks whether the guest may send a request to `url`: the text must
    /// parse as a URL, and the grant's allow-list must admit it.
    pub fn is_allowed(&self, url: &str) -> (r: Result<bool, HttpError>)
        ensures
            match url_parse(url@) {
                Ok(p) => r == Ok::<bool, HttpError>(self.allowed_hosts.allows(&p)),
                Err(_) => r == Err::<bool, HttpError>(HttpError::InvalidUrl),
            },
    {
        match parse_url(url) {
            Ok(p) => Ok(self.allowed_hosts.allow(&p)),
            Err(_) => Err(HttpError::InvalidUrl),
        }
    }

    /// Consults the grant in front of every outbound request, with no I/O
    /// of any kind: a destination the allow-list does not admit is refused
    /// as `DestinationNotAllowed` before any request exists to send. Only
    /// an admitted request is prepared for the transport.
    pub fn prepare_request(&self, req: Request) -> (r: Result<PreparedRequest, HttpError>)
        ensures
            url_parse(req.uri@) is Err ==> r == Err::<PreparedRequest, HttpError>(
                HttpError::RuntimeError,
            ),
            (url_parse(req.uri@) matches Ok(p) && !self.allowed_hosts.allows(&p)) ==> r == Err::<
                PreparedRequest,
                HttpError,
            >(HttpError::DestinationNotAllowed),
            (url_parse(req.uri@) matches Ok(p) && self.allowed_hosts.allows(&p) && !headers_ok(
                req.headers@,
            )) ==> r == Err::<PreparedRequest, HttpError>(HttpError::RuntimeError),
            (url_parse(req.uri@) matches Ok(p) && self.allowed_hosts.allows(&p) && headers_ok(
                req.headers@,
            )) ==> (r matches Ok(prep) && prep.method == req.method && prep.uri@ == req.uri@
                && prep.headers@ == req.headers@ && prep.body@ == (match req.body {
                Some(b) => b@,
                None => Seq::<u8>::empty(),
            })),
    {
        let allowed = match self.is_allowed(req.uri.as_str()) {
            Ok(b) => b,
            Err(_) => {
                return Err(HttpError::RuntimeError);
            },
        };
        if !allowed {
            return Err(HttpError::DestinationNotAllowed);
        }
        if !validate_headers(&req.headers) {
            return Err(HttpError::RuntimeError);
        }
        let body = match req.body {
            Some(b) => b,
            None => Vec::new(),
        };
        Ok(PreparedRequest { method: req.method, uri: req.uri, headers: req.headers, body })
    }
}

/// A component whose instances carry outbound-HTTP state.
pub struct OutboundHttpComponent;

impl OutboundHttpComponent {
    /// The state a fresh instance starts with: nothing is permitted.
    pub fn build_data(&self) -> (r: OutboundHttp)
        ensures
            r.allowed_hosts matches AllowedHttpHosts::AllowSpecific(v) && v@.len() == 0,
    {
        OutboundHttp::default()
    }

    /// Resolves the component's declared outbound-host metadata into the
    /// instance's grant. Runs once at preparation time; a malformed list
    /// fails the preparation and leaves the instance state unchanged.
    pub fn update_data(&self, data: &mut OutboundHttp, hosts: &Option<Vec<String>>) -> (r: Result<
        (),
        HostsError,
    >)
        ensures
            hosts is None ==> (r is Ok && (final(data).allowed_hosts matches
                AllowedHttpHosts::AllowSpecific(v) && v@.len() == 0)),
            hosts matches Some(list) ==> {
                let lv = list.deep_view();
                &&& any_sentinel(lv) ==> (r is Ok && final(data).allowed_hosts
                    == AllowedHttpHosts::AllowAll)
                &&& !any_sentinel(lv) && err_msgs(lv).len() == 0 ==> (r is Ok
                    && (final(data).allowed_hosts matches AllowedHttpHosts::AllowSpecific(v)
                    && v@.map_values(|h: AllowedHttpHost| h@) == ok_models(lv)))
                &&& !any_sentinel(lv) && err_msgs(lv).len() > 0 ==> (r matches Err(e) && e.message@
                    == invalid_hosts_message(lv) && *final(data) == *old(data))
            },
    {
        match parse_allowed_http_hosts(hosts) {
            Ok(parsed) => {
                data.allowed_hosts = parsed;
                Ok(())
            },
            Err(e) => Err(e),
        }
    }
}

/// The description under which a failed outbound request is logged,
/// classified from what the transport reports of the failure.
pub fn request_error_description(
    is_timeout: bool,
    is_connect: bool,
    is_body: bool,
    is_decode: bool,
    is_request: bool,
) -> (r: &'static str)
    ensures
        r@ == error_description_spec(is_timeout, is_connect, is_body, is_decode, is_request),
{
    if is_timeout {
        "timeout error"
    } else if is_connect {
        "connection error"
    } else if is_body || is_decode {
        "message body error"
    } else if is_request {
        "request error"
    } else {
        "error"
    }
}

/// The classification of a transport failure, in the order the flags are
/// consulted.
pub open spec fn error_description_spec(
    is_timeout: bool,
    is_connect: bool,
    is_body: bool,
    is_decode: bool,
    is_request: bool,
) -> Seq<char> {
    if is_timeout {
        "timeout error"@
    } else if is_connect {
        "connection error"@
    } else if is_body || is_decode {
        "message body error"@
    } else if is_request {
        "request error"@
    } else {
        "error"@
    }
}

} // verus!
