//! The outbound-host allow-list: a pure policy matcher deciding whether a
//! destination URL is permitted, and the capability resolver that builds a
//! matcher from a component's declared metadata, failing closed on malformed
//! input and reporting every malformed entry at once.

use vstd::prelude::*;

use crate::strutil::{joined, join_strings, str_eq};
use crate::url_parts::{url_parse, parse_url, UrlParts};

verus! {

/// The literal that grants access to every host.
pub const ALLOW_ALL_HOSTS: &'static str = "insecure:allow-all";

/// An HTTP host allow-list entry.
#[derive(Clone, Debug, PartialEq, Eq)]
pub struct AllowedHttpHost {
    /// The host name the entry admits.
    pub domain: String,
    /// The admitted port; `None` admits only the scheme's default port.
    pub port: Option<u16>,
}

impl View for AllowedHttpHost {
    type V = (Seq<char>, Option<u16>);

    open spec fn view(&self) -> (Seq<char>, Option<u16>) {
        (self.domain@, self.port)
    }
}

/// True of the schemes the matcher admits at all.
pub open spec fn is_http_scheme(s: Seq<char>) -> bool {
    s == "http"@ || s == "https"@
}

impl AllowedHttpHost {
    /// Whether the entry's domain matches the URL's host; a URL without a
    /// host matches only an entry with an empty domain.
    pub open spec fn domain_matches(&self, url: &UrlParts) -> bool {
        match url.host {
            Some(h) => self.domain@ == h@,
            None => self.domain@ == Seq::<char>::empty(),
        }
    }

    /// Whether the entry admits the URL: the scheme is `http` or `https`
    /// (whichever one, regardless of the scheme the entry was declared
    /// with), the domain matches the URL's host, and the declared port
    /// equals the URL's explicit port.
    pub open spec fn allows(&self, url: &UrlParts) -> bool {
        &&& is_http_scheme(url.scheme@)
        &&& self.domain_matches(url)
        &&& self.port == url.port
    }

    /// Creates a new allow-list entry.
    pub fn new(name: &str, port: Option<u16>) -> (r: Self)
        ensures
            r.domain@ == name@,
            r.port == port,
    {
        AllowedHttpHost { domain: String::from_str(name), port }
    }

    /// An allow-list entry that specifies a host and allows the default port.
    pub fn host(name: &str) -> (r: Self)
        ensures
            r.domain@ == name@,
            r.port is None,
    {
        AllowedHttpHost { domain: String::from_str(name), port: None }
    }

    /// An allow-list entry that specifies a host and port.
    pub fn host_and_port(name: &str, port: u16) -> (r: Self)
        ensures
            r.domain@ == name@,
            r.port == Some(port),
    {
        AllowedHttpHost { domain: String::from_str(name), port: Some(port) }
    }

    /// Tests whether the entry admits the given URL.
    pub fn allow(&self, url: &UrlParts) -> (r: bool)
        ensures
            r == self.allows(url),
    {
        let scheme_ok = str_eq(url.scheme.as_str(), "http") || str_eq(url.scheme.as_str(), "https");
        let host_ok = match &url.host {
            Some(h) => str_eq(self.domain.as_str(), h.as_str()),
            None => {
                let r = self.domain.as_str().is_empty();
                proof {
                    if r {
                        assert(self.domain@ =~= Seq::<char>::empty());
                    }
                }
                r
            },
        };
        let port_ok = match (self.port, url.port) {
            (Some(a), Some(b)) => a == b,
            (None, None) => true,
            _ => false,
        };
        scheme_ok && host_ok && port_ok
    }
}

/// An HTTP host allow-list.
#[derive(Clone, Debug, PartialEq, Eq)]
pub enum AllowedHttpHosts {
    /// All HTTP hosts are allowed (the `insecure:allow-all` value was
    /// present in the source list).
    AllowAll,
    /// Only the specified hosts are allowed.
    AllowSpecific(Vec<AllowedHttpHost>),
}

/// Whether some entry of the list admits the URL.
pub open spec fn any_entry_allows(entries: Seq<AllowedHttpHost>, url: &UrlParts) -> bool {
    exists|i: int| 0 <= i < entries.len() && #[trigger] entries[i].allows(url)
}

impl AllowedHttpHosts {
    /// Whether the allow-list admits the URL: everything under `AllowAll`,
    /// and under `AllowSpecific` any URL some entry admits.
    pub open spec fn allows(&self, url: &UrlParts) -> bool {
        match self {
            AllowedHttpHosts::AllowAll => true,
            AllowedHttpHosts::AllowSpecific(hosts) => any_entry_allows(hosts@, url),
        }
    }

    /// Tests whether the given URL is allowed according to the allow-list.
    pub fn allow(&self, url: &UrlParts) -> (r: bool)
        ensures
            r == self.allows(url),
    {
        match self {
            AllowedHttpHosts::AllowAll => true,
            AllowedHttpHosts::AllowSpecific(hosts) => {
                let mut i: usize = 0;
                while i < hosts.len()
                    invariant
                        i <= hosts.len(),
                        self.allows(url) == any_entry_allows(hosts@, url),
                        forall|j: int| 0 <= j < i ==> !hosts@[j].allows(url),
                    decreases hosts.len() - i,
                {
                    if hosts[i].allow(url) {
                        proof {
                            assert(any_entry_allows(hosts@, url)) by {
                                assert(0 <= i < hosts@.len() && hosts@[i as int].allows(url));
                            }
                        }
                        return true;
                    }
                    i = i + 1;
                }
                false
            },
        }
    }
}

impl Default for AllowedHttpHosts {
    /// The default allow-list permits nothing.
    fn default() -> (r: Self)
        ensures
            r matches AllowedHttpHosts::AllowSpecific(v) && v@.len() == 0,
    {
        AllowedHttpHosts::AllowSpecific(Vec::new())
    }
}

/// Every URL is permitted under the all-hosts grant.
pub proof fn law_allow_all_permits(url: &UrlParts)
    ensures
        AllowedHttpHosts::AllowAll.allows(url),
{
}

/// A one-entry allow-list whose entry declares a port admits exactly the
/// URLs whose scheme is `http` or `https`, whose host matches the entry's
/// domain, and whose explicit port equals the declared one. On a URL that
/// carries a host — every parsed http or https URL does — the host match is
/// plain equality with the entry's domain.
pub proof fn law_single_entry_with_port(hosts: Vec<AllowedHttpHost>, url: UrlParts, p: u16)
    requires
        hosts@.len() == 1,
        hosts@[0].port == Some(p),
    ensures
        AllowedHttpHosts::AllowSpecific(hosts).allows(&url) <==> {
            &&& is_http_scheme(url.scheme@)
            &&& hosts@[0].domain_matches(&url)
            &&& url.port == Some(p)
        },
        url.host matches Some(h) ==> (AllowedHttpHosts::AllowSpecific(hosts).allows(&url) <==> {
            &&& is_http_scheme(url.scheme@)
            &&& h@ == hosts@[0].domain@
            &&& url.port == Some(p)
        }),
{
    if hosts@[0].allows(&url) {
        assert(any_entry_allows(hosts@, &url)) by {
            assert(0 <= 0 < hosts@.len() && hosts@[0].allows(&url));
        }
    }
}

/// An empty allow-list (what an absent metadata list resolves to) permits
/// no URL at all.
pub proof fn law_empty_list_denies(hosts: Vec<AllowedHttpHost>, url: UrlParts)
    requires
        hosts@.len() == 0,
    ensures
        !AllowedHttpHosts::AllowSpecific(hosts).allows(&url),
{
}

/// The aggregate error of the capability resolver: one message that lists
/// every malformed allow-list entry found in one pass.
#[derive(Clone, Debug, PartialEq, Eq)]
pub struct HostsError {
    /// The full error message, naming each malformed entry.
    pub message: String,
}

/// Whether the text holds the `//` scheme delimiter anywhere.
pub open spec fn has_scheme_delim(s: Seq<char>) -> bool {
    exists|i: int| 0 <= i && i + 1 < s.len() && #[trigger] s[i] == '/' && s[i + 1] == '/'
}

fn contains_scheme_delim(text: &str) -> (r: bool)
    ensures
        r == has_scheme_delim(text@),
{
    let len = text.unicode_len();
    if len < 2 {
        return false;
    }
    let mut i: usize = 0;
    while i + 1 < len
        invariant
            len == text@.len(),
            2 <= len,
            i + 1 <= len,
            forall|j: int| 0 <= j < i ==> !(#[trigger] text@[j] == '/' && text@[j + 1] == '/'),
        decreases len - i,
    {
        if text.get_char(i) == '/' && text.get_char(i + 1) == '/' {
            proof {
                assert(0 <= i && i + 1 < text@.len() && text@[i as int] == '/' && text@[i as int
                    + 1] == '/');
            }
            return true;
        }
        i = i + 1;
    }
    false
}

/// What an allow-list entry becomes once its text has been parsed as a URL:
/// the URL must carry a host and at most the root path.
pub open spec fn entry_from_url(p: UrlParts, text: Seq<char>) -> Result<
    (Seq<char>, Option<u16>),
    Seq<char>,
> {
    if p.host is None {
        Err(text + " doesn't contain a host name"@)
    } else if p.path@.len() > 1 {
        Err(text + " contains a path, should be host and optional port only"@)
    } else {
        Ok((p.host.unwrap()@, p.port))
    }
}

/// What a single raw allow-list entry resolves to: an entry with the `//`
/// delimiter is parsed as a full URL and must carry an http or https
/// scheme; a bare `host[:port]` entry is parsed around a synthesized
/// `http://` prefix.
pub open spec fn parsed_entry(text: Seq<char>) -> Result<(Seq<char>, Option<u16>), Seq<char>> {
    if has_scheme_delim(text) {
        match url_parse(text) {
            Ok(p) => if !is_http_scheme(p.scheme@) {
                Err(text + " isn't a valid host or host:port string"@)
            } else {
                entry_from_url(p, text)
            },
            Err(e) => Err(text + " isn't a valid HTTP host URL: "@ + e),
        }
    } else {
        match url_parse("http://"@ + text) {
            Ok(p) => entry_from_url(p, text),
            Err(_) => Err(text + " isn't a valid host or host:port string"@),
        }
    }
}

/// Whether the parse result `r` stands for what `parsed_entry` gives on
/// `text`.
pub open spec fn result_models(r: Result<AllowedHttpHost, String>, text: Seq<char>) -> bool {
    match r {
        Ok(h) => parsed_entry(text) is Ok && h@ == parsed_entry(text)->Ok_0,
        Err(e) => parsed_entry(text) is Err && e@ == parsed_entry(text)->Err_0,
    }
}

fn parse_allowed_http_host_from_http_url(url: UrlParts, text: &str) -> (r: Result<
    AllowedHttpHost,
    String,
>)
    ensures
        match r {
            Ok(h) => entry_from_url(url, text@) is Ok && h@ == entry_from_url(url, text@)->Ok_0,
            Err(e) => entry_from_url(url, text@) is Err && e@ == entry_from_url(url, text@)->Err_0,
        },
{
    match url.host {
        None => Err(String::from_str(text).concat(" doesn't contain a host name")),
        Some(host) => {
            if url.path.as_str().unicode_len() > 1 {
                Err(
                    String::from_str(text).concat(
                        " contains a path, should be host and optional port only",
                    ),
                )
            } else {
                Ok(AllowedHttpHost { domain: host, port: url.port })
            }
        },
    }
}

fn parse_allowed_http_host_from_unschemed(text: &str) -> (r: Result<AllowedHttpHost, String>)
    ensures
        match r {
            Ok(h) => {
                &&& url_parse("http://"@ + text@) matches Ok(p)
                &&& entry_from_url(p, text@) is Ok
                &&& h@ == entry_from_url(p, text@)->Ok_0
            },
            Err(e) => match url_parse("http://"@ + text@) {
                Ok(p) => entry_from_url(p, text@) is Err && e@ == entry_from_url(p, text@)->Err_0,
                Err(_) => e@ == text@ + " isn't a valid host or host:port string"@,
            },
        },
{
    let urlised = String::from_str("http://").concat(text);
    match parse_url(urlised.as_str()) {
        Ok(p) => parse_allowed_http_host_from_http_url(p, text),
        Err(_) => Err(String::from_str(text).concat(" isn't a valid host or host:port string")),
    }
}

fn parse_allowed_http_host_from_schemed(text: &str) -> (r: Result<AllowedHttpHost, String>)
    ensures
        match r {
            Ok(h) => {
                &&& url_parse(text@) matches Ok(p)
                &&& is_http_scheme(p.scheme@)
                &&& entry_from_url(p, text@) is Ok
                &&& h@ == entry_from_url(p, text@)->Ok_0
            },
            Err(e) => match url_parse(text@) {
                Ok(p) => if !is_http_scheme(p.scheme@) {
                    e@ == text@ + " isn't a valid host or host:port string"@
                } else {
                    entry_from_url(p, text@) is Err && e@ == entry_from_url(p, text@)->Err_0
                },
                Err(pe) => e@ == text@ + " isn't a valid HTTP host URL: "@ + pe,
            },
        },
{
    match parse_url(text) {
        Ok(p) => {
            let http = str_eq(p.scheme.as_str(), "http");
            let https = str_eq(p.scheme.as_str(), "https");
            if !(http || https) {
                return Err(
                    String::from_str(text).concat(" isn't a valid host or host:port string"),
                );
            }
            parse_allowed_http_host_from_http_url(p, text)
        },
        Err(e) => Err(
            String::from_str(text).concat(" isn't a valid HTTP host URL: ").concat(e.as_str()),
        ),
    }
}

fn parse_allowed_http_host(text: &str) -> (r: Result<AllowedHttpHost, String>)
    ensures
        result_models(r, text@),
{
    if contains_scheme_delim(text) {
        parse_allowed_http_host_from_schemed(text)
    } else {
        parse_allowed_http_host_from_unschemed(text)
    }
}

/// The `Ok` results of resolving each entry of the list, in order.
pub open spec fn ok_models(lv: Seq<Seq<char>>) -> Seq<(Seq<char>, Option<u16>)>
    decreases lv.len(),
{
    if lv.len() == 0 {
        seq![]
    } else {
        let rest = ok_models(lv.drop_last());
        match parsed_entry(lv.last()) {
            Ok(m) => rest.push(m),
            Err(_) => rest,
        }
    }
}

/// The error messages of the entries of the list that fail to resolve, in
/// order.
pub open spec fn err_msgs(lv: Seq<Seq<char>>) -> Seq<Seq<char>>
    decreases lv.len(),
{
    if lv.len() == 0 {
        seq![]
    } else {
        let rest = err_msgs(lv.drop_last());
        match parsed_entry(lv.last()) {
            Ok(_) => rest,
            Err(e) => rest.push(e),
        }
    }
}

/// Whether any entry of the list is the all-hosts sentinel.
pub open spec fn any_sentinel(lv: Seq<Seq<char>>) -> bool {
    exists|i: int| 0 <= i < lv.len() && #[trigger] lv[i] == "insecure:allow-all"@
}

/// The message of the aggregate resolution error: a fixed header followed
/// by every failing entry's own message, one per line.
pub open spec fn invalid_hosts_message(lv: Seq<Seq<char>>) -> Seq<char> {
    "One or more allowed_http_hosts entries was invalid:\n"@ + joined(err_msgs(lv), "\n"@)
}

/// The `Ok` payloads of a sequence of results, in order.
pub open spec fn oks_of<T, E>(s: Seq<Result<T, E>>) -> Seq<T>
    decreases s.len(),
{
    if s.len() == 0 {
        seq![]
    } else {
        match s.last() {
            Ok(t) => oks_of(s.drop_last()).push(t),
            Err(_) => oks_of(s.drop_last()),
        }
    }
}

/// The `Err` payloads of a sequence of results, in order.
pub open spec fn errs_of<T, E>(s: Seq<Result<T, E>>) -> Seq<E>
    decreases s.len(),
{
    if s.len() == 0 {
        seq![]
    } else {
        match s.last() {
            Ok(_) => errs_of(s.drop_last()),
            Err(e) => errs_of(s.drop_last()).push(e),
        }
    }
}

/// Splits a list of results into its successes and its failures, each in
/// their original order.
pub fn partition_results<T, E>(results: Vec<Result<T, E>>) -> (r: (Vec<T>, Vec<E>))
    ensures
        r.0@ == oks_of(results@),
        r.1@ == errs_of(results@),
{
    let ghost orig = results@;
    let mut rest = results;
    let mut oks: Vec<T> = Vec::new();
    let mut errs: Vec<E> = Vec::new();
    let ghost mut k: int = 0;
    while rest.len() > 0
        invariant
            0 <= k <= orig.len(),
            rest@ == orig.skip(k),
            oks@ == oks_of(orig.take(k)),
            errs@ == errs_of(orig.take(k)),
        decreases rest.len(),
    {
        let x = rest.remove(0);
        proof {
            assert(x == orig[k]);
            assert(orig.take(k + 1).drop_last() =~= orig.take(k));
            assert(orig.take(k + 1).last() == orig[k]);
        }
        match x {
            Ok(t) => oks.push(t),
            Err(e) => errs.push(e),
        }
        proof {
            k = k + 1;
            assert(rest@ =~= orig.skip(k));
        }
    }
    proof {
        assert(orig.take(k) =~= orig);
    }
    (oks, errs)
}

proof fn lemma_partition_models(results: Seq<Result<AllowedHttpHost, String>>, lv: Seq<Seq<char>>)
    requires
        results.len() == lv.len(),
        forall|i: int| 0 <= i < lv.len() ==> result_models(#[trigger] results[i], lv[i]),
    ensures
        oks_of(results).map_values(|h: AllowedHttpHost| h@) == ok_models(lv),
        errs_of(results).map_values(|e: String| e@) == err_msgs(lv),
    decreases lv.len(),
{
    if lv.len() == 0 {
        assert(oks_of(results).map_values(|h: AllowedHttpHost| h@) =~= ok_models(lv));
        assert(errs_of(results).map_values(|e: String| e@) =~= err_msgs(lv));
    } else {
        let rp = results.drop_last();
        let lp = lv.drop_last();
        assert(forall|i: int| 0 <= i < lp.len() ==> result_models(#[trigger] rp[i], lp[i]));
        lemma_partition_models(rp, lp);
        assert(result_models(results.last(), lv.last()));
        match results.last() {
            Ok(h) => {
                assert(oks_of(results) =~= oks_of(rp).push(h));
                assert(errs_of(results) =~= errs_of(rp));
                assert(oks_of(results).map_values(|h2: AllowedHttpHost| h2@) =~= oks_of(
                    rp,
                ).map_values(|h2: AllowedHttpHost| h2@).push(h@));
                assert(oks_of(results).map_values(|h2: AllowedHttpHost| h2@) =~= ok_models(lv));
                assert(errs_of(results).map_values(|e2: String| e2@) =~= err_msgs(lv));
            },
            Err(e) => {
                assert(oks_of(results) =~= oks_of(rp));
                assert(errs_of(results) =~= errs_of(rp).push(e));
                assert(errs_of(results).map_values(|e2: String| e2@) =~= errs_of(rp).map_values(
                    |e2: String| e2@,
                ).push(e@));
                assert(oks_of(results).map_values(|h2: AllowedHttpHost| h2@) =~= ok_models(lv));
                assert(errs_of(results).map_values(|e2: String| e2@) =~= err_msgs(lv));
            },
        }
    }
}

/// Resolves a component's raw outbound-host metadata into an allow-list.
///
/// An absent list grants nothing. A list holding the all-hosts sentinel
/// anywhere resolves to `AllowAll` with no further parsing. Otherwise every
/// entry is parsed independently, and if any fails the whole resolution
/// fails with one error that names every failing entry.
pub fn parse_allowed_http_hosts(raw: &Option<Vec<String>>) -> (r: Result<
    AllowedHttpHosts,
    HostsError,
>)
    ensures
        raw is None ==> (r matches Ok(h) && h matches AllowedHttpHosts::AllowSpecific(v)
            && v@.len() == 0),
        raw matches Some(list) ==> {
            let lv = list.deep_view();
            &&& any_sentinel(lv) ==> r == Ok::<AllowedHttpHosts, HostsError>(
                AllowedHttpHosts::AllowAll,
            )
            &&& !any_sentinel(lv) && err_msgs(lv).len() == 0 ==> (r matches Ok(h)
                && h matches AllowedHttpHosts::AllowSpecific(v) && v@.map_values(
                |h2: AllowedHttpHost| h2@,
            ) == ok_models(lv))
            &&& !any_sentinel(lv) && err_msgs(lv).len() > 0 ==> (r matches Err(e)
                && e.message@ == invalid_hosts_message(lv))
        },
{
    match raw {
        None => Ok(AllowedHttpHosts::AllowSpecific(Vec::new())),
        Some(list) => {
            let ghost lv = list.deep_view();
            proof {
                assert(forall|i: int| 0 <= i < list@.len() ==> #[trigger] lv[i] == list@[i]@);
            }
            let mut i: usize = 0;
            while i < list.len()
                invariant
                    raw matches Some(l) && l == *list,
                    i <= list.len(),
                    lv == list.deep_view(),
                    lv.len() == list@.len(),
                    forall|j: int| 0 <= j < list@.len() ==> #[trigger] lv[j] == list@[j]@,
                    forall|j: int| 0 <= j < i ==> #[trigger] lv[j] != "insecure:allow-all"@,
                decreases list.len() - i,
            {
                if str_eq(list[i].as_str(), ALLOW_ALL_HOSTS) {
                    proof {
                        assert(0 <= i < lv.len() && lv[i as int] == "insecure:allow-all"@);
                    }
                    return Ok(AllowedHttpHosts::AllowAll);
                }
                i = i + 1;
            }
            proof {
                assert(!any_sentinel(lv));
            }
            let mut results: Vec<Result<AllowedHttpHost, String>> = Vec::new();
            let mut j: usize = 0;
            while j < list.len()
                invariant
                    raw matches Some(l) && l == *list,
                    j <= list.len(),
                    lv == list.deep_view(),
                    lv.len() == list@.len(),
                    forall|p: int| 0 <= p < list@.len() ==> #[trigger] lv[p] == list@[p]@,
                    results@.len() == j,
                    forall|p: int| 0 <= p < j ==> result_models(#[trigger] results@[p], lv[p]),
                decreases list.len() - j,
            {
                let pr = parse_allowed_http_host(list[j].as_str());
                results.push(pr);
                j = j + 1;
            }
            let ghost rseq = results@;
            let (hosts, errors) = partition_results(results);
            proof {
                lemma_partition_models(rseq, lv);
            }
            if errors.len() == 0 {
                proof {
                    assert(errs_of(rseq).map_values(|e: String| e@).len() == 0);
                }
                Ok(AllowedHttpHosts::AllowSpecific(hosts))
            } else {
                proof {
                    assert(errs_of(rseq).map_values(|e: String| e@).len() == errors@.len());
                }
                let joined_errors = join_strings(&errors, "\n");
                proof {
                    assert(errors.deep_view() =~= errs_of(rseq).map_values(|e: String| e@));
                }
                let message = String::from_str(
                    "One or more allowed_http_hosts entries was invalid:\n",
                ).concat(joined_errors.as_str());
                Err(HostsError { message })
            }
        },
    }
}

/// Checks a component's raw outbound-host metadata without keeping the
/// resolved allow-list.
pub fn validate_allowed_http_hosts(http_hosts: &Option<Vec<String>>) -> (r: Result<(), HostsError>)
    ensures
        http_hosts is None ==> r is Ok,
        http_hosts matches Some(list) ==> {
            let lv = list.deep_view();
            &&& any_sentinel(lv) ==> r is Ok
            &&& !any_sentinel(lv) && err_msgs(lv).len() == 0 ==> r is Ok
            &&& !any_sentinel(lv) && err_msgs(lv).len() > 0 ==> (r matches Err(e) && e.message@
                == invalid_hosts_message(lv))
        },
{
    match parse_allowed_http_hosts(http_hosts) {
        Ok(_) => Ok(()),
        Err(e) => Err(e),
    }
}

} // verus!
