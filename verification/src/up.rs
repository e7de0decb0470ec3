//! The decisions behind starting the HTTP runtime: which source the
//! application is loaded from, whether TLS is configured consistently, and
//! how `key=value` environment arguments are read. The process wiring
//! around these decisions — argument parsing, loading, listening — is I/O
//! and lives outside this crate.

use vstd::prelude::*;

use crate::tls::TlsConfig;

verus! {

/// The start command's arguments, as plain values.
#[derive(Debug)]
pub struct UpCommand {
    /// IP address and port to listen on.
    pub address: String,
    /// Path to the application manifest, when loading from a file.
    pub app: Option<String>,
    /// ID of the application bundle, when loading from a registry.
    pub bindle: Option<String>,
    /// URL of the bundle registry.
    pub server: Option<String>,
    /// Temporary directory for the components' static assets.
    pub tmp: Option<String>,
    /// Environment variables to hand to every component.
    pub env: Vec<(String, String)>,
    /// Path to the TLS certificate; set together with the key or not at all.
    pub tls_cert: Option<String>,
    /// Path to the TLS key; set together with the certificate or not at all.
    pub tls_key: Option<String>,
}

/// Where the application is loaded from.
#[derive(Debug, PartialEq, Eq)]
pub enum AppSource {
    /// A local application manifest file.
    File {
        /// The manifest's path.
        path: String,
    },
    /// An application bundle on a registry.
    Bindle {
        /// The bundle's ID.
        id: String,
        /// The registry's URL.
        server: String,
    },
}

impl UpCommand {
    /// Decides where the application is loaded from: exactly one of the
    /// file path and the bundle ID must be given, and a bundle needs a
    /// registry URL.
    pub fn app_source(&self) -> (r: Result<AppSource, String>)
        ensures
            self.app is None && self.bindle is None ==> (r matches Err(e) && e@
                == "Must specify app file or bindle id"@),
            self.app is Some && self.bindle is Some ==> (r matches Err(e) && e@
                == "Specify only one of app file or bindle ID"@),
            self.bindle is None ==> (self.app matches Some(a) ==> (r matches Ok(s) && (
            s matches AppSource::File { path } && path@ == a@))),
            self.app is None && self.bindle is Some && self.server is None ==> (r matches Err(e)
                && e@ == "Loading from a bindle requires a Bindle server URL"@),
            self.app is None ==> (self.bindle matches Some(b) ==> (self.server matches Some(srv)
                ==> (r matches Ok(s) && (s matches AppSource::Bindle { id, server } && id@ == b@
                && server@ == srv@)))),
    {
        match (&self.app, &self.bindle) {
            (None, None) => Err(String::from_str("Must specify app file or bindle id")),
            (Some(app), None) => Ok(AppSource::File { path: app.clone() }),
            (None, Some(bindle)) => match &self.server {
                Some(server) => Ok(
                    AppSource::Bindle { id: bindle.clone(), server: server.clone() },
                ),
                None => Err(String::from_str("Loading from a bindle requires a Bindle server URL")),
            },
            (Some(_), Some(_)) => Err(String::from_str("Specify only one of app file or bindle ID")),
        }
    }

    /// Decides the TLS configuration from the command's paths and whether
    /// each path names a regular file. The argument parser guarantees the
    /// key and certificate are given together or not at all.
    pub fn tls_config(&self, cert_is_file: bool, key_is_file: bool) -> (r: Result<
        Option<TlsConfig>,
        String,
    >)
        requires
            self.tls_key is Some <==> self.tls_cert is Some,
        ensures
            self.tls_key is None ==> r == Ok::<Option<TlsConfig>, String>(None),
            self.tls_key is Some && !cert_is_file ==> (r matches Err(e) && e@
                == "TLS certificate file does not exist or is not a file"@),
            self.tls_key is Some && cert_is_file && !key_is_file ==> (r matches Err(e) && e@
                == "TLS key file does not exist or is not a file"@),
            cert_is_file && key_is_file ==> (self.tls_cert matches Some(c) ==> (
            self.tls_key matches Some(k) ==> (r matches Ok(t) && (t matches Some(tc)
                && tc.cert_path@ == c@ && tc.key_path@ == k@)))),
    {
        match (&self.tls_key, &self.tls_cert) {
            (Some(key_path), Some(cert_path)) => {
                if !cert_is_file {
                    return Err(
                        String::from_str("TLS certificate file does not exist or is not a file"),
                    );
                }
                if !key_is_file {
                    return Err(String::from_str("TLS key file does not exist or is not a file"));
                }
                Ok(Some(TlsConfig::new(cert_path.clone(), key_path.clone())))
            },
            (None, None) => Ok(None),
            _ => {
                proof {
                    assert(false);
                }
                Ok(None)
            },
        }
    }
}

/// The position of the first `=` in `s`, or a negative value when it has
/// none.
pub open spec fn first_eq(s: Seq<char>) -> int
    decreases s.len(),
{
    if s.len() == 0 {
        -1
    } else if s[0] == '=' {
        0
    } else {
        let rest = first_eq(s.skip(1));
        if rest < 0 {
            -1
        } else {
            rest + 1
        }
    }
}

proof fn lemma_first_eq_at(s: Seq<char>, i: int)
    requires
        0 <= i < s.len(),
        s[i] == '=',
        forall|j: int| 0 <= j < i ==> s[j] != '=',
    ensures
        first_eq(s) == i,
    decreases i,
{
    if i > 0 {
        let rest = s.skip(1);
        assert(forall|j: int| 0 <= j < rest.len() ==> #[trigger] rest[j] == s[j + 1]);
        lemma_first_eq_at(rest, i - 1);
    }
}

proof fn lemma_first_eq_none(s: Seq<char>)
    requires
        forall|j: int| 0 <= j < s.len() ==> s[j] != '=',
    ensures
        first_eq(s) < 0,
    decreases s.len(),
{
    if s.len() > 0 {
        let rest = s.skip(1);
        assert(forall|j: int| 0 <= j < rest.len() ==> #[trigger] rest[j] == s[j + 1]);
        lemma_first_eq_none(rest);
    }
}

/// Parses an environment variable given as a `key=value` pair: the key is
/// everything before the first `=`, the value everything after it.
pub fn parse_env_var(s: &str) -> (r: Result<(String, String), String>)
    ensures
        first_eq(s@) < 0 ==> (r matches Err(e) && e@
            == "Environment variable must be of the form `key=value`"@),
        first_eq(s@) >= 0 ==> (r matches Ok(kv) && kv.0@ == s@.take(first_eq(s@)) && kv.1@
            == s@.skip(first_eq(s@) + 1)),
{
    let len = s.unicode_len();
    let mut i: usize = 0;
    while i < len
        invariant
            i <= len,
            len == s@.len(),
            forall|j: int| 0 <= j < i ==> s@[j] != '=',
        decreases len - i,
    {
        if s.get_char(i) == '=' {
            proof {
                lemma_first_eq_at(s@, i as int);
            }
            let key = s.substring_char(0, i);
            let value = s.substring_char(i + 1, len);
            proof {
                assert(key@ =~= s@.take(i as int));
                assert(value@ =~= s@.skip(i + 1));
            }
            return Ok((String::from_str(key), String::from_str(value)));
        }
        i = i + 1;
    }
    proof {
        lemma_first_eq_none(s@);
    }
    Err(String::from_str("Environment variable must be of the form `key=value`"))
}

} // verus!
