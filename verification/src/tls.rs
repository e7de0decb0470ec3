//! TLS configuration for the listener: the certificate and key file paths,
//! as plain values. Reading the files and building the acceptor is I/O and
//! happens outside this crate.

use vstd::prelude::*;

verus! {

/// TLS configuration for the server.
#[derive(Clone, Debug, PartialEq, Eq)]
pub struct TlsConfig {
    /// Path to the TLS certificate, in PEM form.
    pub cert_path: String,
    /// Path to the TLS key, in PKCS#8 form.
    pub key_path: String,
}

impl TlsConfig {
    /// Creates the configuration from the two file paths.
    pub fn new(cert_path: String, key_path: String) -> (r: Self)
        ensures
            r.cert_path@ == cert_path@,
            r.key_path@ == key_path@,
    {
        TlsConfig { cert_path, key_path }
    }
}

} // verus!
