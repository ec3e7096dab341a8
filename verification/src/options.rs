//! LDAP connection options

use vstd::prelude::*;

verus! {

/// How the connection is secured.
#[derive(Clone, Copy, Debug, PartialEq, Eq, Structural)]
pub enum TlsKind {
    /// No TLS
    Plain,
    /// TLS from the first byte
    Tls,
    /// Plain at first, then TLS after the StartTLS exchange
    StartTls,
}

impl Default for TlsKind {
    fn default() -> (r: Self)
        ensures
            r == TlsKind::Plain,
    {
        TlsKind::Plain
    }
}

/// TLS options: the transport mode and the name to present to the server.
#[derive(Debug, Clone, PartialEq, Eq)]
pub struct TlsOptions {
    pub kind: TlsKind,
    /// Name for the SNI match, where it is not the connection host name
    pub domain_name: Option<String>,
}

impl Default for TlsOptions {
    fn default() -> (r: Self)
        ensures
            r == (TlsOptions { kind: TlsKind::Plain, domain_name: None }),
    {
        TlsOptions { kind: TlsKind::Plain, domain_name: None }
    }
}

impl TlsOptions {
    /// Options for the given transport mode, with no name override.
    pub fn new(kind: TlsKind) -> (r: Self)
        ensures
            r == (TlsOptions { kind, domain_name: None }),
    {
        TlsOptions { kind, domain_name: None }
    }

    /// Connect without TLS
    pub fn plain() -> (r: Self)
        ensures
            r == (TlsOptions { kind: TlsKind::Plain, domain_name: None }),
    {
        Self::new(TlsKind::Plain)
    }

    /// Connect using TLS transport
    pub fn tls() -> (r: Self)
        ensures
            r == (TlsOptions { kind: TlsKind::Tls, domain_name: None }),
    {
        Self::new(TlsKind::Tls)
    }

    /// Connect using STARTTLS negotiation
    pub fn start_tls() -> (r: Self)
        ensures
            r == (TlsOptions { kind: TlsKind::StartTls, domain_name: None }),
    {
        Self::new(TlsKind::StartTls)
    }

    /// Specify custom domain name to use for SNI match. The default is the connection host name
    pub fn domain_name(self, domain_name: &str) -> (r: Self)
        ensures
            r.kind == self.kind,
            r.domain_name matches Some(d) && d@ == domain_name@,
    {
        TlsOptions { kind: self.kind, domain_name: Some(domain_name.to_owned()) }
    }
}

} // verus!
