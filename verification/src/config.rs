//! The gateway's configuration shape: per-route backends, the process-wide
//! token-auth parameters, and the registry mapping a route name to its
//! backend. The configuration is loaded once at startup, outside the library,
//! and read-only afterwards.

use vstd::prelude::*;
use vstd::slice::slice_to_vec;
use vstd::string::StringExecFns;

use crate::auth::FrontendAuthType;
use crate::http::Header;
use crate::scope::ScopeEntry;
use crate::tls::ClientCertAuth;

verus! {

/// The JWT signing algorithm a deployment configures. Only `Es256` and
/// `Es384` are functional here; any other fails at first use.
#[derive(Clone, Copy, Debug, PartialEq, Eq, Structural)]
pub enum JwtAlgorithm {
    Hs256,
    Hs384,
    Hs512,
    Es256,
    Es384,
    Rs256,
    Rs384,
    Rs512,
    Ps256,
    Ps384,
    Ps512,
    EdDsa,
}

/// Whether the algorithm is one of the supported EC ones.
pub open spec fn es_algorithm(a: JwtAlgorithm) -> bool {
    a is Es256 || a is Es384
}

/// The process-wide token-auth parameters shared by all token backends.
/// `keyfile` names the EC public key's PEM file; `key_pem` holds that file's
/// bytes, read once at startup.
#[derive(Debug)]
pub struct Auth {
    pub algorithm: JwtAlgorithm,
    pub keyfile: String,
    pub key_pem: Vec<u8>,
    pub issuer: String,
}

impl Clone for Auth {
    fn clone(&self) -> (r: Self)
        ensures
            r.algorithm == self.algorithm,
            r.keyfile@ == self.keyfile@,
            r.key_pem@ == self.key_pem@,
            r.issuer@ == self.issuer@,
    {
        Auth {
            algorithm: self.algorithm,
            keyfile: self.keyfile.clone(),
            key_pem: slice_to_vec(self.key_pem.as_slice()),
            issuer: self.issuer.clone(),
        }
    }
}

/// One named route: the upstream base URL, the required scope, the
/// authenticator selection, optional static headers to inject upstream, the
/// header name used to echo the granted scope, and the optional outbound
/// client-certificate credential.
#[derive(Debug)]
pub struct Backend {
    pub cert_auth: Option<ClientCertAuth>,
    pub headers: Option<Vec<Header>>,
    pub url: String,
    pub scope: ScopeEntry,
    pub scope_header: String,
    pub frontend_auth: FrontendAuthType,
}

/// The scope-echo header name used when a backend does not configure one.
pub fn default_scope_header() -> (r: String)
    ensures
        r@ == "X-Demogorgon-Scope"@,
{
    String::from_str("X-Demogorgon-Scope")
}

/// The whole gateway configuration: the listen address, the token-auth
/// parameters, and the route registry.
#[derive(Debug)]
pub struct Config {
    pub address: String,
    pub auth: Auth,
    pub backends: Vec<(String, Backend)>,
}

impl Config {
    /// The registry is a mapping: route names are unique.
    pub open spec fn wf(&self) -> bool {
        forall|i: int, j: int|
            0 <= i < j < self.backends@.len() ==> self.backends@[i].0@ != self.backends@[j].0@
    }

    /// Looks a route name up in the registry: the first entry of that name,
    /// with its index, or nothing when no entry matches.
    pub fn lookup_backend<'a>(&'a self, name: &String) -> (r: Option<(usize, &'a Backend)>)
        ensures
            match r {
                Some((i, b)) => {
                    &&& i < self.backends@.len()
                    &&& self.backends@[i as int].0@ == name@
                    &&& *b == self.backends@[i as int].1
                    &&& forall|j: int| 0 <= j < i ==> self.backends@[j].0@ != name@
                },
                None => forall|j: int| 0 <= j < self.backends@.len() ==> self.backends@[j].0@ != name@,
            },
    {
        let mut i: usize = 0;
        while i < self.backends.len()
            invariant
                i <= self.backends@.len(),
                forall|j: int| 0 <= j < i ==> self.backends@[j].0@ != name@,
            decreases self.backends@.len() - i,
        {
            if String::eq(&self.backends[i].0, name) {
                return Some((i, &self.backends[i].1));
            }
            i = i + 1;
        }
        None
    }
}

} // verus!
