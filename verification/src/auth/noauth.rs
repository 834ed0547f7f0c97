//! The authenticator that authenticates everyone: no subject, and the
//! universal scope granted unconditionally.

use vstd::prelude::*;

use crate::auth::AuthReason;
use crate::auth::Authentication;
use crate::auth::FrontendAuthType;
use crate::http::Request;
use crate::scope::ScopeEntry;
use crate::scope::ScopeValue;
use crate::scope::universal;

verus! {

pub struct NoAuthAuthenticator {}

impl NoAuthAuthenticator {
    pub fn new() -> (r: Self) {
        NoAuthAuthenticator {  }
    }

    /// Always succeeds, whatever the request holds: no subject, and the
    /// granted scopes exactly the one entry `*:*`.
    pub fn authenticate(&self, _req: &Request) -> (r: Result<Authentication, AuthReason>)
        ensures
            r matches Ok(a) && a.id is None && a.auth_type is NoAuth && a.scopes@.len() == 1
                && a.scopes@[0]@ == universal(),
    {
        let mut scopes: Vec<ScopeEntry> = Vec::new();
        scopes.push(ScopeEntry { parent: ScopeValue::Wildcard, child: ScopeValue::Wildcard });
        Ok(Authentication { id: None, auth_type: FrontendAuthType::NoAuth, scopes })
    }
}

} // verus!
