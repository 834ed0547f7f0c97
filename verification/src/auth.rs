//! Authentication and authorization: why a request is refused, what a
//! successful authentication carries, and the first-match authorization of
//! granted scopes against a backend's required scope.

use vstd::prelude::*;

use crate::config::Backend;
use crate::config::Config;
use crate::config::es_algorithm;
use crate::http::Request;
use crate::http::first_named;
use crate::http::hviews;
use crate::scope::ScopeEntry;
use crate::scope::ScopeEntryView;
use crate::scope::covers;
use crate::scope::entry_wf;
use crate::scope::universal;

pub mod noauth;
pub mod token;

verus! {

/// The error type jsonwebtoken's verification reports; carried through
/// opaquely for operator-facing diagnostics.
#[verifier::external_type_specification]
#[verifier::external_body]
pub struct ExJwtError(jsonwebtoken::errors::Error);

/// Why a request was not let through to its backend.
#[derive(Debug)]
pub enum AuthReason {
    /// The request itself is unusable: no `Authorization` header, or one that
    /// is not a bearer token.
    BadRequest(&'static str),
    /// The bearer token failed verification: signature, expiry or issuer.
    InvalidCredentials(jsonwebtoken::errors::Error),
    /// The token verified but its claims have the wrong shape.
    InvalidClaims(&'static str),
    /// The configured algorithm is not a supported one.
    NotImplemented(&'static str),
    /// No granted scope covers the backend's required scope; carries the full
    /// granted list and the required scope for diagnostics.
    InsufficientScope { granted: Vec<ScopeEntry>, required: ScopeEntry },
}

/// The HTTP status each failure surfaces as: 400 for unusable requests and
/// unsupported algorithms, 401 for failed token verification or malformed
/// claims, 403 for insufficient scope.
pub open spec fn reason_status(r: &AuthReason) -> u16 {
    match r {
        AuthReason::BadRequest(_) => 400,
        AuthReason::InvalidCredentials(_) => 401,
        AuthReason::InvalidClaims(_) => 401,
        AuthReason::NotImplemented(_) => 400,
        AuthReason::InsufficientScope { .. } => 403,
    }
}

impl AuthReason {
    /// The HTTP status this failure surfaces as.
    pub fn status(&self) -> (r: u16)
        ensures
            r == reason_status(self),
    {
        match self {
            AuthReason::BadRequest(_) => 400,
            AuthReason::InvalidCredentials(_) => 401,
            AuthReason::InvalidClaims(_) => 401,
            AuthReason::NotImplemented(_) => 400,
            AuthReason::InsufficientScope { .. } => 403,
        }
    }
}

/// Which authenticator a backend selects.
#[derive(Clone, Copy, Debug, PartialEq, Eq, Structural)]
pub enum FrontendAuthType {
    NoAuth,
    Token,
}

impl FrontendAuthType {
    /// The selection a backend gets when it configures none: token auth.
    pub fn default() -> (r: Self)
        ensures
            r is Token,
    {
        FrontendAuthType::Token
    }
}

/// The result of a successful authenticate step: an optional subject (absent
/// for no-auth), the authenticator variant used, and the granted scopes in
/// the order the credential listed them.
#[derive(Debug)]
pub struct Authentication {
    pub id: Option<uuid::Uuid>,
    pub auth_type: FrontendAuthType,
    pub scopes: Vec<ScopeEntry>,
}

/// The first granted entry, in list order, that covers the required scope.
pub open spec fn first_cover(scopes: Seq<ScopeEntry>, required: ScopeEntryView) -> Option<
    ScopeEntry,
>
    decreases scopes.len(),
{
    if scopes.len() == 0 {
        None
    } else if covers(scopes[0]@, required) {
        Some(scopes[0])
    } else {
        first_cover(scopes.drop_first(), required)
    }
}

/// Some granted entry covers the required scope exactly when the first-match
/// search finds one.
pub proof fn lemma_first_cover_exists(scopes: Seq<ScopeEntry>, required: ScopeEntryView)
    ensures
        (first_cover(scopes, required) is Some) <==> exists|i: int|
            0 <= i < scopes.len() && covers(scopes[i]@, required),
    decreases scopes.len(),
{
    if scopes.len() > 0 {
        lemma_first_cover_exists(scopes.drop_first(), required);
        if covers(scopes[0]@, required) {
        } else {
            if exists|i: int| 0 <= i < scopes.len() && covers(scopes[i]@, required) {
                let i = choose|i: int| 0 <= i < scopes.len() && covers(scopes[i]@, required);
                assert(scopes.drop_first()[i - 1] == scopes[i]);
            }
            if first_cover(scopes.drop_first(), required) is Some {
                let i = choose|i: int|
                    0 <= i < scopes.drop_first().len() && covers(scopes.drop_first()[i]@, required);
                assert(scopes[i + 1] == scopes.drop_first()[i]);
            }
        }
    }
}

fn clone_scopes(v: &Vec<ScopeEntry>) -> (r: Vec<ScopeEntry>)
    ensures
        r@ == v@,
{
    let mut out: Vec<ScopeEntry> = Vec::new();
    let mut i: usize = 0;
    while i < v.len()
        invariant
            i <= v@.len(),
            out@ == v@.subrange(0, i as int),
        decreases v@.len() - i,
    {
        out.push(v[i].clone());
        proof {
            assert(out@ =~= v@.subrange(0, i + 1));
        }
        i = i + 1;
    }
    proof {
        assert(v@.subrange(0, v@.len() as int) =~= v@);
    }
    out
}

impl Authentication {
    /// Selects the first granted entry, in list order, that covers the
    /// backend's required scope; if none does, fails with the full granted
    /// list and the required scope. First match wins, not most specific.
    pub fn authorize(&self, backend: &Backend) -> (r: Result<ScopeEntry, AuthReason>)
        ensures
            match r {
                Ok(s) => first_cover(self.scopes@, backend.scope@) == Some(s),
                Err(e) => {
                    &&& first_cover(self.scopes@, backend.scope@) is None
                    &&& e matches AuthReason::InsufficientScope { granted, required }
                        && granted@ == self.scopes@ && required == backend.scope
                },
            },
            (r is Ok) <==> exists|i: int|
                0 <= i < self.scopes@.len() && covers(self.scopes@[i]@, backend.scope@),
    {
        proof {
            lemma_first_cover_exists(self.scopes@, backend.scope@);
            assert(self.scopes@.subrange(0, self.scopes@.len() as int) =~= self.scopes@);
        }
        let mut i: usize = 0;
        while i < self.scopes.len()
            invariant
                i <= self.scopes@.len(),
                first_cover(self.scopes@, backend.scope@) == first_cover(
                    self.scopes@.subrange(i as int, self.scopes@.len() as int),
                    backend.scope@,
                ),
            decreases self.scopes@.len() - i,
        {
            proof {
                let tail = self.scopes@.subrange(i as int, self.scopes@.len() as int);
                assert(tail[0] == self.scopes@[i as int]);
                assert(tail.drop_first() =~= self.scopes@.subrange(
                    i + 1,
                    self.scopes@.len() as int,
                ));
            }
            if self.scopes[i].covers(&backend.scope) {
                proof {
                    lemma_first_cover_exists(self.scopes@, backend.scope@);
                }
                return Ok(self.scopes[i].clone());
            }
            i = i + 1;
        }
        proof {
            assert(self.scopes@.subrange(
                self.scopes@.len() as int,
                self.scopes@.len() as int,
            ) =~= Seq::<ScopeEntry>::empty());
            lemma_first_cover_exists(self.scopes@, backend.scope@);
        }
        Err(
            AuthReason::InsufficientScope {
                granted: clone_scopes(&self.scopes),
                required: backend.scope.clone(),
            },
        )
    }
}

/// Authenticates the request with the backend's configured authenticator and
/// authorizes the resulting scopes against the backend's required scope.
pub fn request_is_authorized(req: &Request, backend: &Backend, config: &Config) -> (r: Result<
    ScopeEntry,
    AuthReason,
>)
    ensures
        backend.frontend_auth is NoAuth ==> (r matches Ok(s) && s@ == universal()),
        backend.frontend_auth is Token ==> {
            &&& (first_named(hviews(req.headers@), "authorization"@) is None ==> (r matches Err(e)
                && e matches AuthReason::BadRequest(m) && m@ == "Missing authorization header"@))
            &&& ((first_named(hviews(req.headers@), "authorization"@) matches Some(h)
                && token::bearer_token(h) is None) ==> (r matches Err(e) && e matches
                AuthReason::BadRequest(m) && m@ == "Authorization must be Bearer"@))
            &&& ((first_named(hviews(req.headers@), "authorization"@) matches Some(h)
                && token::bearer_token(h) is Some && !es_algorithm(config.auth.algorithm)) ==> (r
                matches Err(e) && e matches AuthReason::NotImplemented(m) && m@
                == "Unable to use non ES key, not implemented"@))
            &&& (r matches Ok(s) ==> covers(s@, backend.scope@) && entry_wf(s@))
            &&& (r matches Err(AuthReason::InsufficientScope { granted, required })
                ==> required == backend.scope && first_cover(granted@, backend.scope@) is None)
        },
{
    let authentication = match backend.frontend_auth {
        FrontendAuthType::Token => {
            let authenticator = token::TokenAuthenticator::new(&config.auth);
            match authenticator.authenticate(req) {
                Ok(a) => a,
                Err(e) => {
                    return Err(e);
                },
            }
        },
        FrontendAuthType::NoAuth => {
            let authenticator = noauth::NoAuthAuthenticator::new();
            match authenticator.authenticate(req) {
                Ok(a) => a,
                Err(e) => {
                    return Err(e);
                },
            }
        },
    };
    let r = authentication.authorize(backend);
    proof {
        if backend.frontend_auth is NoAuth {
            assert(covers(authentication.scopes@[0]@, backend.scope@));
        }
        if backend.frontend_auth is Token && r is Ok {
            lemma_first_cover_covers(authentication.scopes@, backend.scope@);
        }
    }
    r
}

/// What the first-match search returns covers the required scope and is one
/// of the granted entries.
pub proof fn lemma_first_cover_covers(scopes: Seq<ScopeEntry>, required: ScopeEntryView)
    ensures
        first_cover(scopes, required) matches Some(s) ==> covers(s@, required) && exists|i: int|
            0 <= i < scopes.len() && scopes[i] == s,
    decreases scopes.len(),
{
    if scopes.len() > 0 {
        lemma_first_cover_covers(scopes.drop_first(), required);
        if !covers(scopes[0]@, required) {
            if first_cover(scopes.drop_first(), required) is Some {
                let s = first_cover(scopes.drop_first(), required)->Some_0;
                let i = choose|i: int|
                    0 <= i < scopes.drop_first().len() && scopes.drop_first()[i] == s;
                assert(scopes[i + 1] == s);
            }
        }
    }
}

} // verus!
