//! The bearer-token authenticator: reads the `Authorization` header, verifies
//! the token as a JWT signed with the configured EC public key, and turns the
//! verified claims into an `Authentication`. Signature, expiry and issuer
//! checking are jsonwebtoken's; the claim-shape checks and the scope parsing
//! are verified here.

use vstd::prelude::*;
use vstd::string::StrSliceExecFns;

use crate::auth::AuthReason;
use crate::auth::Authentication;
use crate::auth::FrontendAuthType;
use crate::config::Auth;
use crate::config::JwtAlgorithm;
use crate::http::Request;
use crate::http::first_named;
use crate::http::hviews;
use crate::scope::ScopeEntry;
use crate::scope::entry_wf;
use crate::scope::lemma_parse_wf;
use crate::scope::parse_scope_entry;

verus! {

/// jsonwebtoken's prepared verification key.
#[verifier::external_type_specification]
#[verifier::external_body]
pub struct ExDecodingKey(jsonwebtoken::DecodingKey);

/// jsonwebtoken's verification settings.
#[verifier::external_type_specification]
#[verifier::external_body]
pub struct ExValidation(jsonwebtoken::Validation);

/// serde_json's generic JSON value, carried opaquely between the decode call
/// and the claim readers.
#[verifier::external_type_specification]
#[verifier::external_body]
pub struct ExJsonValue(serde_json::Value);

/// uuid's UUID, the form a token's subject identifier takes.
#[verifier::external_type_specification]
#[verifier::external_body]
pub struct ExUuid(uuid::Uuid);

/// Relies on jsonwebtoken::DecodingKey::from_ec_pem: prepares an EC public
/// key from PEM bytes, failing on malformed input.
#[verifier::external_body]
fn ec_decoding_key(pem: &[u8]) -> (r: Result<jsonwebtoken::DecodingKey, jsonwebtoken::errors::Error>) {
    jsonwebtoken::DecodingKey::from_ec_pem(pem)
}

/// Relies on jsonwebtoken::Validation::new: verification settings that accept
/// exactly the given algorithm and, by default, require and check `exp`.
/// Only the EC algorithms are ever passed here.
#[verifier::external_body]
fn new_validation(alg: JwtAlgorithm) -> (r: jsonwebtoken::Validation)
    requires
        alg is Es256 || alg is Es384,
{
    let a = match alg {
        JwtAlgorithm::Es256 => jsonwebtoken::Algorithm::ES256,
        _ => jsonwebtoken::Algorithm::ES384,
    };
    jsonwebtoken::Validation::new(a)
}

/// Relies on jsonwebtoken::Validation::set_issuer: makes the settings accept
/// exactly this `iss` claim value.
#[verifier::external_body]
fn validation_set_issuer(v: &mut jsonwebtoken::Validation, issuer: &str) {
    v.set_issuer(&[issuer]);
}

/// Relies on jsonwebtoken::Validation::set_required_spec_claims: the listed
/// claims must be present in the token.
#[verifier::external_body]
fn validation_require_claims(v: &mut jsonwebtoken::Validation, claims: &[&str]) {
    v.set_required_spec_claims(claims);
}

/// Relies on jsonwebtoken::decode: verifies the token's signature against the
/// key and checks the algorithm, expiry and issuer the settings demand,
/// yielding the decoded claims object on success. Success depends on the key,
/// the token and the clock, so nothing more is pinned here.
#[verifier::external_body]
fn jwt_decode(
    token: &str,
    key: &jsonwebtoken::DecodingKey,
    validation: &jsonwebtoken::Validation,
) -> (r: Result<serde_json::Value, jsonwebtoken::errors::Error>) {
    match jsonwebtoken::decode::<serde_json::Value>(token, key, validation) {
        Ok(data) => Ok(data.claims),
        Err(e) => Err(e),
    }
}

/// Relies on serde_json::Value::get: the value under a key of a JSON object,
/// or nothing.
#[verifier::external_body]
fn json_get<'a>(v: &'a serde_json::Value, key: &str) -> (r: Option<&'a serde_json::Value>) {
    v.get(key)
}

/// Relies on serde_json::Value::as_str: the text of a JSON string, or nothing.
#[verifier::external_body]
fn json_as_string(v: &serde_json::Value) -> (r: Option<String>) {
    match v.as_str() {
        Some(s) => Some(s.to_string()),
        None => None,
    }
}

/// Relies on serde_json::Value::as_array: the elements of a JSON array, or
/// nothing.
#[verifier::external_body]
fn json_as_array(v: &serde_json::Value) -> (r: Option<Vec<serde_json::Value>>) {
    match v.as_array() {
        Some(a) => Some(a.clone()),
        None => None,
    }
}

/// Relies on uuid::Uuid::parse_str: reads a UUID from its textual form,
/// failing on anything else.
#[verifier::external_body]
fn parse_uuid(s: &str) -> (r: Option<uuid::Uuid>) {
    match uuid::Uuid::parse_str(s) {
        Ok(u) => Some(u),
        Err(_) => None,
    }
}

/// The token of a bearer credential: the rest of the header value after the
/// `"Bearer "` prefix, or nothing when the prefix is absent.
pub open spec fn bearer_token(h: Seq<char>) -> Option<Seq<char>> {
    if h.len() >= 7 && h.subrange(0, 7) == "Bearer "@ {
        Some(h.subrange(7, h.len() as int))
    } else {
        None
    }
}

/// Parses every scope string of a token's `scopes` claim, in order; one
/// malformed string fails the whole list.
pub fn scopes_from_strings(strs: &Vec<String>) -> (r: Result<Vec<ScopeEntry>, &'static str>)
    ensures
        match r {
            Ok(v) => {
                &&& v@.len() == strs@.len()
                &&& forall|i: int|
                    0 <= i < v@.len() ==> parse_scope_entry(strs@[i]@) == Some(#[trigger] v@[i]@)
                &&& forall|i: int| 0 <= i < v@.len() ==> entry_wf(#[trigger] v@[i]@)
            },
            Err(m) => m@ == "ScopeEntry must be single level"@ && exists|i: int|
                0 <= i < strs@.len() && parse_scope_entry(#[trigger] strs@[i]@) is None,
        },
{
    let mut out: Vec<ScopeEntry> = Vec::new();
    let mut i: usize = 0;
    while i < strs.len()
        invariant
            i <= strs@.len(),
            out@.len() == i,
            forall|j: int|
                0 <= j < i ==> parse_scope_entry(strs@[j]@) == Some(#[trigger] out@[j]@),
        decreases strs@.len() - i,
    {
        match ScopeEntry::try_from(strs[i].as_str()) {
            Ok(e) => {
                out.push(e);
            },
            Err(m) => {
                return Err(m);
            },
        }
        i = i + 1;
    }
    proof {
        assert forall|i: int| 0 <= i < out@.len() implies entry_wf(#[trigger] out@[i]@) by {
            assert(parse_scope_entry(strs@[i]@) == Some(out@[i]@));
            lemma_parse_wf(strs@[i]@);
        }
    }
    Ok(out)
}

/// The bearer-token authenticator, configured with the process-wide token
/// parameters, the EC public key's bytes among them.
pub struct TokenAuthenticator {
    pub config: Auth,
}

impl TokenAuthenticator {
    pub fn new(config: &Auth) -> (r: Self)
        ensures
            r.config.algorithm == config.algorithm,
            r.config.keyfile@ == config.keyfile@,
            r.config.key_pem@ == config.key_pem@,
            r.config.issuer@ == config.issuer@,
    {
        TokenAuthenticator { config: config.clone() }
    }

    /// The request's `Authorization` header, or the bad-request failure.
    fn get_authorization_header<'a>(req: &'a Request) -> (r: Result<&'a String, AuthReason>)
        ensures
            match r {
                Ok(v) => first_named(hviews(req.headers@), "authorization"@) == Some(v@),
                Err(e) => {
                    &&& first_named(hviews(req.headers@), "authorization"@) is None
                    &&& e matches AuthReason::BadRequest(m) && m@
                        == "Missing authorization header"@
                },
            },
    {
        match crate::http::find_header(&req.headers, "authorization") {
            Some(v) => Ok(v),
            None => Err(AuthReason::BadRequest("Missing authorization header")),
        }
    }

    /// The token of a `Bearer` credential, or the bad-request failure when
    /// the header is not of that form.
    fn extract_token_from_header(header: &String) -> (r: Result<String, AuthReason>)
        ensures
            match r {
                Ok(t) => bearer_token(header@) == Some(t@),
                Err(e) => {
                    &&& bearer_token(header@) is None
                    &&& e matches AuthReason::BadRequest(m) && m@ == "Authorization must be Bearer"@
                },
            },
    {
        proof {
            reveal_strlit("Bearer ");
        }
        let h = header.as_str();
        let len = h.unicode_len();
        if len < 7 {
            return Err(AuthReason::BadRequest("Authorization must be Bearer"));
        }
        let ok = h.get_char(0) == 'B' && h.get_char(1) == 'e' && h.get_char(2) == 'a' && h.get_char(
            3,
        ) == 'r' && h.get_char(4) == 'e' && h.get_char(5) == 'r' && h.get_char(6) == ' ';
        if ok {
            proof {
                assert(header@.subrange(0, 7) =~= "Bearer "@);
            }
            Ok(h.substring_char(7, len).to_owned())
        } else {
            proof {
                assert(header@.subrange(0, 7) != "Bearer "@) by {
                    if header@.subrange(0, 7) == "Bearer "@ {
                        assert(header@[0] == "Bearer "@[0]);
                        assert(header@[1] == "Bearer "@[1]);
                        assert(header@[2] == "Bearer "@[2]);
                        assert(header@[3] == "Bearer "@[3]);
                        assert(header@[4] == "Bearer "@[4]);
                        assert(header@[5] == "Bearer "@[5]);
                        assert(header@[6] == "Bearer "@[6]);
                    }
                }
            }
            Err(AuthReason::BadRequest("Authorization must be Bearer"))
        }
    }

    /// Authenticates a bearer-token request: demands an `Authorization`
    /// header of the `Bearer` form, refuses non-EC configured algorithms,
    /// verifies the token with the configured key and issuer, and reads the
    /// `sub` and `scopes` claims, every scope string individually parsed.
    #[verifier::loop_isolation(false)]
    pub fn authenticate(&self, req: &Request) -> (r: Result<Authentication, AuthReason>)
        ensures
            first_named(hviews(req.headers@), "authorization"@) is None ==> (r matches Err(e) && e
                matches AuthReason::BadRequest(m) && m@ == "Missing authorization header"@),
            (first_named(hviews(req.headers@), "authorization"@) matches Some(h) && bearer_token(h)
                is None) ==> (r matches Err(e) && e matches AuthReason::BadRequest(m) && m@
                == "Authorization must be Bearer"@),
            (first_named(hviews(req.headers@), "authorization"@) matches Some(h) && bearer_token(h)
                is Some && !(self.config.algorithm is Es256 || self.config.algorithm is Es384))
                ==> (r matches Err(e) && e matches AuthReason::NotImplemented(m) && m@
                == "Unable to use non ES key, not implemented"@),
            r matches Ok(a) ==> {
                &&& a.auth_type is Token
                &&& a.id is Some
                &&& (self.config.algorithm is Es256 || self.config.algorithm is Es384)
                &&& forall|i: int| 0 <= i < a.scopes@.len() ==> entry_wf(#[trigger] a.scopes@[i]@)
            },
            r matches Err(e) ==> !(e matches AuthReason::InsufficientScope { .. }),
    {
        let header = match TokenAuthenticator::get_authorization_header(req) {
            Ok(h) => h,
            Err(e) => {
                return Err(e);
            },
        };
        let token = match TokenAuthenticator::extract_token_from_header(header) {
            Ok(t) => t,
            Err(e) => {
                return Err(e);
            },
        };
        match self.config.algorithm {
            JwtAlgorithm::Es256 | JwtAlgorithm::Es384 => {},
            _ => {
                return Err(AuthReason::NotImplemented("Unable to use non ES key, not implemented"));
            },
        }
        let key = match ec_decoding_key(self.config.key_pem.as_slice()) {
            Ok(k) => k,
            Err(e) => {
                return Err(AuthReason::InvalidCredentials(e));
            },
        };
        let mut validation = new_validation(self.config.algorithm);
        validation_set_issuer(&mut validation, self.config.issuer.as_str());
        validation_require_claims(&mut validation, &["exp", "iss"]);
        let claims = match jwt_decode(token.as_str(), &key, &validation) {
            Ok(c) => c,
            Err(e) => {
                return Err(AuthReason::InvalidCredentials(e));
            },
        };
        let sub = match json_get(&claims, "sub") {
            Some(v) => v,
            None => {
                return Err(AuthReason::InvalidClaims("missing sub claim"));
            },
        };
        let sub_str = match json_as_string(sub) {
            Some(s) => s,
            None => {
                return Err(AuthReason::InvalidClaims("sub claim is not a string"));
            },
        };
        let id = match parse_uuid(sub_str.as_str()) {
            Some(u) => u,
            None => {
                return Err(AuthReason::InvalidClaims("sub claim is not a UUID"));
            },
        };
        let scopes_value = match json_get(&claims, "scopes") {
            Some(v) => v,
            None => {
                return Err(AuthReason::InvalidClaims("missing scopes claim"));
            },
        };
        let scope_values = match json_as_array(scopes_value) {
            Some(a) => a,
            None => {
                return Err(AuthReason::InvalidClaims("scopes claim is not a list"));
            },
        };
        let mut scope_strings: Vec<String> = Vec::new();
        let mut i: usize = 0;
        while i < scope_values.len()
            decreases scope_values@.len() - i,
        {
            match json_as_string(&scope_values[i]) {
                Some(s) => {
                    scope_strings.push(s);
                },
                None => {
                    return Err(AuthReason::InvalidClaims("scopes claim holds a non-string"));
                },
            }
            i = i + 1;
        }
        let scopes = match scopes_from_strings(&scope_strings) {
            Ok(v) => v,
            Err(m) => {
                return Err(AuthReason::InvalidClaims(m));
            },
        };
        Ok(Authentication { id: Some(id), auth_type: FrontendAuthType::Token, scopes })
    }
}

} // verus!
