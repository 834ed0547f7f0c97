//! A reverse-proxy gateway library: a scope-based authorization model, a
//! pluggable authenticator (no-auth or bearer-token JWT), and the pure
//! request/response rewriting that turns a client request into a safe
//! upstream request and back. The surrounding process does the listening,
//! forwarding and configuration loading; every decision the gateway takes per
//! request is made here.

pub mod auth;
pub mod config;
pub mod http;
pub mod proxy;
pub mod scope;
pub mod tls;

use vstd::prelude::*;
use vstd::string::StrSliceExecFns;

use crate::auth::request_is_authorized;
use crate::config::Config;
use crate::http::Request;
use crate::http::Response;
use crate::http::first_named;
use crate::http::hviews;
use crate::proxy::create_proxied_request;
use crate::proxy::create_proxied_response;
use crate::proxy::proxied_request_headers;
use crate::proxy::proxied_response_headers;
use crate::proxy::request_add_custom_headers;
use crate::proxy::target_url;
use crate::proxy::url_host;
use crate::proxy::with_custom;
use crate::scope::ScopeEntry;
use crate::scope::covers;

verus! {

/// The fixed server identification this gateway writes into `Via`.
pub const SERVER_VIA: &'static str = "0.1.0 Demogorgon";

/// Whether the status is one of the redirect statuses the gateway blocks.
pub open spec fn is_redirect(status: u16) -> bool {
    status == 301 || status == 302 || status == 303 || status == 307 || status == 308
}

/// The reason phrase of each status this gateway itself answers with; empty
/// for any other status.
pub open spec fn reason_phrase(status: u16) -> Seq<char> {
    if status == 400 {
        "Bad Request"@
    } else if status == 401 {
        "Unauthorized"@
    } else if status == 403 {
        "Forbidden"@
    } else if status == 404 {
        "Not Found"@
    } else if status == 502 {
        "Bad Gateway"@
    } else if status == 504 {
        "Gateway Timeout"@
    } else {
        ""@
    }
}

/// The reason phrase of a status the gateway answers with, for the body of a
/// locally generated response.
pub fn canonical_reason(status: u16) -> (r: &'static str)
    ensures
        r@ == reason_phrase(status),
{
    if status == 400 {
        "Bad Request"
    } else if status == 401 {
        "Unauthorized"
    } else if status == 403 {
        "Forbidden"
    } else if status == 404 {
        "Not Found"
    } else if status == 502 {
        "Bad Gateway"
    } else if status == 504 {
        "Gateway Timeout"
    } else {
        ""
    }
}

/// A locally generated response: the status alone, with no headers yet.
pub fn error_response(status: u16) -> (r: Response)
    ensures
        r.status == status,
        r.headers@.len() == 0,
{
    Response { status, headers: Vec::new() }
}

/// Blocks upstream-controlled redirects: any 3xx redirect status is replaced
/// whole by a bare 502, dropping every header the upstream sent; anything
/// else passes through untouched.
pub fn process_location_header(response: Response) -> (r: Response)
    ensures
        if is_redirect(response.status) {
            r.status == 502 && r.headers@.len() == 0
        } else {
            r == response
        },
{
    if response.status == 301 || response.status == 302 || response.status == 303
        || response.status == 307 || response.status == 308 {
        error_response(502)
    } else {
        response
    }
}

/// The response rewrite every upstream response gets before it reaches the
/// client: redirects are blocked into a bare 502, hop-by-hop headers are
/// stripped, and Via is set.
pub fn finish_response(response: Response) -> (r: Response)
    ensures
        is_redirect(response.status) ==> r.status == 502 && hviews(r.headers@)
            == proxied_response_headers(Seq::empty()),
        !is_redirect(response.status) ==> r.status == response.status && hviews(r.headers@)
            == proxied_response_headers(hviews(response.headers@)),
        first_named(hviews(r.headers@), "via"@) == Some(SERVER_VIA@),
{
    let checked = process_location_header(response);
    proof {
        if is_redirect(response.status) {
            assert(hviews(checked.headers@) =~= Seq::<(Seq<char>, Seq<char>)>::empty());
        }
        crate::proxy::lemma_proxied_response_via(hviews(checked.headers@));
    }
    create_proxied_response(checked)
}

/// The first path segment of the inbound URI, the route selector: the
/// characters between the leading slash and the next slash or question mark.
/// A URI without a leading slash selects nothing.
pub open spec fn take_segment(s: Seq<char>) -> Seq<char>
    decreases s.len(),
{
    if s.len() == 0 || s[0] == '/' || s[0] == '?' {
        Seq::empty()
    } else {
        seq![s[0]] + take_segment(s.drop_first())
    }
}

/// The route a request's URI selects.
pub open spec fn route_of(pq: Seq<char>) -> Seq<char> {
    if pq.len() >= 1 && pq[0] == '/' {
        take_segment(pq.drop_first())
    } else {
        Seq::empty()
    }
}

proof fn lemma_take_segment(s: Seq<char>, j: int)
    requires
        0 <= j <= s.len(),
        forall|k: int| 0 <= k < j ==> s[k] != '/' && s[k] != '?',
        j < s.len() ==> (s[j] == '/' || s[j] == '?'),
    ensures
        take_segment(s) == s.subrange(0, j),
    decreases j,
{
    if j == 0 {
        assert(s.subrange(0, 0) =~= Seq::<char>::empty());
    } else {
        assert(forall|k: int| 0 <= k < j - 1 ==> s.drop_first()[k] == s[k + 1]);
        lemma_take_segment(s.drop_first(), j - 1);
        assert(s.subrange(0, j) =~= seq![s[0]] + s.drop_first().subrange(0, j - 1));
    }
}

/// The route selector of an inbound URI.
pub fn route_of_request(pq: &str) -> (r: String)
    ensures
        r@ == route_of(pq@),
{
    let len = pq.unicode_len();
    if len == 0 || pq.get_char(0) != '/' {
        return String::new();
    }
    let mut end: usize = 1;
    while end < len && pq.get_char(end) != '/' && pq.get_char(end) != '?'
        invariant
            1 <= end <= len,
            len == pq@.len(),
            pq@[0] == '/',
            forall|k: int| 1 <= k < end ==> pq@[k] != '/' && pq@[k] != '?',
        decreases len - end,
    {
        end = end + 1;
    }
    let seg = pq.substring_char(1, end);
    proof {
        let s = pq@.drop_first();
        assert(forall|k: int| 0 <= k < end - 1 ==> s[k] == pq@[k + 1]);
        if (end as int) < len as int {
            assert(s[end - 1] == pq@[end as int]);
        }
        lemma_take_segment(s, end - 1);
        assert(s.subrange(0, end - 1) =~= pq@.subrange(1, end as int));
    }
    seg.to_owned()
}

/// What one request comes to before any network call: forward a rewritten
/// request to a backend with the granted scope, or answer at once.
pub enum Plan {
    Forward { request: Request, scope: ScopeEntry, backend: usize },
    Respond(Response),
}

/// Drives one request to the point of forwarding: looks the route up by the
/// first path segment, authenticates with the backend's configured
/// authenticator, authorizes the granted scopes against the backend's
/// required scope, and rewrites the request for the upstream; any failure
/// becomes the error response that ends the request, Via included.
pub fn plan_request(config: &Config, client_ip: &String, request: Request) -> (r: Plan)
    ensures
        (forall|j: int|
            0 <= j < config.backends@.len() ==> config.backends@[j].0@ != route_of(
                request.uri@,
            )) ==> (r matches Plan::Respond(resp) && resp.status == 404 && hviews(resp.headers@)
            == proxied_response_headers(Seq::empty())),
        r matches Plan::Forward { request: p, scope, backend } ==> {
            &&& backend < config.backends@.len()
            &&& config.backends@[backend as int].0@ == route_of(request.uri@)
            &&& forall|k: int|
                0 <= k < backend ==> config.backends@[k].0@ != route_of(request.uri@)
            &&& covers(scope@, config.backends@[backend as int].1.scope@)
            &&& url_host(target_url(config.backends@[backend as int].1.url@, request.uri@))
                is Some
            &&& p.uri@ == target_url(config.backends@[backend as int].1.url@, request.uri@)
            &&& hviews(p.headers@) == match config.backends@[backend as int].1.headers {
                Some(hs) => with_custom(
                    proxied_request_headers(
                        hviews(request.headers@),
                        client_ip@,
                        url_host(
                            target_url(config.backends@[backend as int].1.url@, request.uri@),
                        )->Some_0,
                    ),
                    hviews(hs@),
                ),
                None => proxied_request_headers(
                    hviews(request.headers@),
                    client_ip@,
                    url_host(
                        target_url(config.backends@[backend as int].1.url@, request.uri@),
                    )->Some_0,
                ),
            }
        },
        r matches Plan::Respond(resp) ==> resp.status == 404 || resp.status == 400 || resp.status
            == 401 || resp.status == 403 || resp.status == 502,
        r matches Plan::Respond(resp) ==> first_named(hviews(resp.headers@), "via"@) == Some(
            SERVER_VIA@,
        ),
        forall|j: int|
            #![trigger config.backends@[j]]
            (0 <= j < config.backends@.len() && config.backends@[j].0@ == route_of(request.uri@)
                && (forall|k: int|
                0 <= k < j ==> config.backends@[k].0@ != route_of(request.uri@))) ==> {
                &&& (config.backends@[j].1.frontend_auth is NoAuth && url_host(
                    target_url(config.backends@[j].1.url@, request.uri@),
                ) is Some ==> r is Forward)
                &&& (config.backends@[j].1.frontend_auth is Token && first_named(
                    hviews(request.headers@),
                    "authorization"@,
                ) is None ==> (r matches Plan::Respond(resp) && resp.status == 400))
            },
{
    let name = route_of_request(request.uri.as_str());
    let looked_up = config.lookup_backend(&name);
    let (idx, backend) = match looked_up {
        Some(p) => p,
        None => {
            let resp = error_response(404);
            proof {
                assert(hviews(resp.headers@) =~= Seq::<(Seq<char>, Seq<char>)>::empty());
                crate::proxy::lemma_proxied_response_via(hviews(resp.headers@));
            }
            return Plan::Respond(create_proxied_response(resp));
        },
    };
    match request_is_authorized(&request, backend, config) {
        Ok(scope) => {
            let proxied = match create_proxied_request(client_ip, backend, request) {
                Ok(p) => p,
                Err(_) => {
                    let resp = error_response(502);
                    proof {
                        crate::proxy::lemma_proxied_response_via(hviews(resp.headers@));
                    }
                    return Plan::Respond(create_proxied_response(resp));
                },
            };
            let finished = request_add_custom_headers(backend, proxied);
            Plan::Forward { request: finished, scope, backend: idx }
        },
        Err(reason) => {
            let resp = error_response(reason.status());
            proof {
                crate::proxy::lemma_proxied_response_via(hviews(resp.headers@));
            }
            Plan::Respond(create_proxied_response(resp))
        },
    }
}

} // verus!
