//! The proxy rewrite engine: pure request and response transformations that
//! strip hop-by-hop headers, rewrite the target and Host, append
//! X-Forwarded-For, set Via, and inject backend-declared headers. Only the
//! host extraction from the rebuilt URL calls out, to hyper's URI parser.

use vstd::prelude::*;
use vstd::string::StrSliceExecFns;
use vstd::string::StringExecFns;

use crate::SERVER_VIA;
use crate::config::Backend;
use crate::http::Header;
use crate::http::Request;
use crate::http::Response;
use crate::http::eq_fold;
use crate::http::find_header;
use crate::http::first_named;
use crate::http::fold;
use crate::http::hview;
use crate::http::hviews;
use crate::http::insert_header;
use crate::http::set_header;

verus! {

/// Whether the name is one of the fixed hop-by-hop headers a proxy must
/// strip, compared without regard to ASCII case.
pub open spec fn is_hop(name: Seq<char>) -> bool {
    ||| fold(name) == fold("Connection"@)
    ||| fold(name) == fold("Keep-Alive"@)
    ||| fold(name) == fold("Proxy-Authenticate"@)
    ||| fold(name) == fold("Proxy-Authorization"@)
    ||| fold(name) == fold("Te"@)
    ||| fold(name) == fold("Trailers"@)
    ||| fold(name) == fold("Transfer-Encoding"@)
    ||| fold(name) == fold("Upgrade"@)
}

/// Whether the header name is hop-by-hop, case-insensitively.
pub fn is_hop_header(name: &str) -> (r: bool)
    ensures
        r == is_hop(name@),
{
    eq_fold(name, "Connection") || eq_fold(name, "Keep-Alive") || eq_fold(
        name,
        "Proxy-Authenticate",
    ) || eq_fold(name, "Proxy-Authorization") || eq_fold(name, "Te") || eq_fold(name, "Trailers")
        || eq_fold(name, "Transfer-Encoding") || eq_fold(name, "Upgrade")
}

/// The headers without the hop-by-hop ones; everything else is kept, in
/// order, repeated names included.
pub open spec fn strip_hop(hs: Seq<(Seq<char>, Seq<char>)>) -> Seq<(Seq<char>, Seq<char>)>
    decreases hs.len(),
{
    if hs.len() == 0 {
        Seq::empty()
    } else {
        let rest = strip_hop(hs.drop_last());
        if is_hop(hs.last().0) {
            rest
        } else {
            rest.push(hs.last())
        }
    }
}

/// Hop-by-hop removal keeps exactly the non-hop headers: nothing hop-by-hop
/// survives, every other entry does, and nothing new appears.
pub proof fn lemma_strip_hop_members(hs: Seq<(Seq<char>, Seq<char>)>)
    ensures
        forall|i: int| 0 <= i < strip_hop(hs).len() ==> !is_hop(#[trigger] strip_hop(hs)[i].0),
        forall|i: int|
            0 <= i < hs.len() && !is_hop(hs[i].0) ==> strip_hop(hs).contains(#[trigger] hs[i]),
        forall|h: (Seq<char>, Seq<char>)| #[trigger] strip_hop(hs).contains(h) ==> hs.contains(h),
    decreases hs.len(),
{
    if hs.len() > 0 {
        let prev = strip_hop(hs.drop_last());
        let out = strip_hop(hs);
        lemma_strip_hop_members(hs.drop_last());
        assert forall|i: int| 0 <= i < out.len() implies !is_hop(out[i].0) by {
            if !is_hop(hs.last().0) && i < out.len() - 1 {
                assert(out[i] == prev[i]);
            }
        }
        assert forall|i: int| 0 <= i < hs.len() && !is_hop(hs[i].0) implies out.contains(
            hs[i],
        ) by {
            if i == hs.len() - 1 {
                assert(out[out.len() - 1] == hs[i]);
            } else {
                assert(hs.drop_last()[i] == hs[i]);
                assert(prev.contains(hs[i]));
                let j = choose|j: int| 0 <= j < prev.len() && prev[j] == hs[i];
                assert(out[j] == hs[i]);
            }
        }
        assert forall|h: (Seq<char>, Seq<char>)| out.contains(h) implies hs.contains(h) by {
            let j = choose|j: int| 0 <= j < out.len() && out[j] == h;
            if !is_hop(hs.last().0) && j == out.len() - 1 {
                assert(hs[hs.len() - 1] == h);
            } else {
                assert(prev[j] == h);
                assert(prev.contains(h));
                let k = choose|k: int| 0 <= k < hs.drop_last().len() && hs.drop_last()[k] == h;
                assert(hs[k] == h);
            }
        }
    }
}

/// A copy of the headers without the hop-by-hop ones.
pub fn remove_hop_headers(headers: &Vec<Header>) -> (r: Vec<Header>)
    ensures
        hviews(r@) == strip_hop(hviews(headers@)),
{
    let mut out: Vec<Header> = Vec::new();
    let mut i: usize = 0;
    proof {
        assert(hviews(headers@).subrange(0, 0) =~= Seq::<(Seq<char>, Seq<char>)>::empty());
        assert(hviews(out@) =~= strip_hop(hviews(headers@).subrange(0, 0)));
    }
    while i < headers.len()
        invariant
            i <= headers@.len(),
            hviews(out@) == strip_hop(hviews(headers@).subrange(0, i as int)),
        decreases headers@.len() - i,
    {
        proof {
            let hv = hviews(headers@);
            assert(hv.subrange(0, i + 1).drop_last() =~= hv.subrange(0, i as int));
            assert(hv.subrange(0, i + 1).last() == hview(headers@[i as int]));
        }
        let h = &headers[i];
        if !is_hop_header(h.name.as_str()) {
            let hc = h.clone();
            out.push(hc);
            proof {
                assert(hviews(out@) =~= strip_hop(hviews(headers@).subrange(0, i + 1)));
            }
        }
        i = i + 1;
    }
    proof {
        assert(hviews(headers@).subrange(0, headers@.len() as int) =~= hviews(headers@));
    }
    out
}

/// Position `j` holds the second slash of `s`: it is a slash and exactly one
/// slash stands before it.
pub open spec fn second_slash_at(s: Seq<char>, j: int) -> bool {
    &&& 0 <= j < s.len()
    &&& s[j] == '/'
    &&& exists|i: int|
        0 <= i < j && s[i] == '/' && (forall|k: int| 0 <= k < j && k != i ==> s[k] != '/')
}

/// The inbound path with its first segment (the route selector) dropped:
/// everything from the second slash on, or empty when there is no second
/// slash.
pub open spec fn strip_route(pq: Seq<char>) -> Seq<char> {
    if exists|j: int| second_slash_at(pq, j) {
        pq.subrange(choose|j: int| second_slash_at(pq, j), pq.len() as int)
    } else {
        Seq::empty()
    }
}

/// The rebuilt upstream target: the backend's base URL with the de-routed
/// remainder of the inbound path and query appended.
pub open spec fn target_url(base: Seq<char>, pq: Seq<char>) -> Seq<char> {
    base + strip_route(pq)
}

/// The inbound path and query with the route selector dropped.
pub fn route_suffix(pq: &str) -> (r: String)
    ensures
        r@ == strip_route(pq@),
{
    let len = pq.unicode_len();
    let mut i: usize = 0;
    let mut count: usize = 0;
    let mut first: usize = 0;
    while i < len
        invariant
            i <= len,
            len == pq@.len(),
            count <= 1,
            count == 0 ==> forall|k: int| 0 <= k < i ==> pq@[k] != '/',
            count == 1 ==> first < i && pq@[first as int] == '/' && forall|k: int|
                0 <= k < i && k != first ==> pq@[k] != '/',
        decreases len - i,
    {
        let c = pq.get_char(i);
        if c == '/' {
            if count == 0 {
                first = i;
                count = 1;
            } else {
                proof {
                    assert(first < i && pq@[first as int] == '/' && (forall|m: int|
                        0 <= m < i as int && m != first as int ==> pq@[m] != '/'));
                    assert(second_slash_at(pq@, i as int));
                    let j0 = choose|j: int| second_slash_at(pq@, j);
                    assert(j0 == i as int) by {
                        let i0 = choose|k: int|
                            0 <= k < j0 && pq@[k] == '/' && (forall|m: int|
                                0 <= m < j0 && m != k ==> pq@[m] != '/');
                        if j0 < i as int {
                            assert(pq@[j0] == '/');
                            assert(j0 == first as int);
                            assert(i0 < first as int && pq@[i0] == '/');
                        }
                        if j0 > i as int {
                            assert(pq@[first as int] == '/' && pq@[i as int] == '/');
                            assert(first as int == i0 && i as int == i0);
                        }
                    }
                }
                return pq.substring_char(i, len).to_owned();
            }
        }
        i = i + 1;
    }
    proof {
        assert forall|j: int| !second_slash_at(pq@, j) by {
            if second_slash_at(pq@, j) {
                let i0 = choose|k: int|
                    0 <= k < j && pq@[k] == '/' && (forall|m: int|
                        0 <= m < j && m != k ==> pq@[m] != '/');
                assert(pq@[j] == '/' && pq@[i0] == '/');
                assert(count == 1);
                assert(i0 == first as int && j == first as int);
            }
        }
    }
    String::new()
}

/// The host of a URL, as hyper's URI parser reads it; a function of the URL
/// string alone.
pub uninterp spec fn url_host(url: Seq<char>) -> Option<Seq<char>>;

/// Relies on hyper::Uri: parses a URL and yields its authority's host, or
/// nothing when the string does not parse as a URI with an authority.
#[verifier::external_body]
pub fn get_host_from_uri(uri: &str) -> (r: Option<String>)
    ensures
        match r {
            Some(h) => url_host(uri@) == Some(h@),
            None => url_host(uri@) is None,
        },
{
    match uri.parse::<hyper::Uri>() {
        Ok(u) => match u.host() {
            Some(h) => Some(h.to_string()),
            None => None,
        },
        Err(_) => None,
    }
}

/// The X-Forwarded-For step: the client IP is appended to an existing value
/// after `", "`, or starts the header; the (re)written entry stands at the
/// end of the list.
pub open spec fn forwarded_for(hs: Seq<(Seq<char>, Seq<char>)>, ip: Seq<char>) -> Seq<
    (Seq<char>, Seq<char>),
> {
    match first_named(hs, "x-forwarded-for"@) {
        Some(v) => set_header(hs, "x-forwarded-for"@, v + ", "@ + ip),
        None => set_header(hs, "x-forwarded-for"@, ip),
    }
}

fn append_forwarded_for(headers: &Vec<Header>, client_ip: &String) -> (r: Vec<Header>)
    ensures
        hviews(r@) == forwarded_for(hviews(headers@), client_ip@),
{
    match find_header(headers, "x-forwarded-for") {
        Some(existing) => {
            let mut v = existing.clone();
            v.append(", ");
            v.append(client_ip.as_str());
            insert_header(headers, "x-forwarded-for", v)
        },
        None => insert_header(headers, "x-forwarded-for", client_ip.clone()),
    }
}

/// The whole request-header rewrite: Host set to the upstream host,
/// hop-by-hop headers stripped, X-Forwarded-For appended, Via set.
pub open spec fn proxied_request_headers(
    hs: Seq<(Seq<char>, Seq<char>)>,
    ip: Seq<char>,
    host: Seq<char>,
) -> Seq<(Seq<char>, Seq<char>)> {
    set_header(forwarded_for(strip_hop(set_header(hs, "host"@, host)), ip), "via"@, SERVER_VIA@)
}

/// The response-header rewrite: hop-by-hop headers stripped, Via set.
pub open spec fn proxied_response_headers(hs: Seq<(Seq<char>, Seq<char>)>) -> Seq<
    (Seq<char>, Seq<char>),
> {
    set_header(strip_hop(hs), "via"@, SERVER_VIA@)
}

/// Hop-by-hop removal does not change which value a non-hop name finds first.
pub proof fn lemma_strip_hop_other(hs: Seq<(Seq<char>, Seq<char>)>, name: Seq<char>)
    requires
        !is_hop(name),
    ensures
        first_named(strip_hop(hs), name) == first_named(hs, name),
    decreases hs.len(),
{
    if hs.len() > 0 {
        lemma_strip_hop_other(hs.drop_last(), name);
        assert(hs.drop_last().push(hs.last()) =~= hs);
        crate::http::lemma_first_named_push(hs.drop_last(), hs.last(), name);
        if !is_hop(hs.last().0) {
            crate::http::lemma_first_named_push(strip_hop(hs.drop_last()), hs.last(), name);
        } else {
            assert(fold(hs.last().0) == fold(name) ==> is_hop(name));
        }
    }
}

/// The names the rewrite writes are distinct from one another, and none of
/// them is hop-by-hop; their lengths already tell them all apart.
proof fn lemma_written_names_distinct()
    ensures
        !is_hop("host"@),
        !is_hop("x-forwarded-for"@),
        fold("host"@) != fold("x-forwarded-for"@),
        fold("host"@) != fold("via"@),
        fold("x-forwarded-for"@) != fold("via"@),
{
    reveal_strlit("host");
    reveal_strlit("x-forwarded-for");
    reveal_strlit("via");
    reveal_strlit("Connection");
    reveal_strlit("Keep-Alive");
    reveal_strlit("Proxy-Authenticate");
    reveal_strlit("Proxy-Authorization");
    reveal_strlit("Te");
    reveal_strlit("Trailers");
    reveal_strlit("Transfer-Encoding");
    reveal_strlit("Upgrade");
    assert(fold("host"@).len() == 4);
    assert(fold("x-forwarded-for"@).len() == 15);
    assert(fold("via"@).len() == 3);
    assert(fold("Connection"@).len() == 10);
    assert(fold("Keep-Alive"@).len() == 10);
    assert(fold("Proxy-Authenticate"@).len() == 18);
    assert(fold("Proxy-Authorization"@).len() == 19);
    assert(fold("Te"@).len() == 2);
    assert(fold("Trailers"@).len() == 8);
    assert(fold("Transfer-Encoding"@).len() == 17);
    assert(fold("Upgrade"@).len() == 7);
}

/// What the request rewrite promises of the headers it writes: `Via` names
/// this gateway, `Host` is the upstream host, and `X-Forwarded-For` is the
/// client IP, appended after `", "` to whatever the client already sent.
pub proof fn lemma_proxied_request_headers_set(
    hs: Seq<(Seq<char>, Seq<char>)>,
    ip: Seq<char>,
    host: Seq<char>,
)
    ensures
        first_named(proxied_request_headers(hs, ip, host), "via"@) == Some(SERVER_VIA@),
        first_named(proxied_request_headers(hs, ip, host), "host"@) == Some(host),
        first_named(proxied_request_headers(hs, ip, host), "x-forwarded-for"@) == (
        match first_named(hs, "x-forwarded-for"@) {
            Some(v) => Some(v + ", "@ + ip),
            None => Some(ip),
        }),
{
    lemma_written_names_distinct();
    let h0 = set_header(hs, "host"@, host);
    let h1 = strip_hop(h0);
    let h2 = forwarded_for(h1, ip);
    crate::http::lemma_set_header_other(hs, "host"@, host, "x-forwarded-for"@);
    lemma_strip_hop_other(h0, "x-forwarded-for"@);
    crate::http::lemma_set_header_found(
        h1,
        "x-forwarded-for"@,
        match first_named(h1, "x-forwarded-for"@) {
            Some(v) => v + ", "@ + ip,
            None => ip,
        },
    );
    crate::http::lemma_set_header_other(h2, "via"@, SERVER_VIA@, "x-forwarded-for"@);
    crate::http::lemma_set_header_found(h2, "via"@, SERVER_VIA@);
    crate::http::lemma_set_header_found(hs, "host"@, host);
    lemma_strip_hop_other(h0, "host"@);
    crate::http::lemma_set_header_other(
        h1,
        "x-forwarded-for"@,
        match first_named(h1, "x-forwarded-for"@) {
            Some(v) => v + ", "@ + ip,
            None => ip,
        },
        "host"@,
    );
    crate::http::lemma_set_header_other(h2, "via"@, SERVER_VIA@, "host"@);
}

/// Every rewritten response names this gateway in `Via`.
pub proof fn lemma_proxied_response_via(hs: Seq<(Seq<char>, Seq<char>)>)
    ensures
        first_named(proxied_response_headers(hs), "via"@) == Some(SERVER_VIA@),
{
    crate::http::lemma_set_header_found(strip_hop(hs), "via"@, SERVER_VIA@);
}

/// Rewrites a client request into the upstream request: the target becomes
/// the backend's URL with the de-routed path appended, Host is set to that
/// target's host, hop-by-hop headers are stripped, X-Forwarded-For records
/// the client IP, and Via is set. Fails only when the rebuilt URL has no
/// host.
pub fn create_proxied_request(client_ip: &String, backend: &Backend, request: Request) -> (r:
    Result<Request, &'static str>)
    ensures
        match r {
            Ok(p) => {
                &&& url_host(target_url(backend.url@, request.uri@)) is Some
                &&& p.uri@ == target_url(backend.url@, request.uri@)
                &&& hviews(p.headers@) == proxied_request_headers(
                    hviews(request.headers@),
                    client_ip@,
                    url_host(target_url(backend.url@, request.uri@))->Some_0,
                )
            },
            Err(_) => url_host(target_url(backend.url@, request.uri@)) is None,
        },
{
    let suffix = route_suffix(request.uri.as_str());
    let target = backend.url.clone().concat(suffix.as_str());
    let host = match get_host_from_uri(target.as_str()) {
        Some(h) => h,
        None => {
            return Err("upstream URL has no host");
        },
    };
    let with_host = insert_header(&request.headers, "host", host);
    let stripped = remove_hop_headers(&with_host);
    let forwarded = append_forwarded_for(&stripped, client_ip);
    let with_via = insert_header(&forwarded, "via", String::from_str(SERVER_VIA));
    Ok(Request { uri: target, headers: with_via })
}

/// Backend-declared headers set left to right, each overwriting any entry of
/// its name.
pub open spec fn with_custom(
    hs: Seq<(Seq<char>, Seq<char>)>,
    extra: Seq<(Seq<char>, Seq<char>)>,
) -> Seq<(Seq<char>, Seq<char>)>
    decreases extra.len(),
{
    if extra.len() == 0 {
        hs
    } else {
        set_header(with_custom(hs, extra.drop_last()), extra.last().0, extra.last().1)
    }
}

/// Injects every backend-declared custom header, overwriting same-named
/// headers from the client. Header names compare caselessly throughout, so
/// the configured spelling is kept.
pub fn request_add_custom_headers(backend: &Backend, request: Request) -> (r: Request)
    ensures
        r.uri@ == request.uri@,
        hviews(r.headers@) == match backend.headers {
            Some(hs) => with_custom(hviews(request.headers@), hviews(hs@)),
            None => hviews(request.headers@),
        },
{
    let ghost orig = hviews(request.headers@);
    match &backend.headers {
        Some(hs) => {
            let mut headers = request.headers;
            let mut i: usize = 0;
            proof {
                assert(hviews(hs@).subrange(0, 0) =~= Seq::<(Seq<char>, Seq<char>)>::empty());
            }
            while i < hs.len()
                invariant
                    i <= hs@.len(),
                    hviews(headers@) == with_custom(orig, hviews(hs@).subrange(0, i as int)),
                decreases hs@.len() - i,
            {
                proof {
                    let ev = hviews(hs@);
                    assert(ev.subrange(0, i + 1).drop_last() =~= ev.subrange(0, i as int));
                    assert(ev.subrange(0, i + 1).last() == hview(hs@[i as int]));
                }
                let h = &hs[i];
                headers = insert_header(&headers, h.name.as_str(), h.value.clone());
                i = i + 1;
            }
            proof {
                assert(hviews(hs@).subrange(0, hs@.len() as int) =~= hviews(hs@));
            }
            Request { uri: request.uri, headers }
        },
        None => Request { uri: request.uri, headers: request.headers },
    }
}

/// Rewrites an upstream response for the client: hop-by-hop headers are
/// stripped and Via is set; the status passes through.
pub fn create_proxied_response(response: Response) -> (r: Response)
    ensures
        r.status == response.status,
        hviews(r.headers@) == proxied_response_headers(hviews(response.headers@)),
{
    let stripped = remove_hop_headers(&response.headers);
    let headers = insert_header(&stripped, "via", String::from_str(SERVER_VIA));
    Response { status: response.status, headers }
}

} // verus!
