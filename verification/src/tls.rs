//! Outbound client-certificate credentials: the configured PEM source and the
//! rule that selects, from the decoded PEM sections, a certificate chain and
//! exactly one private key. Reading the file happens outside the library; the
//! PEM decoding itself is rustls_pemfile's.

use vstd::prelude::*;
use vstd::slice::slice_to_vec;

verus! {

/// Where a backend's outbound client certificate comes from: a PEM file
/// holding the certificate chain and exactly one private key.
#[derive(Debug)]
pub enum ClientCertAuth {
    PEMFile(String),
}

impl Clone for ClientCertAuth {
    fn clone(&self) -> (r: Self)
        ensures
            r == *self,
    {
        match self {
            ClientCertAuth::PEMFile(p) => ClientCertAuth::PEMFile(p.clone()),
        }
    }
}

impl ClientCertAuth {
    /// The path of the PEM file to read.
    pub fn pem_path(&self) -> (r: &String)
        ensures
            *self matches ClientCertAuth::PEMFile(p) && r@ == p@,
    {
        match self {
            ClientCertAuth::PEMFile(p) => p,
        }
    }
}

/// One decoded PEM section, reduced to what the credential selection reads:
/// a DER certificate, a DER private key, or any other section kind.
#[derive(Debug)]
pub enum PemItem {
    Cert(Vec<u8>),
    Key(Vec<u8>),
    Other,
}

/// Relies on rustls_pemfile::read_all: decodes every PEM section of `data`,
/// failing on malformed PEM. Certificates map to `Cert`, private keys of any
/// supported encoding (PKCS#1, PKCS#8 or SEC1) to `Key`, any other section
/// kind to `Other`.
#[verifier::external_body]
fn read_pem_items(data: &[u8]) -> (r: Result<Vec<PemItem>, &'static str>) {
    let mut rd = data;
    match rustls_pemfile::read_all(&mut rd) {
        Ok(items) => Ok(
            items.into_iter().map(|item| match item {
                rustls_pemfile::Item::X509Certificate(d) => PemItem::Cert(d),
                rustls_pemfile::Item::RSAKey(d) => PemItem::Key(d),
                rustls_pemfile::Item::PKCS8Key(d) => PemItem::Key(d),
                rustls_pemfile::Item::ECKey(d) => PemItem::Key(d),
                _ => PemItem::Other,
            }).collect(),
        ),
        Err(_) => Err("Unable to read PEM data."),
    }
}

/// How many private keys the items hold.
pub open spec fn key_count(items: Seq<PemItem>) -> nat
    decreases items.len(),
{
    if items.len() == 0 {
        0
    } else {
        key_count(items.drop_last()) + if items.last() is Key {
            1nat
        } else {
            0nat
        }
    }
}

/// The certificates among the items, in order.
pub open spec fn certs_of(items: Seq<PemItem>) -> Seq<Seq<u8>>
    decreases items.len(),
{
    if items.len() == 0 {
        Seq::empty()
    } else {
        let rest = certs_of(items.drop_last());
        match items.last() {
            PemItem::Cert(d) => rest.push(d@),
            _ => rest,
        }
    }
}

/// The first private key among the items, if any.
pub open spec fn first_key(items: Seq<PemItem>) -> Option<Seq<u8>>
    decreases items.len(),
{
    if items.len() == 0 {
        None
    } else {
        match items[0] {
            PemItem::Key(d) => Some(d@),
            _ => first_key(items.drop_first()),
        }
    }
}

proof fn lemma_key_count_prefix_le(items: Seq<PemItem>, n: int)
    requires
        0 <= n <= items.len(),
    ensures
        key_count(items.subrange(0, n)) <= key_count(items),
    decreases items.len(),
{
    if n < items.len() {
        assert(items.subrange(0, n) =~= items.drop_last().subrange(0, n));
        lemma_key_count_prefix_le(items.drop_last(), n);
    } else {
        assert(items.subrange(0, n) =~= items);
    }
}

/// What appending one item does to the first key: an earlier key stays the
/// first; otherwise the appended item is it, if it is one.
proof fn lemma_first_key_push(s: Seq<PemItem>, x: PemItem)
    ensures
        first_key(s.push(x)) == (if first_key(s) is Some {
            first_key(s)
        } else if x is Key {
            Some(x->Key_0@)
        } else {
            None::<Seq<u8>>
        }),
    decreases s.len(),
{
    if s.len() == 0 {
        assert(s.push(x)[0] == x);
        assert(s.push(x).drop_first() =~= Seq::<PemItem>::empty());
    } else {
        assert(s.push(x)[0] == s[0]);
        assert(s.push(x).drop_first() =~= s.drop_first().push(x));
        lemma_first_key_push(s.drop_first(), x);
    }
}

/// Selects the credential from decoded PEM sections: every certificate, in
/// order, and the one private key. Fails when the sections hold no private
/// key or more than one; other section kinds are ignored.
pub fn select_client_cert(items: &Vec<PemItem>) -> (r: Result<(Vec<Vec<u8>>, Vec<u8>), &'static str>)
    ensures
        match r {
            Ok((certs, key)) => {
                &&& key_count(items@) == 1
                &&& certs.deep_view() == certs_of(items@)
                &&& first_key(items@) == Some(key@)
            },
            Err(m) => {
                &&& key_count(items@) != 1
                &&& if key_count(items@) == 0 {
                    m@ == "Missing private key."@
                } else {
                    m@ == "Multiple private keys."@
                }
            },
        },
{
    let mut certs: Vec<Vec<u8>> = Vec::new();
    let mut key: Option<Vec<u8>> = None;
    let mut i: usize = 0;
    proof {
        assert(items@.subrange(0, 0) =~= Seq::<PemItem>::empty());
        assert(certs.deep_view() =~~= certs_of(items@.subrange(0, 0)));
    }
    while i < items.len()
        invariant
            i <= items@.len(),
            certs.deep_view() == certs_of(items@.subrange(0, i as int)),
            match key {
                Some(k) => key_count(items@.subrange(0, i as int)) == 1 && first_key(
                    items@.subrange(0, i as int),
                ) == Some(k@),
                None => key_count(items@.subrange(0, i as int)) == 0 && first_key(
                    items@.subrange(0, i as int),
                ) is None,
            },
        decreases items@.len() - i,
    {
        proof {
            assert(items@.subrange(0, i + 1).drop_last() =~= items@.subrange(0, i as int));
            assert(items@.subrange(0, i + 1).last() == items@[i as int]);
            assert(items@.subrange(0, i + 1) =~= items@.subrange(0, i as int).push(
                items@[i as int],
            ));
            lemma_first_key_push(items@.subrange(0, i as int), items@[i as int]);
        }
        match &items[i] {
            PemItem::Cert(d) => {
                certs.push(slice_to_vec(d.as_slice()));
                proof {
                    assert(certs.deep_view() =~~= certs_of(items@.subrange(0, i + 1)));
                }
            },
            PemItem::Key(d) => {
                if key.is_some() {
                    proof {
                        assert(key_count(items@.subrange(0, i + 1)) == 2);
                        lemma_key_count_prefix_le(items@, i + 1);
                    }
                    return Err("Multiple private keys.");
                }
                key = Some(slice_to_vec(d.as_slice()));
            },
            PemItem::Other => {},
        }
        i = i + 1;
    }
    proof {
        assert(items@.subrange(0, items@.len() as int) =~= items@);
    }
    match key {
        Some(k) => Ok((certs, k)),
        None => Err("Missing private key."),
    }
}

/// Decodes a PEM file's bytes and selects the outbound credential: the
/// certificate chain and the single private key. Whatever sections the PEM
/// decoding yields, success means they held exactly one private key, and the
/// result is all their certificates in order together with that key.
pub fn client_cert_from_pem(data: &Vec<u8>) -> (r: Result<(Vec<Vec<u8>>, Vec<u8>), &'static str>)
    ensures
        r matches Ok((certs, key)) ==> exists|items: Seq<PemItem>|
            {
                &&& key_count(items) == 1
                &&& certs.deep_view() == certs_of(items)
                &&& first_key(items) == Some(key@)
            },
{
    let items = match read_pem_items(data.as_slice()) {
        Ok(items) => items,
        Err(m) => {
            return Err(m);
        },
    };
    let r = select_client_cert(&items);
    proof {
        if r is Ok {
            assert(key_count(items@) == 1 && r->Ok_0.0.deep_view() == certs_of(items@)
                && first_key(items@) == Some(r->Ok_0.1@));
        }
    }
    r
}

} // verus!
