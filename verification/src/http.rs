//! A plain-value model of the HTTP messages the gateway transforms: a header
//! list that preserves order and repeated names, a request as its target and
//! headers, and a response as its status and headers. Bodies pass through the
//! gateway untouched and are not part of the model.

use vstd::prelude::*;
use vstd::string::StrSliceExecFns;

verus! {

/// One HTTP header. A multi-valued header appears as repeated entries.
#[derive(Debug)]
pub struct Header {
    pub name: String,
    pub value: String,
}

impl Clone for Header {
    fn clone(&self) -> (r: Self)
        ensures
            r == *self,
    {
        Header { name: self.name.clone(), value: self.value.clone() }
    }
}

/// The characters of a header's name and value.
pub open spec fn hview(h: Header) -> (Seq<char>, Seq<char>) {
    (h.name@, h.value@)
}

/// The characters of each header in a list, in order.
pub open spec fn hviews(hs: Seq<Header>) -> Seq<(Seq<char>, Seq<char>)> {
    hs.map_values(|h: Header| hview(h))
}

/// A request: its URI (the inbound path with query, or the rebuilt absolute
/// upstream URL) and its headers.
#[derive(Debug)]
pub struct Request {
    pub uri: String,
    pub headers: Vec<Header>,
}

/// A response: its status code and its headers.
#[derive(Debug)]
pub struct Response {
    pub status: u16,
    pub headers: Vec<Header>,
}

/// ASCII case folding of one character; header names compare caselessly.
pub open spec fn fold_char(c: char) -> char {
    if 65 <= c as u32 && c as u32 <= 90 {
        ((c as u32) + 32) as char
    } else {
        c
    }
}

/// ASCII case folding of a string.
pub open spec fn fold(s: Seq<char>) -> Seq<char> {
    s.map_values(|c: char| fold_char(c))
}

fn fold_char_x(c: char) -> (r: char)
    ensures
        r == fold_char(c),
{
    let u = c as u32;
    if 65 <= u && u <= 90 {
        ((u + 32) as u8) as char
    } else {
        c
    }
}

/// Whether two strings are equal up to ASCII case.
pub fn eq_fold(a: &str, b: &str) -> (r: bool)
    ensures
        r == (fold(a@) == fold(b@)),
{
    let la = a.unicode_len();
    let lb = b.unicode_len();
    if la != lb {
        proof {
            assert(fold(a@).len() != fold(b@).len());
        }
        return false;
    }
    let mut i: usize = 0;
    while i < la
        invariant
            i <= la,
            la == a@.len(),
            lb == b@.len(),
            la == lb,
            forall|j: int| 0 <= j < i ==> fold_char(a@[j]) == fold_char(b@[j]),
        decreases la - i,
    {
        let ca = fold_char_x(a.get_char(i));
        let cb = fold_char_x(b.get_char(i));
        if ca != cb {
            proof {
                assert(fold(a@)[i as int] != fold(b@)[i as int]);
            }
            return false;
        }
        i = i + 1;
    }
    proof {
        assert(fold(a@) =~= fold(b@));
    }
    true
}

/// The headers without every entry of the given name, compared caselessly.
pub open spec fn remove_named(hs: Seq<(Seq<char>, Seq<char>)>, name: Seq<char>) -> Seq<
    (Seq<char>, Seq<char>),
>
    decreases hs.len(),
{
    if hs.len() == 0 {
        Seq::empty()
    } else {
        let rest = remove_named(hs.drop_last(), name);
        if fold(hs.last().0) == fold(name) {
            rest
        } else {
            rest.push(hs.last())
        }
    }
}

/// Sets a header: every entry of the name is removed and the new entry
/// appended at the end.
pub open spec fn set_header(
    hs: Seq<(Seq<char>, Seq<char>)>,
    name: Seq<char>,
    value: Seq<char>,
) -> Seq<(Seq<char>, Seq<char>)> {
    remove_named(hs, name).push((name, value))
}

/// The value of the first header of the given name, compared caselessly.
pub open spec fn first_named(hs: Seq<(Seq<char>, Seq<char>)>, name: Seq<char>) -> Option<Seq<char>>
    decreases hs.len(),
{
    if hs.len() == 0 {
        None
    } else if fold(hs[0].0) == fold(name) {
        Some(hs[0].1)
    } else {
        first_named(hs.drop_first(), name)
    }
}

/// What appending one header does to the first value of a name: an earlier
/// match stays first; otherwise the appended entry is it, if its name
/// matches.
pub proof fn lemma_first_named_push(
    hs: Seq<(Seq<char>, Seq<char>)>,
    x: (Seq<char>, Seq<char>),
    name: Seq<char>,
)
    ensures
        first_named(hs.push(x), name) == (if first_named(hs, name) is Some {
            first_named(hs, name)
        } else if fold(x.0) == fold(name) {
            Some(x.1)
        } else {
            None::<Seq<char>>
        }),
    decreases hs.len(),
{
    if hs.len() == 0 {
        assert(hs.push(x)[0] == x);
        assert(hs.push(x).drop_first() =~= Seq::<(Seq<char>, Seq<char>)>::empty());
    } else {
        assert(hs.push(x)[0] == hs[0]);
        assert(hs.push(x).drop_first() =~= hs.drop_first().push(x));
        lemma_first_named_push(hs.drop_first(), x, name);
    }
}

/// After a name is removed, no entry of it is left to find.
pub proof fn lemma_remove_named_none(hs: Seq<(Seq<char>, Seq<char>)>, name: Seq<char>)
    ensures
        first_named(remove_named(hs, name), name) is None,
    decreases hs.len(),
{
    if hs.len() > 0 {
        lemma_remove_named_none(hs.drop_last(), name);
        if fold(hs.last().0) != fold(name) {
            lemma_first_named_push(remove_named(hs.drop_last(), name), hs.last(), name);
        }
    }
}

/// Removing one name does not change which value another name finds first.
pub proof fn lemma_remove_named_other(
    hs: Seq<(Seq<char>, Seq<char>)>,
    name: Seq<char>,
    other: Seq<char>,
)
    requires
        fold(other) != fold(name),
    ensures
        first_named(remove_named(hs, name), other) == first_named(hs, other),
    decreases hs.len(),
{
    if hs.len() > 0 {
        lemma_remove_named_other(hs.drop_last(), name, other);
        assert(hs.drop_last().push(hs.last()) =~= hs);
        lemma_first_named_push(hs.drop_last(), hs.last(), other);
        if fold(hs.last().0) != fold(name) {
            lemma_first_named_push(remove_named(hs.drop_last(), name), hs.last(), other);
        }
    }
}

/// A set header's value is what its name then finds.
pub proof fn lemma_set_header_found(
    hs: Seq<(Seq<char>, Seq<char>)>,
    name: Seq<char>,
    value: Seq<char>,
)
    ensures
        first_named(set_header(hs, name, value), name) == Some(value),
{
    lemma_remove_named_none(hs, name);
    lemma_first_named_push(remove_named(hs, name), (name, value), name);
}

/// Setting one header does not change which value another name finds first.
pub proof fn lemma_set_header_other(
    hs: Seq<(Seq<char>, Seq<char>)>,
    name: Seq<char>,
    value: Seq<char>,
    other: Seq<char>,
)
    requires
        fold(other) != fold(name),
    ensures
        first_named(set_header(hs, name, value), other) == first_named(hs, other),
{
    lemma_remove_named_other(hs, name, other);
    lemma_first_named_push(remove_named(hs, name), (name, value), other);
}

/// Removes every header of the given name, preserving the rest in order.
pub fn remove_named_headers(headers: &Vec<Header>, name: &str) -> (r: Vec<Header>)
    ensures
        hviews(r@) == remove_named(hviews(headers@), name@),
{
    let mut out: Vec<Header> = Vec::new();
    let mut i: usize = 0;
    proof {
        assert(hviews(headers@).subrange(0, 0) =~= Seq::<(Seq<char>, Seq<char>)>::empty());
        assert(hviews(out@) =~= remove_named(hviews(headers@).subrange(0, 0), name@));
    }
    while i < headers.len()
        invariant
            i <= headers@.len(),
            hviews(out@) == remove_named(hviews(headers@).subrange(0, i as int), name@),
        decreases headers@.len() - i,
    {
        proof {
            let hv = hviews(headers@);
            assert(hv.subrange(0, i + 1).drop_last() =~= hv.subrange(0, i as int));
            assert(hv.subrange(0, i + 1).last() == hview(headers@[i as int]));
        }
        let h = &headers[i];
        if !eq_fold(h.name.as_str(), name) {
            let hc = h.clone();
            out.push(hc);
            proof {
                assert(hviews(out@) =~= remove_named(
                    hviews(headers@).subrange(0, i + 1),
                    name@,
                ));
            }
        }
        i = i + 1;
    }
    proof {
        assert(hviews(headers@).subrange(0, headers@.len() as int) =~= hviews(headers@));
    }
    out
}

/// Sets a header: removes every entry of the name and appends the new one.
pub fn insert_header(headers: &Vec<Header>, name: &str, value: String) -> (r: Vec<Header>)
    ensures
        hviews(r@) == set_header(hviews(headers@), name@, value@),
{
    let mut out = remove_named_headers(headers, name);
    out.push(Header { name: name.to_owned(), value });
    proof {
        assert(hviews(out@) =~= set_header(hviews(headers@), name@, value@));
    }
    out
}

/// The first header of the given name, compared caselessly.
pub fn find_header<'a>(headers: &'a Vec<Header>, name: &str) -> (r: Option<&'a String>)
    ensures
        match r {
            Some(v) => first_named(hviews(headers@), name@) == Some(v@),
            None => first_named(hviews(headers@), name@) is None,
        },
{
    let mut i: usize = 0;
    proof {
        assert(hviews(headers@).subrange(0, headers@.len() as int) =~= hviews(headers@));
    }
    while i < headers.len()
        invariant
            i <= headers@.len(),
            first_named(hviews(headers@), name@) == first_named(
                hviews(headers@).subrange(i as int, headers@.len() as int),
                name@,
            ),
        decreases headers@.len() - i,
    {
        proof {
            let hv = hviews(headers@);
            let tail = hv.subrange(i as int, hv.len() as int);
            assert(tail[0] == hview(headers@[i as int]));
            assert(tail.drop_first() =~= hv.subrange(i + 1, hv.len() as int));
        }
        let h = &headers[i];
        if eq_fold(h.name.as_str(), name) {
            return Some(&h.value);
        }
        i = i + 1;
    }
    proof {
        assert(hviews(headers@).subrange(
            headers@.len() as int,
            headers@.len() as int,
        ) =~= Seq::<(Seq<char>, Seq<char>)>::empty());
    }
    None
}

} // verus!
