//! The scope model: a two-level permission token `parent:child`, either half
//! possibly a wildcard, with the partial-order `covers` relation that decides
//! whether a granted scope authorizes a required one.

use vstd::prelude::*;
use vstd::string::StrSliceExecFns;
use vstd::string::StringExecFns;

verus! {

/// One half of a scope: a literal token or the wildcard.
#[derive(Debug)]
pub enum ScopeValue {
    Scope(String),
    Wildcard,
}

/// The mathematical shape of a `ScopeValue`: the literal's characters, or the
/// wildcard as a distinct variant.
pub enum ScopeValueView {
    Scope(Seq<char>),
    Wildcard,
}

impl View for ScopeValue {
    type V = ScopeValueView;

    open spec fn view(&self) -> ScopeValueView {
        match self {
            ScopeValue::Scope(s) => ScopeValueView::Scope(s@),
            ScopeValue::Wildcard => ScopeValueView::Wildcard,
        }
    }
}

/// The value a segment string denotes: `"*"` is the wildcard, anything else a
/// literal token.
pub open spec fn scope_value_of(s: Seq<char>) -> ScopeValueView {
    if s == seq!['*'] {
        ScopeValueView::Wildcard
    } else {
        ScopeValueView::Scope(s)
    }
}

impl Clone for ScopeValue {
    fn clone(&self) -> (r: Self)
        ensures
            r == *self,
    {
        match self {
            ScopeValue::Scope(s) => ScopeValue::Scope(s.clone()),
            ScopeValue::Wildcard => ScopeValue::Wildcard,
        }
    }
}

impl ScopeValue {
    /// Reads one segment: `"*"` becomes the wildcard, anything else a literal.
    pub fn from(val: &str) -> (r: Self)
        ensures
            r@ == scope_value_of(val@),
    {
        let len = val.unicode_len();
        if len == 1 && val.get_char(0) == '*' {
            proof {
                assert(val@ =~= seq!['*']);
            }
            ScopeValue::Wildcard
        } else {
            proof {
                assert(val@ != seq!['*']);
            }
            ScopeValue::Scope(val.to_owned())
        }
    }

    pub fn is_wildcard(&self) -> (r: bool)
        ensures
            r == (self@ is Wildcard),
    {
        match self {
            ScopeValue::Wildcard => true,
            ScopeValue::Scope(_) => false,
        }
    }

    /// By-value equality: wildcard equals wildcard, literals by their text.
    pub fn eq_value(&self, other: &ScopeValue) -> (r: bool)
        ensures
            r == (self@ == other@),
    {
        match (self, other) {
            (ScopeValue::Wildcard, ScopeValue::Wildcard) => true,
            (ScopeValue::Scope(a), ScopeValue::Scope(b)) => String::eq(a, b),
            _ => false,
        }
    }

    /// The string form of a segment: `"*"` for the wildcard, the literal itself
    /// otherwise.
    pub fn render(&self) -> (r: String)
        ensures
            r@ == render_value(self@),
    {
        match self {
            ScopeValue::Wildcard => {
                proof {
                    reveal_strlit("*");
                    assert("*"@ =~= seq!['*']);
                }
                String::from_str("*")
            },
            ScopeValue::Scope(s) => s.clone(),
        }
    }
}

/// An ordered pair `(parent, child)`, constructed only from a two-segment
/// colon-delimited string.
#[derive(Debug)]
pub struct ScopeEntry {
    pub parent: ScopeValue,
    pub child: ScopeValue,
}

/// The mathematical shape of a `ScopeEntry`.
pub struct ScopeEntryView {
    pub parent: ScopeValueView,
    pub child: ScopeValueView,
}

impl View for ScopeEntry {
    type V = ScopeEntryView;

    open spec fn view(&self) -> ScopeEntryView {
        ScopeEntryView { parent: self.parent@, child: self.child@ }
    }
}

impl Clone for ScopeEntry {
    fn clone(&self) -> (r: Self)
        ensures
            r == *self,
    {
        ScopeEntry { parent: self.parent.clone(), child: self.child.clone() }
    }
}

/// The universal scope `*:*`, which covers everything.
pub open spec fn universal() -> ScopeEntryView {
    ScopeEntryView { parent: ScopeValueView::Wildcard, child: ScopeValueView::Wildcard }
}

/// `outer` covers `inner` when `outer` is the universal scope, or `outer`
/// grants all children of `inner`'s parent, or `outer` grants `inner`'s child
/// under any parent, or the two are an exact match. In every other case it
/// does not; the relation is a partial order, not a total one.
pub open spec fn covers(outer: ScopeEntryView, inner: ScopeEntryView) -> bool {
    ||| (outer.parent is Wildcard && outer.child is Wildcard)
    ||| (outer.child is Wildcard && outer.parent == inner.parent)
    ||| (outer.parent is Wildcard && outer.child == inner.child)
    ||| (outer.parent == inner.parent && outer.child == inner.child)
}

/// `covers` holds of exact matches and of the universal scope over itself.
pub proof fn lemma_covers_reflexive(e: ScopeEntryView)
    ensures
        covers(e, e),
{
}

/// The universal scope covers every entry.
pub proof fn lemma_universal_covers_all(e: ScopeEntryView)
    ensures
        covers(universal(), e),
{
}

/// Only the universal scope covers the universal scope.
pub proof fn lemma_covering_universal_is_universal(e: ScopeEntryView)
    ensures
        covers(e, universal()) <==> e == universal(),
{
}

/// `covers` is not symmetric: whenever a covering scope differs from the
/// covered one and is not the universal scope, the reverse does not hold.
pub proof fn lemma_covers_asymmetric(a: ScopeEntryView, b: ScopeEntryView)
    requires
        covers(a, b),
        a != b,
        a != universal(),
    ensures
        !covers(b, a),
{
}

/// `covers` is transitive, as a partial order must be.
pub proof fn lemma_covers_transitive(a: ScopeEntryView, b: ScopeEntryView, c: ScopeEntryView)
    requires
        covers(a, b),
        covers(b, c),
    ensures
        covers(a, c),
{
}

/// Position `i` holds the only colon of `s`.
pub open spec fn lone_colon_at(s: Seq<char>, i: int) -> bool {
    &&& 0 <= i < s.len()
    &&& s[i] == ':'
    &&& forall|j: int| 0 <= j < s.len() && j != i ==> s[j] != ':'
}

/// The entry read from `s` with its lone colon at position `i`.
pub open spec fn split_at_colon(s: Seq<char>, i: int) -> ScopeEntryView {
    ScopeEntryView {
        parent: scope_value_of(s.subrange(0, i)),
        child: scope_value_of(s.subrange(i + 1, s.len() as int)),
    }
}

/// What parsing a scope string yields: an entry exactly when the string has
/// exactly two colon-delimited segments, that is, exactly one colon.
pub open spec fn parse_scope_entry(s: Seq<char>) -> Option<ScopeEntryView> {
    if exists|i: int| lone_colon_at(s, i) {
        Some(split_at_colon(s, choose|i: int| lone_colon_at(s, i)))
    } else {
        None
    }
}

impl ScopeEntry {
    /// Parses `"parent:child"`. Fails unless exactly two colon-delimited
    /// segments exist; so for every string of any other segment count the
    /// result is the parse error.
    pub fn try_from(val: &str) -> (r: Result<ScopeEntry, &'static str>)
        ensures
            match r {
                Ok(e) => parse_scope_entry(val@) == Some(e@),
                Err(m) => {
                    &&& parse_scope_entry(val@) is None
                    &&& m@ == "ScopeEntry must be single level"@
                },
            },
            r is Ok <==> (exists|i: int| lone_colon_at(val@, i)),
    {
        let len = val.unicode_len();
        let mut i: usize = 0;
        let mut count: usize = 0;
        let mut first: usize = 0;
        while i < len
            invariant
                i <= len,
                len == val@.len(),
                count <= i,
                count == 0 ==> forall|j: int| 0 <= j < i ==> val@[j] != ':',
                count == 1 ==> first < i && val@[first as int] == ':' && forall|j: int|
                    0 <= j < i && j != first ==> val@[j] != ':',
                count >= 2 ==> exists|j: int, k: int|
                    0 <= j < k < i && val@[j] == ':' && val@[k] == ':',
            decreases len - i,
        {
            let c = val.get_char(i);
            if c == ':' {
                if count == 0 {
                    first = i;
                }
                count = count + 1;
            }
            i = i + 1;
        }
        if count == 1 {
            proof {
                assert(lone_colon_at(val@, first as int));
            }
            let parent_str = val.substring_char(0, first);
            let child_str = val.substring_char(first + 1, len);
            let parent = ScopeValue::from(parent_str);
            let child = ScopeValue::from(child_str);
            let e = ScopeEntry { parent, child };
            proof {
                let w = choose|i: int| lone_colon_at(val@, i);
                assert(w == first as int);
                assert(e@ == split_at_colon(val@, first as int));
            }
            Ok(e)
        } else {
            proof {
                assert(forall|p: int| !lone_colon_at(val@, p)) by {
                    if count == 0 {
                        assert(forall|p: int| 0 <= p < val@.len() ==> val@[p] != ':');
                    } else {
                        let (j, k) = choose|j: int, k: int|
                            0 <= j < k < val@.len() && val@[j] == ':' && val@[k] == ':';
                        assert forall|p: int| !lone_colon_at(val@, p) by {
                            if lone_colon_at(val@, p) {
                                assert(j != p || k != p);
                            }
                        }
                    }
                }
            }
            Err("ScopeEntry must be single level")
        }
    }

    /// Whether this entry, taken as a granted scope, covers `inner`.
    pub fn covers(&self, inner: &ScopeEntry) -> (r: bool)
        ensures
            r == covers(self@, inner@),
    {
        if self.parent.is_wildcard() && self.child.is_wildcard() {
            true
        } else if self.child.is_wildcard() && self.parent.eq_value(&inner.parent) {
            true
        } else if self.parent.is_wildcard() && self.child.eq_value(&inner.child) {
            true
        } else {
            self.parent.eq_value(&inner.parent) && self.child.eq_value(&inner.child)
        }
    }

    /// The string form `"parent:child"`.
    pub fn render(&self) -> (r: String)
        ensures
            r@ == render_entry(self@),
    {
        proof {
            reveal_strlit(":");
            assert(":"@ =~= seq![':']);
        }
        let mut r = self.parent.render();
        r.append(":");
        let child = self.child.render();
        r.append(child.as_str());
        r
    }
}

/// The string form of a segment.
pub open spec fn render_value(v: ScopeValueView) -> Seq<char> {
    match v {
        ScopeValueView::Wildcard => seq!['*'],
        ScopeValueView::Scope(s) => s,
    }
}

/// The string form `"parent:child"` of an entry.
pub open spec fn render_entry(e: ScopeEntryView) -> Seq<char> {
    render_value(e.parent) + seq![':'] + render_value(e.child)
}

/// A segment value as parsing produces it: a literal never spells the
/// wildcard and holds no colon.
pub open spec fn value_wf(v: ScopeValueView) -> bool {
    match v {
        ScopeValueView::Scope(s) => !s.contains(':') && s != seq!['*'],
        ScopeValueView::Wildcard => true,
    }
}

/// An entry as parsing produces it.
pub open spec fn entry_wf(e: ScopeEntryView) -> bool {
    value_wf(e.parent) && value_wf(e.child)
}

/// Every entry that parsing yields is well-formed.
pub proof fn lemma_parse_wf(s: Seq<char>)
    requires
        parse_scope_entry(s) is Some,
    ensures
        entry_wf(parse_scope_entry(s)->Some_0),
{
    let i = choose|i: int| lone_colon_at(s, i);
    let p = s.subrange(0, i);
    let c = s.subrange(i + 1, s.len() as int);
    assert(!p.contains(':')) by {
        if p.contains(':') {
            let j = choose|j: int| 0 <= j < p.len() && p[j] == ':';
            assert(s[j] == ':');
        }
    }
    assert(!c.contains(':')) by {
        if c.contains(':') {
            let j = choose|j: int| 0 <= j < c.len() && c[j] == ':';
            assert(s[j + i + 1] == ':');
        }
    }
}

/// Round trip: rendering a well-formed entry and parsing the result gives the
/// entry back.
pub proof fn lemma_parse_of_render(e: ScopeEntryView)
    requires
        entry_wf(e),
    ensures
        parse_scope_entry(render_entry(e)) == Some(e),
{
    let s = render_entry(e);
    let p = render_value(e.parent);
    let c = render_value(e.child);
    let i = p.len() as int;
    assert(s[i] == ':');
    assert forall|j: int| 0 <= j < s.len() && j != i implies s[j] != ':' by {
        if j < i {
            assert(s[j] == p[j]);
            match e.parent {
                ScopeValueView::Scope(t) => {
                    assert(!t.contains(':'));
                    assert(t[j] != ':');
                },
                ScopeValueView::Wildcard => {
                    assert(p[j] == '*');
                },
            }
        } else {
            assert(s[j] == c[j - i - 1]);
            match e.child {
                ScopeValueView::Scope(t) => {
                    assert(!t.contains(':'));
                    assert(t[j - i - 1] != ':');
                },
                ScopeValueView::Wildcard => {
                    assert(c[j - i - 1] == '*');
                },
            }
        }
    }
    assert(lone_colon_at(s, i));
    let w = choose|k: int| lone_colon_at(s, k);
    assert(w == i);
    assert(s.subrange(0, i) =~= p);
    assert(s.subrange(i + 1, s.len() as int) =~= c);
    assert(scope_value_of(p) == e.parent) by {
        match e.parent {
            ScopeValueView::Scope(t) => {
                assert(t != seq!['*']);
            },
            ScopeValueView::Wildcard => {},
        }
    }
    assert(scope_value_of(c) == e.child) by {
        match e.child {
            ScopeValueView::Scope(t) => {
                assert(t != seq!['*']);
            },
            ScopeValueView::Wildcard => {},
        }
    }
}

} // verus!
