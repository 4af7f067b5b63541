//! A small header container: an ordered list of (name, value) pairs in
//! which names are stored lower-cased and are unique.  Lookups fold the
//! queried name to lower case, so access is case-insensitive.

use vstd::prelude::*;

use crate::chars::{lower_seq, spec_lower_char};
use crate::strutil::{eq_str, to_lower_string};

verus! {

/// One header line.
pub struct HeaderField {
    pub name: String,
    pub value: String,
}

/// The mathematical content of a header container: the (name, value)
/// pairs in order, as character sequences.
pub type HeadersView = Seq<(Seq<char>, Seq<char>)>;

/// An ordered header map with lower-cased, unique names.
pub struct Headers {
    entries: Vec<HeaderField>,
}

impl View for Headers {
    type V = HeadersView;

    closed spec fn view(&self) -> HeadersView {
        self.entries@.map_values(|e: HeaderField| (e.name@, e.value@))
    }
}

/// A sequence of characters that is already ASCII lower-case.
pub open spec fn is_lower(s: Seq<char>) -> bool {
    forall|i: int| 0 <= i < s.len() ==> #[trigger] s[i] == spec_lower_char(s[i])
}

/// Index of the first pair whose name is `name`, or the length if none.
pub open spec fn index_of(hs: HeadersView, name: Seq<char>) -> int
    decreases hs.len(),
{
    if hs.len() == 0 {
        0
    } else if hs[0].0 == name {
        0
    } else {
        1 + index_of(hs.drop_first(), name)
    }
}

/// The value stored under `name`, if any.
pub open spec fn lookup(hs: HeadersView, name: Seq<char>) -> Option<Seq<char>>
    decreases hs.len(),
{
    if hs.len() == 0 {
        None
    } else if hs[0].0 == name {
        Some(hs[0].1)
    } else {
        lookup(hs.drop_first(), name)
    }
}

/// `index_of` points at the first matching pair.
pub proof fn lemma_index_of(hs: HeadersView, name: Seq<char>)
    ensures
        0 <= index_of(hs, name) <= hs.len(),
        index_of(hs, name) < hs.len() ==> hs[index_of(hs, name)].0 == name,
        forall|k: int| 0 <= k < index_of(hs, name) ==> hs[k].0 != name,
        lookup(hs, name) == if index_of(hs, name) < hs.len() {
            Some(hs[index_of(hs, name)].1)
        } else {
            None::<Seq<char>>
        },
    decreases hs.len(),
{
    if hs.len() > 0 && hs[0].0 != name {
        lemma_index_of(hs.drop_first(), name);
        let t = hs.drop_first();
        assert forall|k: int| 0 <= k < index_of(hs, name) implies hs[k].0 != name by {
            if k > 0 {
                assert(t[k - 1] == hs[k]);
                assert(t[k - 1].0 != name);
            }
        }
    }
}

/// Determining `index_of` from a search that found the first match.
pub proof fn lemma_index_of_found(hs: HeadersView, name: Seq<char>, j: int)
    requires
        0 <= j <= hs.len(),
        forall|k: int| 0 <= k < j ==> hs[k].0 != name,
        j == hs.len() || hs[j].0 == name,
    ensures
        index_of(hs, name) == j,
    decreases j,
{
    if j > 0 {
        assert(hs[0].0 != name);
        let t = hs.drop_first();
        assert(forall|k: int| 0 <= k < j - 1 ==> t[k] == hs[k + 1]);
        lemma_index_of_found(t, name, j - 1);
    }
}

/// Well-formedness: names are lower-case and unique.
pub open spec fn hs_wf(hs: HeadersView) -> bool {
    &&& forall|i: int| 0 <= i < hs.len() ==> is_lower(#[trigger] hs[i].0)
    &&& forall|i: int, j: int| 0 <= i < j < hs.len() ==> hs[i].0 != hs[j].0
}

impl Headers {
    /// Well-formedness of the container.
    pub open spec fn wf(&self) -> bool {
        hs_wf(self@)
    }

    /// The empty header map.
    pub fn new() -> (r: Headers)
        ensures
            r@ == Seq::<(Seq<char>, Seq<char>)>::empty(),
            r.wf(),
    {
        let r = Headers { entries: Vec::new() };
        proof {
            assert(r@ =~= Seq::<(Seq<char>, Seq<char>)>::empty());
        }
        r
    }

    /// Number of headers.
    pub fn len(&self) -> (r: usize)
        ensures
            r == self@.len(),
    {
        self.entries.len()
    }

    /// The stored (lower-cased) name at position `i`.
    pub fn name_at(&self, i: usize) -> (r: &String)
        requires
            i < self@.len(),
        ensures
            r@ == self@[i as int].0,
    {
        &self.entries[i].name
    }

    /// The value at position `i`.
    pub fn value_at(&self, i: usize) -> (r: &String)
        requires
            i < self@.len(),
        ensures
            r@ == self@[i as int].1,
    {
        &self.entries[i].value
    }

    /// Index of the first entry named `name` (which must already be
    /// lower-case), or the number of entries if there is none.
    fn find_idx(&self, name: &str) -> (r: usize)
        ensures
            r == index_of(self@, name@),
    {
        let n = self.entries.len();
        let mut i: usize = 0;
        while i < n
            invariant
                0 <= i <= n,
                n == self@.len(),
                forall|k: int| 0 <= k < i ==> self@[k].0 != name@,
            decreases n - i,
        {
            if eq_str(self.entries[i].name.as_str(), name) {
                proof {
                    assert(self@[i as int].0 == name@);
                    lemma_index_of_found(self@, name@, i as int);
                }
                return i;
            }
            i += 1;
        }
        proof {
            lemma_index_of_found(self@, name@, n as int);
        }
        n
    }

    /// Case-insensitive lookup.
    pub fn get(&self, name: &str) -> (r: Option<&String>)
        ensures
            match r {
                Some(v) => lookup(self@, lower_seq(name@)) == Some(v@),
                None => lookup(self@, lower_seq(name@)) is None,
            },
    {
        let ln = to_lower_string(name);
        let i = self.find_idx(ln.as_str());
        proof {
            lemma_index_of(self@, lower_seq(name@));
        }
        if i < self.entries.len() {
            Some(&self.entries[i].value)
        } else {
            None
        }
    }

    /// Is a header with this name present?
    pub fn contains(&self, name: &str) -> (r: bool)
        ensures
            r == (lookup(self@, lower_seq(name@)) is Some),
    {
        let i = self.find_idx(to_lower_string(name).as_str());
        proof {
            lemma_index_of(self@, lower_seq(name@));
        }
        i < self.entries.len()
    }

    /// Sets a header: replaces the value in place when the name is already
    /// present, appends a new entry otherwise.  The stored name is the
    /// lower-cased form of `name`.
    pub fn set(&mut self, name: &str, value: &str)
        requires
            old(self).wf(),
        ensures
            final(self).wf(),
            final(self)@ == spec_set(old(self)@, lower_seq(name@), value@),
    {
        let ln = to_lower_string(name);
        let i = self.find_idx(ln.as_str());
        proof {
            lemma_index_of(self@, lower_seq(name@));
            lemma_lower_seq_is_lower(name@);
        }
        if i < self.entries.len() {
            self.entries.set(i, HeaderField { name: ln, value: value.to_owned() });
            proof {
                assert(self@ =~= spec_set(old(self)@, lower_seq(name@), value@));
            }
        } else {
            self.entries.push(HeaderField { name: ln, value: value.to_owned() });
            proof {
                assert(self@ =~= spec_set(old(self)@, lower_seq(name@), value@));
                let hs = self@;
                let o = old(self)@;
                assert forall|a: int, b: int| 0 <= a < b < hs.len() implies hs[a].0 != hs[b].0 by {
                    if b == hs.len() - 1 {
                        assert(hs[b].0 == lower_seq(name@));
                        assert(hs[a] == o[a]);
                        assert(o[a].0 != lower_seq(name@));
                    }
                }
            }
        }
    }

    /// Removes the header with this name, if present.
    pub fn remove(&mut self, name: &str)
        requires
            old(self).wf(),
        ensures
            final(self).wf(),
            final(self)@ == spec_remove(old(self)@, lower_seq(name@)),
    {
        let ln = to_lower_string(name);
        let i = self.find_idx(ln.as_str());
        proof {
            lemma_index_of(self@, lower_seq(name@));
        }
        if i < self.entries.len() {
            self.entries.remove(i);
            proof {
                assert(self@ =~= spec_remove(old(self)@, lower_seq(name@)));
            }
        } else {
            proof {
                assert(self@ =~= spec_remove(old(self)@, lower_seq(name@)));
            }
        }
    }

    /// A fresh copy with the same contents.
    pub fn duplicate(&self) -> (r: Headers)
        ensures
            r@ == self@,
    {
        let n = self.entries.len();
        let mut v: Vec<HeaderField> = Vec::new();
        let mut i: usize = 0;
        while i < n
            invariant
                0 <= i <= n,
                n == self.entries@.len(),
                v@.len() == i,
                forall|k: int| 0 <= k < i ==> (#[trigger] v@[k]).name@ == self.entries@[k].name@
                    && v@[k].value@ == self.entries@[k].value@,
            decreases n - i,
        {
            let name = self.entries[i].name.clone();
            let value = self.entries[i].value.clone();
            v.push(HeaderField { name, value });
            i += 1;
        }
        let r = Headers { entries: v };
        proof {
            assert(r@ =~= self@);
        }
        r
    }

    /// Appends an entry that is known not to collide; used when copying.
    pub fn push_unchecked(&mut self, name: String, value: String)
        requires
            old(self).wf(),
            is_lower(name@),
            lookup(old(self)@, name@) is None,
        ensures
            final(self).wf(),
            final(self)@ == old(self)@.push((name@, value@)),
    {
        proof {
            lemma_index_of(self@, name@);
        }
        self.entries.push(HeaderField { name, value });
        proof {
            assert(self@ =~= old(self)@.push((name@, value@)));
            let hs = self@;
            let o = old(self)@;
            assert forall|a: int, b: int| 0 <= a < b < hs.len() implies hs[a].0 != hs[b].0 by {
                if b == hs.len() - 1 {
                    assert(hs[a] == o[a]);
                    assert(index_of(o, hs[b].0) == o.len());
                    assert(o[a].0 != hs[b].0);
                }
            }
        }
    }
}

/// The view after a `set`: replacement in place, or a new pair at the end.
pub open spec fn spec_set(hs: HeadersView, name: Seq<char>, value: Seq<char>) -> HeadersView {
    if index_of(hs, name) < hs.len() {
        hs.update(index_of(hs, name), (name, value))
    } else {
        hs.push((name, value))
    }
}

/// The view after a `remove`.
pub open spec fn spec_remove(hs: HeadersView, name: Seq<char>) -> HeadersView {
    if index_of(hs, name) < hs.len() {
        hs.remove(index_of(hs, name))
    } else {
        hs
    }
}

/// Folding an already lower-case sequence changes nothing.
pub proof fn lemma_is_lower_id(s: Seq<char>)
    requires
        is_lower(s),
    ensures
        lower_seq(s) == s,
{
    assert(lower_seq(s) =~= s);
}

/// Lower-casing produces a lower-case sequence.
pub proof fn lemma_lower_seq_is_lower(s: Seq<char>)
    ensures
        is_lower(lower_seq(s)),
{
    assert forall|i: int| 0 <= i < lower_seq(s).len()
        implies #[trigger] lower_seq(s)[i] == spec_lower_char(lower_seq(s)[i]) by {
        assert(lower_seq(s)[i] == spec_lower_char(s[i]));
    }
}

/// A sequence fixed by folding is lower-case.
pub proof fn lemma_lower_eq_is_lower(s: Seq<char>)
    requires
        lower_seq(s) == s,
    ensures
        is_lower(s),
{
    assert forall|i: int| 0 <= i < s.len() implies #[trigger] s[i] == spec_lower_char(s[i]) by {
        assert(lower_seq(s)[i] == spec_lower_char(s[i]));
    }
}

/// Setting a lower-case name keeps the map well-formed.
pub proof fn lemma_spec_set_wf(hs: HeadersView, name: Seq<char>, value: Seq<char>)
    requires
        hs_wf(hs),
        is_lower(name),
    ensures
        hs_wf(spec_set(hs, name, value)),
{
    lemma_index_of(hs, name);
    let i = index_of(hs, name);
    let hs2 = spec_set(hs, name, value);
    if i < hs.len() {
        assert(hs[i].0 == name);
        assert forall|a: int, b: int| 0 <= a < b < hs2.len() implies hs2[a].0 != hs2[b].0 by {
            assert(hs2[a].0 == hs[a].0);
            assert(hs2[b].0 == hs[b].0);
        }
        assert(forall|k: int| 0 <= k < hs2.len() ==> is_lower(#[trigger] hs2[k].0));
    } else {
        assert forall|a: int, b: int| 0 <= a < b < hs2.len() implies hs2[a].0 != hs2[b].0 by {
            if b == hs2.len() - 1 {
                assert(hs2[a] == hs[a]);
                assert(hs[a].0 != name);
            } else {
                assert(hs2[a] == hs[a]);
                assert(hs2[b] == hs[b]);
            }
        }
        assert(forall|k: int| 0 <= k < hs2.len() ==> is_lower(#[trigger] hs2[k].0));
    }
}

/// Removing keeps the map well-formed.
pub proof fn lemma_spec_remove_wf(hs: HeadersView, name: Seq<char>)
    requires
        hs_wf(hs),
    ensures
        hs_wf(spec_remove(hs, name)),
{
    lemma_index_of(hs, name);
    let i = index_of(hs, name);
    if i < hs.len() {
        let hs2 = hs.remove(i);
        assert forall|a: int, b: int| 0 <= a < b < hs2.len() implies hs2[a].0 != hs2[b].0 by {
            let a0: int = if a < i { a } else { a + 1 };
            let b0: int = if b < i { b } else { b + 1 };
            assert(hs2[a] == hs[a0]);
            assert(hs2[b] == hs[b0]);
        }
        assert forall|k: int| 0 <= k < hs2.len() implies is_lower(#[trigger] hs2[k].0) by {
            let k0: int = if k < i { k } else { k + 1 };
            assert(hs2[k] == hs[k0]);
        }
    }
}

/// What `lookup` yields after a `set`.
pub proof fn lemma_lookup_set(hs: HeadersView, name: Seq<char>, value: Seq<char>, q: Seq<char>)
    requires
        hs_wf(hs),
    ensures
        lookup(spec_set(hs, name, value), q) == if q == name {
            Some(value)
        } else {
            lookup(hs, q)
        },
{
    lemma_index_of(hs, name);
    let hs2 = spec_set(hs, name, value);
    let i = index_of(hs, name);
    if i < hs.len() {
        if q == name {
            lemma_index_of_found(hs2, q, i);
            lemma_index_of(hs2, q);
        } else {
            lemma_lookup_update_other(hs, i, (name, value), q);
        }
    } else {
        if q == name {
            lemma_index_of_found(hs2, q, hs.len() as int);
            lemma_index_of(hs2, q);
        } else {
            lemma_lookup_push_other(hs, (name, value), q);
        }
    }
}

/// `lookup` ignores an update at an index holding a different name, when
/// the updated name also differs.
proof fn lemma_lookup_update_other(hs: HeadersView, i: int, p: (Seq<char>, Seq<char>), q: Seq<char>)
    requires
        0 <= i < hs.len(),
        q != p.0,
        hs[i].0 != q,
    ensures
        lookup(hs.update(i, p), q) == lookup(hs, q),
    decreases hs.len(),
{
    let hs2 = hs.update(i, p);
    if i == 0 {
        assert(hs2[0].0 == p.0);
        assert(hs2.drop_first() =~= hs.drop_first());
    } else {
        assert(hs2[0] == hs[0]);
        if hs[0].0 != q {
            assert(hs2.drop_first() =~= hs.drop_first().update(i - 1, p));
            lemma_lookup_update_other(hs.drop_first(), i - 1, p, q);
        }
    }
}

/// `lookup` ignores a pushed pair with a different name.
proof fn lemma_lookup_push_other(hs: HeadersView, p: (Seq<char>, Seq<char>), q: Seq<char>)
    requires
        q != p.0,
    ensures
        lookup(hs.push(p), q) == lookup(hs, q),
    decreases hs.len(),
{
    let hs2 = hs.push(p);
    if hs.len() == 0 {
        assert(hs2[0] == p);
        assert(hs2.drop_first() =~= Seq::<(Seq<char>, Seq<char>)>::empty());
    } else {
        assert(hs2[0] == hs[0]);
        assert(hs2.drop_first() =~= hs.drop_first().push(p));
        if hs[0].0 != q {
            lemma_lookup_push_other(hs.drop_first(), p, q);
        }
    }
}

/// What `lookup` yields after a `remove`.
pub proof fn lemma_lookup_remove(hs: HeadersView, name: Seq<char>, q: Seq<char>)
    requires
        hs_wf(hs),
    ensures
        lookup(spec_remove(hs, name), q) == if q == name {
            None::<Seq<char>>
        } else {
            lookup(hs, q)
        },
{
    lemma_index_of(hs, name);
    let i = index_of(hs, name);
    if i < hs.len() {
        lemma_lookup_remove_at(hs, i, q);
        if q == name {
            let hs2 = hs.remove(i);
            assert(forall|k: int| 0 <= k < hs2.len() ==> hs2[k] == (if k < i { hs[k] } else { hs[k + 1] }));
            assert(forall|k: int| 0 <= k < hs2.len() ==> hs2[k].0 != name);
            lemma_lookup_none(hs2, name);
        }
    }
}

/// Removing an entry leaves lookups of other names alone; looking up the
/// removed name afterwards sees only later duplicates (none, when
/// well-formed).
proof fn lemma_lookup_remove_at(hs: HeadersView, i: int, q: Seq<char>)
    requires
        0 <= i < hs.len(),
        hs[i].0 != q || (forall|k: int| 0 <= k < i ==> hs[k].0 != q),
    ensures
        hs[i].0 != q ==> lookup(hs.remove(i), q) == lookup(hs, q),
    decreases hs.len(),
{
    let hs2 = hs.remove(i);
    if hs[i].0 != q {
        if i == 0 {
            assert(hs2 =~= hs.drop_first());
        } else {
            assert(hs2[0] == hs[0]);
            assert(hs2.drop_first() =~= hs.drop_first().remove(i - 1));
            if hs[0].0 != q {
                lemma_lookup_remove_at(hs.drop_first(), i - 1, q);
            }
        }
    }
}

/// When no entry carries the name, `lookup` is `None`.
pub proof fn lemma_lookup_none(hs: HeadersView, q: Seq<char>)
    requires
        forall|k: int| 0 <= k < hs.len() ==> hs[k].0 != q,
    ensures
        lookup(hs, q) is None,
    decreases hs.len(),
{
    if hs.len() > 0 {
        assert(forall|k: int| 0 <= k < hs.drop_first().len() ==> hs.drop_first()[k] == hs[k + 1]);
        lemma_lookup_none(hs.drop_first(), q);
    }
}

} // verus!
